//! What differs from board to board.
use vstd::prelude::*;

verus! {

/// Where the slots for virtio devices are.
#[derive(Clone, Copy, Debug, PartialEq, Eq, Structural)]
pub struct VirtioMmio {
    pub base: usize,
    pub stride: usize,
    pub slots: usize,
}

/// The interrupt controller: two register blocks.
#[derive(Clone, Copy, Debug, PartialEq, Eq, Structural)]
pub enum Gic {
    V2(u64, u64),
    V3(u64, u64),
}

pub struct Board {
    pub name: &'static str,
    pub pl011_base: usize,
    pub gicd_base: usize,
    pub gicc_base: usize,
    pub virtio_mmio: Option<VirtioMmio>,
}

pub fn qemu_virt() -> (b: Board)
    ensures
        b.name@ == "QEMU virt"@,
        b.pl011_base == 0x0900_0000,
        b.gicd_base == 0x0800_0000,
        b.gicc_base == 0x0801_0000,
        b.virtio_mmio == Some(VirtioMmio { base: 0x0a00_0000, stride: 0x200, slots: 32 }),
{
    Board {
        name: "QEMU virt",
        pl011_base: 0x0900_0000,
        gicd_base: 0x0800_0000,
        gicc_base: 0x0801_0000,
        virtio_mmio: Some(VirtioMmio { base: 0x0a00_0000, stride: 0x200, slots: 32 }),
    }
}

pub fn rpi4() -> (b: Board)
    ensures
        b.name@ == "Raspberry Pi 4"@,
        b.pl011_base == 0xFE20_1000,
        b.gicd_base == 0xFF84_1000,
        b.gicc_base == 0xFF84_2000,
        b.virtio_mmio is None,
{
    Board {
        name: "Raspberry Pi 4",
        pl011_base: 0xFE20_1000,
        gicd_base: 0xFF84_1000,
        gicc_base: 0xFF84_2000,
        virtio_mmio: None,
    }
}

} // verus!
