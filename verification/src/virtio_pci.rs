//! Where a virtio device on PCI keeps its registers.
use vstd::prelude::*;

use crate::mem;
use crate::mem::PhysMem;
use crate::pci;
use crate::pci::{Ecam, PciDevice};

verus! {

/// The capability is the vendor's own.
pub const PCI_CAP_VNDR: u8 = 0x09;

pub const VIRTIO_PCI_CAP_COMMON_CFG: u8 = 1;

pub const VIRTIO_PCI_CAP_NOTIFY_CFG: u8 = 2;

pub const VIRTIO_PCI_CAP_DEVICE_CFG: u8 = 4;

/// The ids of the virtio GPU.
pub const VENDOR_ID: u16 = 0x1AF4;

pub const DEVICE_ID: u16 = 0x1050;

/// Where one kind of registers is: in which region of the device, and where in
/// it.
#[derive(Clone, Copy, Debug, PartialEq, Eq, Structural)]
pub struct VirtioCap {
    pub cap_type: u8,
    pub bar: u8,
    pub offset: u32,
    pub length: u32,
    pub notify_off_multiplier: u32,
}

impl VirtioCap {
    pub open spec fn none() -> VirtioCap {
        VirtioCap { cap_type: 0, bar: 0, offset: 0, length: 0, notify_off_multiplier: 0 }
    }
}

/// Where register `offset` of the function is.
pub open spec fn register(ecam: Ecam, dev: PciDevice, offset: int) -> int {
    pci::config_addr(ecam, dev.bus, dev.slot, dev.func, offset as u16)
}

/// The registers of the function lie in memory.
pub open spec fn readable(m: Seq<u8>, ecam: Ecam, dev: PciDevice) -> bool {
    register(ecam, dev, 0) + 4096 <= m.len()
}

/// The capability at `ptr` of the function.
pub open spec fn cap_at(m: Seq<u8>, ecam: Ecam, dev: PciDevice, ptr: u8) -> VirtioCap {
    let t = m[register(ecam, dev, ptr + 3)];
    VirtioCap {
        cap_type: t,
        bar: m[register(ecam, dev, ptr + 4)],
        offset: mem::word32(m, register(ecam, dev, ptr + 8)),
        length: mem::word32(m, register(ecam, dev, ptr + 12)),
        notify_off_multiplier: if t == VIRTIO_PCI_CAP_NOTIFY_CFG {
            mem::word32(m, register(ecam, dev, ptr + 16))
        } else {
            0
        },
    }
}

/// `caps` with the capabilities of the list from `ptr` on, each in the place of
/// its type. A list of more than `fuel` goes in a circle, and is none.
pub open spec fn walk(
    m: Seq<u8>,
    ecam: Ecam,
    dev: PciDevice,
    ptr: u8,
    caps: Seq<VirtioCap>,
    fuel: nat,
) -> Option<Seq<VirtioCap>>
    decreases fuel,
{
    if ptr == 0 {
        Some(caps)
    } else if fuel == 0 {
        None
    } else {
        let c = cap_at(m, ecam, dev, ptr);
        let known = m[register(ecam, dev, ptr as int)] == PCI_CAP_VNDR && 1 <= c.cap_type <= 4;
        walk(
            m,
            ecam,
            dev,
            m[register(ecam, dev, ptr + 1)],
            if known {
                caps.update(c.cap_type as int, c)
            } else {
                caps
            },
            (fuel - 1) as nat,
        )
    }
}

/// Every register of the function can be read.
proof fn lemma_reaches(m: &PhysMem, ecam: Ecam, dev: PciDevice, offset: u16)
    requires
        readable(m@, ecam, dev),
        offset <= 4092,
    ensures
        dev.reaches(ecam, m@.len() as int, offset, 4),
{
    m.lemma_size();
    pci::lemma_offset(ecam, dev.bus, dev.slot, dev.func, offset);
}

pub open spec fn no_caps() -> Seq<VirtioCap> {
    Seq::new(5, |i: int| VirtioCap::none())
}

/// The capabilities of the device, each in the place of its type.
pub fn capabilities(m: &PhysMem, ecam: &Ecam, dev: &PciDevice) -> (r: Option<Vec<VirtioCap>>)
    requires
        readable(m@, *ecam, *dev),
    ensures
        match r {
            Some(caps) => walk(
                m@,
                *ecam,
                *dev,
                m@[register(*ecam, *dev, 0x34)],
                no_caps(),
                256,
            ) == Some(caps@) && caps@.len() == 5,
            None => walk(
                m@,
                *ecam,
                *dev,
                m@[register(*ecam, *dev, 0x34)],
                no_caps(),
                256,
            ) is None,
        },
{
    let none: VirtioCap = VirtioCap {
        cap_type: 0,
        bar: 0,
        offset: 0,
        length: 0,
        notify_off_multiplier: 0,
    };
    let mut caps: Vec<VirtioCap> = vec![none; 5];
    assert(caps@ =~= no_caps());
    proof {
        lemma_reaches(m, *ecam, *dev, 0x34);
    }
    let mut ptr: u8 = dev.read_u8(m, ecam, 0x34);
    let ghost start = ptr;
    let mut fuel: usize = 256;
    while ptr != 0
        invariant
            fuel <= 256,
            caps@.len() == 5,
            readable(m@, *ecam, *dev),
            start == m@[register(*ecam, *dev, 0x34)],
            walk(m@, *ecam, *dev, start, no_caps(), 256) == walk(
                m@,
                *ecam,
                *dev,
                ptr,
                caps@,
                fuel as nat,
            ),
        decreases fuel,
    {
        if fuel == 0 {
            return None;
        }
        let p: u16 = ptr as u16;
        proof {
            lemma_reaches(m, *ecam, *dev, p);
            lemma_reaches(m, *ecam, *dev, (p + 1) as u16);
            lemma_reaches(m, *ecam, *dev, (p + 3) as u16);
            lemma_reaches(m, *ecam, *dev, (p + 4) as u16);
            lemma_reaches(m, *ecam, *dev, (p + 8) as u16);
            lemma_reaches(m, *ecam, *dev, (p + 12) as u16);
            lemma_reaches(m, *ecam, *dev, (p + 16) as u16);
        }
        if dev.read_u8(m, ecam, p) == PCI_CAP_VNDR {
            let t: u8 = dev.read_u8(m, ecam, p + 3);
            if t >= 1 && t <= 4 {
                caps[t as usize] = VirtioCap {
                    cap_type: t,
                    bar: dev.read_u8(m, ecam, p + 4),
                    offset: dev.read_u32(m, ecam, p + 8),
                    length: dev.read_u32(m, ecam, p + 12),
                    notify_off_multiplier: if t == VIRTIO_PCI_CAP_NOTIFY_CFG {
                        dev.read_u32(m, ecam, p + 16)
                    } else {
                        0
                    },
                };
            }
        }
        ptr = dev.read_u8(m, ecam, p + 1);
        fuel = fuel - 1;
    }
    Some(caps)
}

/// The base of a region of the device. Bits 1 and 2 of its register say whether
/// the next register holds the upper half.
pub open spec fn bar_base(m: Seq<u8>, ecam: Ecam, dev: PciDevice, bar: u8) -> int {
    let lo = mem::word32(m, register(ecam, dev, 0x10 + 4 * bar)) as int;
    let hi = mem::word32(m, register(ecam, dev, 0x14 + 4 * bar)) as int;
    if lo / 2 % 4 == 2 {
        lo / 16 * 16 + hi * 0x1_0000_0000
    } else {
        lo / 16 * 16
    }
}

/// The base of the region that a capability points into, which has to be mapped
/// before it is touched, and the address of the registers; none past the last
/// address.
pub fn get_addr(m: &PhysMem, ecam: &Ecam, dev: &PciDevice, cap: &VirtioCap) -> (r: (
    u64,
    Option<u64>,
))
    requires
        readable(m@, *ecam, *dev),
    ensures
        ({
            let base = bar_base(m@, *ecam, *dev, cap.bar);
            &&& r.0 == base
            &&& r.1 == if base + cap.offset <= u64::MAX {
                Some((base + cap.offset) as u64)
            } else {
                None
            }
        }),
{
    let reg: u16 = 0x10 + cap.bar as u16 * 4;
    proof {
        lemma_reaches(m, *ecam, *dev, reg);
        lemma_reaches(m, *ecam, *dev, (reg + 4) as u16);
    }
    let lo: u64 = dev.read_u32(m, ecam, reg) as u64;
    let mut base: u64 = lo / 16 * 16;
    if lo / 2 % 4 == 2 {
        let hi: u64 = dev.read_u32(m, ecam, reg + 4) as u64;
        base = base + hi * 0x1_0000_0000;
    }
    (base, base.checked_add(cap.offset as u64))
}

/// The base of a region leaves out the four low bits of its register, and takes in the
/// next register where the region has a wide address.
pub proof fn law_bar_base(m: Seq<u8>, ecam: Ecam, dev: PciDevice, bar: u8)
    ensures
        ({
            let lo = mem::word32(m, register(ecam, dev, 0x10 + 4 * bar));
            let hi = mem::word32(m, register(ecam, dev, 0x14 + 4 * bar));
            let b = bar_base(m, ecam, dev, bar);
            &&& lo & 6 == 4 ==> b == (lo & 0xFFFF_FFF0) + hi * 0x1_0000_0000
            &&& lo & 6 != 4 ==> b == lo & 0xFFFF_FFF0
        }),
{
    let lo: u32 = mem::word32(m, register(ecam, dev, 0x10 + 4 * bar));
    assert((lo / 2 % 4 == 2) == (lo & 6 == 4)) by (bit_vector);
    assert(lo / 16 * 16 == lo & 0xFFFF_FFF0) by (bit_vector);
}

/// A capability is of the kind in its fourth byte, and tells its region, where in it
/// the registers are and how long they are.
pub proof fn law_capability(m: Seq<u8>, ecam: Ecam, dev: PciDevice, ptr: u8)
    ensures
        ({
            let c = cap_at(m, ecam, dev, ptr);
            &&& c.cap_type == m[register(ecam, dev, ptr + 3)]
            &&& c.bar == m[register(ecam, dev, ptr + 4)]
            &&& c.offset == mem::word32(m, register(ecam, dev, ptr + 8))
            &&& c.length == mem::word32(m, register(ecam, dev, ptr + 12))
            &&& c.cap_type == 2 ==> c.notify_off_multiplier == mem::word32(
                m,
                register(ecam, dev, ptr + 16),
            )
        }),
{
}

/// The list of capabilities is followed to its end; a vendor's capability of a known
/// kind is kept in the place of its kind, and anything else is passed over.
pub proof fn law_walk(
    m: Seq<u8>,
    ecam: Ecam,
    dev: PciDevice,
    ptr: u8,
    caps: Seq<VirtioCap>,
    fuel: nat,
)
    ensures
        walk(m, ecam, dev, 0, caps, fuel) == Some(caps),
        ptr != 0 && fuel > 0 ==> ({
            let c = cap_at(m, ecam, dev, ptr);
            let known = m[register(ecam, dev, ptr as int)] == 9 && 1 <= c.cap_type && c.cap_type
                <= 4;
            let next = m[register(ecam, dev, ptr + 1)];
            &&& known ==> walk(m, ecam, dev, ptr, caps, fuel) == walk(
                m,
                ecam,
                dev,
                next,
                caps.update(c.cap_type as int, c),
                (fuel - 1) as nat,
            )
            &&& !known ==> walk(m, ecam, dev, ptr, caps, fuel) == walk(
                m,
                ecam,
                dev,
                next,
                caps,
                (fuel - 1) as nat,
            )
        }),
{
}

} // verus!
