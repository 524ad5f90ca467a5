//! The ARM processor's control registers: what boot sets in them.
use vstd::prelude::*;

verus! {

/// What boot makes of the registers that govern translation.
#[derive(Clone, Copy, Debug, PartialEq, Eq, Structural)]
pub struct Setup {
    /// SCTLR_EL1: writable pages stay executable where the firmware said so,
    /// and, where there is PAN, every exception entry sets it.
    pub sctlr: u64,
    /// TCR_EL1: the ASID comes from TTBR0.
    pub tcr: u64,
    /// Whether the processor can keep the kernel from touching user memory
    /// directly.
    pub pan: bool,
    /// The firmware's top-level table.
    pub root: u64,
    pub t0sz: u32,
}

/// SCTLR_EL1.WXN.
pub const WXN: u64 = 0x8_0000;

/// SCTLR_EL1.SPAN.
pub const SPAN: u64 = 0x80_0000;

/// TCR_EL1.A1.
pub const A1: u64 = 0x40_0000;

/// The address bits of TTBR0_EL1.
pub const ADDR_MASK: u64 = 0x0000_FFFF_FFFF_F000;

/// CPACR_EL1.FPEN: nothing traps.
pub const FPEN: u64 = 0x30_0000;

/// The registers as boot leaves them. A processor without PAN (bits 20 to 23 of
/// ID_AA64MMFR1_EL1 are zero) keeps SPAN as it is.
pub fn plan(ttbr0: u64, tcr: u64, mmfr1: u64, sctlr: u64) -> (s: Setup)
    ensures
        s.pan == (mmfr1 as int / 0x10_0000 % 16 != 0),
        s.sctlr == if s.pan {
            sctlr & !WXN & !SPAN
        } else {
            sctlr & !WXN
        },
        s.tcr == tcr & !A1,
        s.root == ttbr0 & ADDR_MASK,
        s.t0sz == tcr % 64,
{
    let pan: bool = mmfr1 / 0x10_0000 % 16 != 0;
    let kept: u64 = sctlr & !WXN;
    Setup {
        sctlr: if pan { kept & !SPAN } else { kept },
        tcr: tcr & !A1,
        pan,
        root: ttbr0 & ADDR_MASK,
        t0sz: (tcr % 64) as u32,
    }
}

/// CPACR_EL1 with floating point open to the kernel and to tasks.
pub fn with_fp(cpacr: u64) -> (r: u64)
    ensures
        r == cpacr | FPEN,
{
    cpacr | FPEN
}

} // verus!
