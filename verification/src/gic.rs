//! The interrupt controller: what its registers are set to.
use vstd::prelude::*;

use crate::board::Gic;

verus! {

/// The timer's interrupt.
pub const TIMER_INTID: u32 = 27;

pub const GICD_CTLR: u64 = 0x000;

pub const GICD_ISENABLER0: u64 = 0x100;

pub const GICD_IPRIORITYR: u64 = 0x400;

pub const GICC_CTLR: u64 = 0x00;

pub const GICC_PMR: u64 = 0x04;

pub const GICC_EOIR: u64 = 0x10;

/// The redistributor's wake register.
pub const GICR_WAKER: u64 = 0x14;

/// The interrupts of one processor are in the redistributor's second frame.
pub const GICR_IGROUPR0: u64 = 0x1_0080;

pub const GICR_ISENABLER0: u64 = 0x1_0100;

pub const GICR_IPRIORITYR: u64 = 0x1_0400;

/// The timer's bit in a register of 32 interrupts.
pub const TIMER_BIT: u32 = 0x800_0000;

/// The priority register of the timer, behind the first one.
pub const TIMER_PRIORITY: u64 = 24;

/// The timer's priority register with the timer, its highest byte, at the
/// highest priority.
pub fn set_priority_zero(val: u32) -> (r: u32)
    ensures
        r == val % 0x100_0000,
{
    val % 0x100_0000
}

/// A system register of the processor's interface to a version 3 controller.
#[derive(Clone, Copy, Debug, PartialEq, Eq, Structural)]
pub enum SystemRegister {
    /// ICC_SRE_EL1.
    Enable,
    /// ICC_PMR_EL1.
    PriorityMask,
    /// ICC_IGRPEN1_EL1.
    Group1,
    /// ICC_EOIR1_EL1.
    End,
}

/// One access to the controller. What the last one of a list read is the reading
/// for the next step.
#[derive(Clone, Copy, Debug, PartialEq, Eq, Structural)]
pub enum Op {
    Write(u64, u32),
    Read(u64),
    WriteSystem(SystemRegister, u64),
    ReadSystem(SystemRegister),
    /// Every access before it is complete before any after it.
    Barrier,
    /// System registers written before it count for what comes after it.
    Sync,
}

/// How far the controller has been brought up.
#[derive(Clone, Copy, Debug, PartialEq, Eq, Structural)]
pub enum Stage {
    Start,
    /// Version 3: the wake register was read.
    Waker,
    /// Version 3: it was read again, without the sleep request.
    Waking,
    /// Version 3: the group register was read.
    Group,
    /// The timer's priority register was read.
    Priority,
    /// Version 3: the register that enables the others was read.
    System,
    Done,
}

/// A step that brings up a version 2 controller: the distributor off, the timer
/// enabled at the highest priority, then everything on.
pub open spec fn v2_step(gicd: u64, gicc: u64, stage: Stage, reading: u64) -> (Seq<Op>, Stage) {
    let priority = (gicd + GICD_IPRIORITYR + TIMER_PRIORITY) as u64;
    match stage {
        Stage::Start => (
            seq![
                Op::Write((gicd + GICD_CTLR) as u64, 0),
                Op::Barrier,
                Op::Write((gicd + GICD_ISENABLER0) as u64, TIMER_BIT),
                Op::Read(priority),
            ],
            Stage::Priority,
        ),
        Stage::Priority => (
            seq![
                Op::Write(priority, (reading as u32 % 0x100_0000) as u32),
                Op::Write((gicd + GICD_CTLR) as u64, 3),
                Op::Barrier,
                Op::Write((gicc + GICC_PMR) as u64, 0xFF),
                Op::Write((gicc + GICC_CTLR) as u64, 3),
                Op::Barrier,
            ],
            Stage::Done,
        ),
        _ => (Seq::empty(), Stage::Done),
    }
}

/// `reading` is what the last access of the step before read.
pub fn init_v2(gicd: u64, gicc: u64, stage: Stage, reading: u64) -> (r: (Vec<Op>, Stage))
    requires
        gicd + 0x1000 <= u64::MAX,
        gicc + 0x1000 <= u64::MAX,
    ensures
        (r.0@, r.1) == v2_step(gicd, gicc, stage, reading),
{
    let priority: u64 = gicd + GICD_IPRIORITYR + TIMER_PRIORITY;
    let ops: Vec<Op> = match stage {
        Stage::Start => vec![
            Op::Write(gicd + GICD_CTLR, 0),
            Op::Barrier,
            Op::Write(gicd + GICD_ISENABLER0, TIMER_BIT),
            Op::Read(priority),
        ],
        Stage::Priority => vec![
            Op::Write(priority, set_priority_zero(reading as u32)),
            Op::Write(gicd + GICD_CTLR, 3),
            Op::Barrier,
            Op::Write(gicc + GICC_PMR, 0xFF),
            Op::Write(gicc + GICC_CTLR, 3),
            Op::Barrier,
        ],
        _ => Vec::new(),
    };
    assert(ops@ =~= v2_step(gicd, gicc, stage, reading).0);
    (ops, if stage == Stage::Start { Stage::Priority } else { Stage::Done })
}

/// A step that brings up a version 3 controller: affinity routing and both groups
/// on, the processor's redistributor woken, the timer in the second group,
/// enabled at the highest priority, and the processor's interface on.
pub open spec fn v3_step(gicd: u64, gicr: u64, stage: Stage, reading: u64) -> (Seq<Op>, Stage) {
    let waker = (gicr + GICR_WAKER) as u64;
    let group = (gicr + GICR_IGROUPR0) as u64;
    let priority = (gicr + GICR_IPRIORITYR + TIMER_PRIORITY) as u64;
    match stage {
        Stage::Start => (
            seq![Op::Write((gicd + GICD_CTLR) as u64, 0x13), Op::Barrier, Op::Read(waker)],
            Stage::Waker,
        ),
        Stage::Waker => (
            seq![Op::Write(waker, reading as u32 & !2u32), Op::Read(waker)],
            Stage::Waking,
        ),
        Stage::Waking => if reading as u32 & 4u32 != 0 {
            (seq![Op::Read(waker)], Stage::Waking)
        } else {
            (seq![Op::Read(group)], Stage::Group)
        },
        Stage::Group => (
            seq![Op::Write(group, reading as u32 | TIMER_BIT), Op::Read(priority)],
            Stage::Priority,
        ),
        Stage::Priority => (
            seq![
                Op::Write(priority, (reading as u32 % 0x100_0000) as u32),
                Op::Write((gicr + GICR_ISENABLER0) as u64, TIMER_BIT),
                Op::Barrier,
                Op::ReadSystem(SystemRegister::Enable),
            ],
            Stage::System,
        ),
        Stage::System => (
            seq![
                Op::WriteSystem(SystemRegister::Enable, reading | 1),
                Op::Sync,
                Op::WriteSystem(SystemRegister::PriorityMask, 0xFF),
                Op::WriteSystem(SystemRegister::Group1, 1),
                Op::Sync,
            ],
            Stage::Done,
        ),
        Stage::Done => (Seq::empty(), Stage::Done),
    }
}

/// `reading` is what the last access of the step before read.
pub fn init_v3(gicd: u64, gicr: u64, stage: Stage, reading: u64) -> (r: (Vec<Op>, Stage))
    requires
        gicd + 0x1000 <= u64::MAX,
        gicr + 0x2_0000 <= u64::MAX,
    ensures
        (r.0@, r.1) == v3_step(gicd, gicr, stage, reading),
{
    let waker: u64 = gicr + GICR_WAKER;
    let group: u64 = gicr + GICR_IGROUPR0;
    let priority: u64 = gicr + GICR_IPRIORITYR + TIMER_PRIORITY;
    let (ops, next): (Vec<Op>, Stage) = match stage {
        Stage::Start => (
            vec![Op::Write(gicd + GICD_CTLR, 0x13), Op::Barrier, Op::Read(waker)],
            Stage::Waker,
        ),
        Stage::Waker => (
            vec![Op::Write(waker, reading as u32 & !2u32), Op::Read(waker)],
            Stage::Waking,
        ),
        Stage::Waking => if reading as u32 & 4u32 != 0 {
            (vec![Op::Read(waker)], Stage::Waking)
        } else {
            (vec![Op::Read(group)], Stage::Group)
        },
        Stage::Group => (
            vec![Op::Write(group, reading as u32 | TIMER_BIT), Op::Read(priority)],
            Stage::Priority,
        ),
        Stage::Priority => (
            vec![
                Op::Write(priority, set_priority_zero(reading as u32)),
                Op::Write(gicr + GICR_ISENABLER0, TIMER_BIT),
                Op::Barrier,
                Op::ReadSystem(SystemRegister::Enable),
            ],
            Stage::System,
        ),
        Stage::System => (
            vec![
                Op::WriteSystem(SystemRegister::Enable, reading | 1),
                Op::Sync,
                Op::WriteSystem(SystemRegister::PriorityMask, 0xFF),
                Op::WriteSystem(SystemRegister::Group1, 1),
                Op::Sync,
            ],
            Stage::Done,
        ),
        Stage::Done => (Vec::new(), Stage::Done),
    };
    assert(ops@ =~= v3_step(gicd, gicr, stage, reading).0);
    (ops, next)
}

/// A step that brings up the board's controller for the timer's interrupt.
pub fn init(gic: &Gic, stage: Stage, reading: u64) -> (r: (Vec<Op>, Stage))
    requires
        match *gic {
            Gic::V2(gicd, gicc) => gicd + 0x1000 <= u64::MAX && gicc + 0x1000 <= u64::MAX,
            Gic::V3(gicd, gicr) => gicd + 0x1000 <= u64::MAX && gicr + 0x2_0000 <= u64::MAX,
        },
    ensures
        (r.0@, r.1) == match *gic {
            Gic::V2(gicd, gicc) => v2_step(gicd, gicc, stage, reading),
            Gic::V3(gicd, gicr) => v3_step(gicd, gicr, stage, reading),
        },
{
    match *gic {
        Gic::V2(gicd, gicc) => init_v2(gicd, gicc, stage, reading),
        Gic::V3(gicd, gicr) => init_v3(gicd, gicr, stage, reading),
    }
}

/// The interrupt that the acknowledge register names.
pub fn acknowledge(gic: &Gic, iar: u64) -> (r: u32)
    ensures
        r == match *gic {
            Gic::V2(_, _) => iar as int % 0x400,
            Gic::V3(_, _) => iar as int % 0x100_0000,
        },
{
    match *gic {
        Gic::V2(_, _) => (iar % 0x400) as u32,
        Gic::V3(_, _) => (iar % 0x100_0000) as u32,
    }
}

/// The write that ends an interrupt.
pub fn end_of_interrupt(gic: &Gic, intid: u32) -> (r: Op)
    requires
        *gic matches Gic::V2(_, gicc) ==> gicc + GICC_EOIR <= u64::MAX,
    ensures
        r == match *gic {
            Gic::V2(_, gicc) => Op::Write((gicc + GICC_EOIR) as u64, intid),
            Gic::V3(_, _) => Op::WriteSystem(SystemRegister::End, intid as u64),
        },
{
    match *gic {
        Gic::V2(_, gicc) => Op::Write(gicc + GICC_EOIR, intid),
        Gic::V3(_, _) => Op::WriteSystem(SystemRegister::End, intid as u64),
    }
}

/// Bringing up a version 2 controller ends with the timer's interrupt, line 27,
/// enabled, the controller and the processor's interface on, and nothing masked.
pub proof fn law_v2(gicd: u64, gicc: u64, reading: u64)
    requires
        gicd + 0x1000 <= u64::MAX,
        gicc + 0x1000 <= u64::MAX,
    ensures
        ({
            let (first, mid) = v2_step(gicd, gicc, Stage::Start, 0);
            let (last, end) = v2_step(gicd, gicc, mid, reading);
            &&& first[0] == Op::Write(gicd, 0)
            &&& first.contains(Op::Write((gicd + 0x100) as u64, 0x800_0000))
            &&& first.last() is Read
            &&& last.contains(Op::Write(gicd, 3))
            &&& last.contains(Op::Write((gicc + 4) as u64, 0xFF))
            &&& last.contains(Op::Write(gicc, 3))
            &&& end is Done
        }),
{
    let (first, mid) = v2_step(gicd, gicc, Stage::Start, 0);
    let (last, end) = v2_step(gicd, gicc, mid, reading);
    assert(first[2] == Op::Write((gicd + 0x100) as u64, 0x800_0000));
    assert(last[1] == Op::Write(gicd, 3));
    assert(last[3] == Op::Write((gicc + 4) as u64, 0xFF));
    assert(last[4] == Op::Write(gicc, 3));
}

/// A version 3 controller is waited for while its redistributor says that it sleeps,
/// and no longer; the steps then end.
pub proof fn law_v3_wakes(gicd: u64, gicr: u64, reading: u64)
    requires
        gicd + 0x1000 <= u64::MAX,
        gicr + 0x2_0000 <= u64::MAX,
        reading <= u32::MAX,
    ensures
        v3_step(gicd, gicr, Stage::Start, reading).1 is Waker,
        v3_step(gicd, gicr, Stage::Waker, reading).1 is Waking,
        reading as u32 & 4u32 != 0 ==> v3_step(gicd, gicr, Stage::Waking, reading).1 is Waking,
        reading as u32 & 4u32 == 0 ==> v3_step(gicd, gicr, Stage::Waking, reading).1 is Group,
        v3_step(gicd, gicr, Stage::Group, reading).1 is Priority,
        v3_step(gicd, gicr, Stage::Priority, reading).1 is System,
        v3_step(gicd, gicr, Stage::System, reading).1 is Done,
        v3_step(gicd, gicr, Stage::Start, reading).0[0] == Op::Write(gicd, 0x13),
        v3_step(gicd, gicr, Stage::Waker, reading).0[0] == Op::Write(
            (gicr + 0x14) as u64,
            reading as u32 & !2u32,
        ),
        v3_step(gicd, gicr, Stage::Priority, reading).0[1] == Op::Write(
            (gicr + 0x1_0100) as u64,
            0x800_0000,
        ),
        v3_step(gicd, gicr, Stage::System, reading).0[2] == Op::WriteSystem(
            SystemRegister::PriorityMask,
            0xFF,
        ),
        v3_step(gicd, gicr, Stage::System, reading).0[3] == Op::WriteSystem(
            SystemRegister::Group1,
            1,
        ),
{
}

} // verus!
