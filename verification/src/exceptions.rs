//! Exceptions of the processor: a task that faults ends, the rest goes on.
use vstd::prelude::*;

use crate::abi::ExitReason;
use crate::kernel::Kernel;
use crate::lifecycle;
use crate::lifecycle::Retirement;
use crate::syscalls;
use crate::syscalls::Outcome;

verus! {

/// The class of an exception, from the syndrome register.
pub open spec fn class(esr: u64) -> u64 {
    (esr / 0x400_0000 % 64) as u64
}

/// What the syndrome register says of an exception.
pub fn exception_class(esr: u64) -> (r: u64)
    ensures
        r == class(esr),
{
    esr / 0x400_0000 % 64
}

pub open spec fn class_text(ec: u64) -> Seq<char> {
    if ec == 0x15 {
        "SVC from AArch64"@
    } else if ec == 0x18 {
        "MSR/MRS trap"@
    } else if ec == 0x20 {
        "Instruction abort (lower EL)"@
    } else if ec == 0x21 {
        "Instruction abort (same EL)"@
    } else if ec == 0x24 {
        "Data abort (lower EL)"@
    } else if ec == 0x25 {
        "Data abort (same EL)"@
    } else if ec == 0x26 {
        "SP alignment fault"@
    } else if ec == 0x2C {
        "FP/SIMD trap"@
    } else {
        "unknown"@
    }
}

pub fn class_name(ec: u64) -> (r: &'static str)
    ensures
        r@ == class_text(ec),
{
    match ec {
        0x15 => "SVC from AArch64",
        0x18 => "MSR/MRS trap",
        0x20 => "Instruction abort (lower EL)",
        0x21 => "Instruction abort (same EL)",
        0x24 => "Data abort (lower EL)",
        0x25 => "Data abort (same EL)",
        0x26 => "SP alignment fault",
        0x2C => "FP/SIMD trap",
        _ => "unknown",
    }
}

/// The current task faulted. It ends, for that reason; a fault of the boot task
/// or of init halts the system.
pub fn task_fault(k: &mut Kernel, now_ns: u64) -> (o: Outcome)
    requires
        old(k).wf(),
    ensures
        final(k).wf(),
        if old(k).sched.current == 0 {
            o == Outcome::Halt && *final(k) == *old(k)
        } else {
            syscalls::exit_done(*old(k), *final(k), ExitReason::Fault, now_ns, o)
        },
{
    match lifecycle::retire_current(k, ExitReason::Fault, now_ns) {
        Retirement::BootTask => Outcome::Halt,
        Retirement::InitExited => Outcome::Halt,
        Retirement::Gone(_) => Outcome::Exited,
    }
}

/// The class of an exception is in the six bits from 26 on of the syndrome.
pub proof fn law_class(esr: u64)
    ensures
        class(esr) == (esr >> 26) & 0x3F,
        class(esr) < 64,
{
    assert(esr / 0x400_0000 % 64 == (esr >> 26) & 0x3F) by (bit_vector);
    assert(esr / 0x400_0000 % 64 < 64) by (bit_vector);
}

/// The aborts are told apart by where they came from.
pub proof fn law_class_text(ec: u64)
    ensures
        ec == 0x20 ==> class_text(ec) == "Instruction abort (lower EL)"@,
        ec == 0x21 ==> class_text(ec) == "Instruction abort (same EL)"@,
        ec == 0x24 ==> class_text(ec) == "Data abort (lower EL)"@,
        ec == 0x25 ==> class_text(ec) == "Data abort (same EL)"@,
        ec == 0x15 ==> class_text(ec) == "SVC from AArch64"@,
        ec == 0x18 ==> class_text(ec) == "MSR/MRS trap"@,
        ec == 0x26 ==> class_text(ec) == "SP alignment fault"@,
        ec == 0x2C ==> class_text(ec) == "FP/SIMD trap"@,
        ec > 0x2C || ec < 0x15 ==> class_text(ec) == "unknown"@,
{
}

} // verus!
