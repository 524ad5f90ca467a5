//! Interrupts as messages: the kernel hands raw bytes on, and drivers decode
//! them.
use vstd::prelude::*;

use crate::abi::tag;
use crate::abi::Message;

verus! {

/// The channel for raw scancodes.
pub const KEYBOARD_CHANNEL: u32 = 0;

/// The channel for raw bytes of the mouse.
pub const MOUSE_CHANNEL: u32 = 3;

/// The message for a scancode. The time is where the measurement from input to
/// light begins.
pub fn keyboard_message(scancode: u8, irq_ns: u64) -> (m: Message)
    ensures
        m.tag == tag::IRQ,
        m.sender == 0,
        m.len == 2,
        m.payload@ == seq![scancode as u64, irq_ns, 0u64, 0u64],
{
    let payload: [u64; 4] = [scancode as u64, irq_ns, 0, 0];
    assert(payload@ =~= seq![scancode as u64, irq_ns, 0u64, 0u64]);
    Message { tag: tag::IRQ, sender: 0, len: 2, payload }
}

pub fn mouse_message(byte: u8) -> (m: Message)
    ensures
        m.tag == tag::MOUSE_RAW,
        m.sender == 0,
        m.len == 1,
        m.payload@ == seq![byte as u64, 0u64, 0u64, 0u64],
{
    let payload: [u64; 4] = [byte as u64, 0, 0, 0];
    assert(payload@ =~= seq![byte as u64, 0u64, 0u64, 0u64]);
    Message { tag: tag::MOUSE_RAW, sender: 0, len: 1, payload }
}

} // verus!
