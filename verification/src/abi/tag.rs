//! Message tags.
use vstd::prelude::*;

verus! {

pub const PING: u32 = 1;
pub const PONG: u32 = 2;
pub const IRQ: u32 = 10;
pub const MOUSE_RAW: u32 = 11;
pub const MOUSE: u32 = 12;
pub const KEY_DOWN: u32 = 20;
pub const KEY_UP: u32 = 21;
/// Kernel to init: payload 0 is the task id, payload 1 the exit reason.
pub const TASK_EXITED: u32 = 100;
/// Anyone with SEND on init's inbox to init: the service name, packed by `with_name`.
pub const RESTART_REQUEST: u32 = 101;

} // verus!
