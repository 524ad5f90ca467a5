//! Syscall numbers, passed in `x8` to `svc #0`.
use vstd::prelude::*;

verus! {

pub const SEND: u64 = 0;
pub const RECV: u64 = 1;
pub const TRY_RECV: u64 = 2;
pub const YIELD: u64 = 3;
pub const EXIT: u64 = 4;
pub const TIME_NS: u64 = 5;
pub const LOG: u64 = 6;
pub const CHANNEL_CREATE: u64 = 7;
pub const SPAWN: u64 = 8;

} // verus!
