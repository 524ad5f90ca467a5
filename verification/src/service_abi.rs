//! What services outside the kernel image call, and where they begin.
use vstd::prelude::*;

use crate::abi::Message;
use crate::context;
use crate::delivery;
use crate::ipc;
use crate::kernel::Kernel;
use crate::text;

verus! {

#[derive(Clone, Copy, Debug, PartialEq, Eq)]
pub struct ServiceMessage {
    pub tag: u32,
    pub sender: u16,
    pub len: u16,
    pub payload: [u64; 4],
}

/// How a service sees an error.
pub open spec fn error_code(e: ipc::Error) -> i64 {
    match e {
        ipc::Error::InvalidChannel => -2i64,
        ipc::Error::Full => -3i64,
        ipc::Error::NoCapacity => -4i64,
    }
}

fn code_of(e: ipc::Error) -> (r: i64)
    ensures
        r == error_code(e),
{
    match e {
        ipc::Error::InvalidChannel => -2,
        ipc::Error::Full => -3,
        ipc::Error::NoCapacity => -4,
    }
}

/// The kernel's message for one that a service hands over: it is from the
/// current task, and no longer than its payload.
pub open spec fn kernel_message(msg: ServiceMessage, current: usize) -> Message {
    Message {
        tag: msg.tag,
        sender: current as u16,
        len: if msg.len > 32 {
            32
        } else {
            msg.len
        },
        payload: msg.payload,
    }
}

/// A service's log call.
pub fn service_log(console: &mut Vec<char>, bytes: &[u8])
    ensures
        final(console)@ == old(console)@ + text::logged("[service]"@, bytes@),
{
    text::push_log(console, "[service]", bytes);
}

/// Sends a message for the current task. -1 stands for a missing message.
pub fn service_send(k: &mut Kernel, channel_id: u32, msg: Option<ServiceMessage>, now_ns: u64) -> (r:
    i64)
    requires
        old(k).wf(),
    ensures
        final(k).wf(),
        match msg {
            None => r == -1 && *final(k) == *old(k),
            Some(m) => match delivery::send_error(old(k).ipc@, channel_id) {
                Some(e) => r == error_code(e) && delivery::untouched(*old(k), *final(k)),
                None => r == 0 && exists|woken: Option<usize>| #[trigger]
                    delivery::sent(
                        *old(k),
                        *final(k),
                        old(k).sched.current as u16,
                        channel_id,
                        kernel_message(m, old(k).sched.current),
                        now_ns,
                        woken,
                    ),
            },
        },
{
    let m: ServiceMessage = match msg {
        None => {
            return -1;
        },
        Some(m) => m,
    };
    let kernel_msg: Message = Message {
        tag: m.tag,
        sender: k.sched.current as u16,
        len: if m.len > 32 {
            32
        } else {
            m.len
        },
        payload: m.payload,
    };
    assert(kernel_msg == kernel_message(m, k.sched.current));
    let r: Result<Option<usize>, ipc::Error> = delivery::send(k, channel_id, &kernel_msg, now_ns);
    match r {
        Ok(woken) => {
            assert(delivery::sent(
                *old(k),
                *k,
                old(k).sched.current as u16,
                channel_id,
                kernel_message(m, old(k).sched.current),
                now_ns,
                woken,
            ));
            0
        },
        Err(e) => code_of(e),
    }
}

/// Receives a message for the current task, which waits where there is none
/// (no result).
pub fn service_recv(k: &mut Kernel, channel_id: u32, now_ns: u64) -> (r: Option<
    Result<ServiceMessage, i64>,
>)
    requires
        old(k).wf(),
        context::is_live(old(k).sched.tasks@[old(k).sched.current as int]),
    ensures
        final(k).wf(),
        match r {
            Some(Err(code)) => {
                &&& code == error_code(ipc::Error::InvalidChannel)
                &&& !old(k).ipc@.live(channel_id)
                &&& delivery::untouched(*old(k), *final(k))
            },
            Some(Ok(m)) => {
                &&& old(k).ipc@.live(channel_id)
                &&& old(k).ipc@.chans[channel_id as int].queue.len() > 0
                &&& (Message { tag: m.tag, sender: m.sender, len: m.len, payload: m.payload })
                    == old(k).ipc@.chans[channel_id as int].queue[0].msg
                &&& delivery::taken(*old(k), *final(k), channel_id, now_ns)
            },
            None => {
                &&& old(k).ipc@.live(channel_id)
                &&& old(k).ipc@.chans[channel_id as int].queue.len() == 0
                &&& delivery::now_waiting(*old(k), *final(k), channel_id)
            },
        },
{
    match delivery::recv(k, channel_id, now_ns) {
        Err(e) => Some(Err(code_of(e))),
        Ok(None) => None,
        Ok(Some(m)) => Some(
            Ok(ServiceMessage { tag: m.tag, sender: m.sender, len: m.len, payload: m.payload }),
        ),
    }
}

/// Where the services that were loaded from outside begin; 0 where none was.
#[derive(Clone, Copy, Debug, PartialEq, Eq, Structural)]
pub struct ExternalEntries {
    pub pong: u64,
    pub pulse: u64,
    pub fault: u64,
    pub fault_user_stack: u64,
}

pub open spec fn known(entry: u64) -> Option<u64> {
    if entry == 0 {
        None
    } else {
        Some(entry)
    }
}

fn unless_zero(entry: u64) -> (r: Option<u64>)
    ensures
        r == known(entry),
{
    match entry {
        0 => None,
        entry => Some(entry),
    }
}

pub fn register_external_pong(e: &mut ExternalEntries, entry: u64)
    ensures
        *final(e) == (ExternalEntries { pong: entry, ..*old(e) }),
{
    e.pong = entry;
}

pub fn external_pong_entry(e: &ExternalEntries) -> (r: Option<u64>)
    ensures
        r == known(e.pong),
{
    unless_zero(e.pong)
}

pub fn register_external_pulse(e: &mut ExternalEntries, entry: u64)
    ensures
        *final(e) == (ExternalEntries { pulse: entry, ..*old(e) }),
{
    e.pulse = entry;
}

pub fn external_pulse_entry(e: &ExternalEntries) -> (r: Option<u64>)
    ensures
        r == known(e.pulse),
{
    unless_zero(e.pulse)
}

pub fn register_external_fault(e: &mut ExternalEntries, entry: u64, user_stack_bottom: u64)
    ensures
        *final(e) == (ExternalEntries {
            fault: entry,
            fault_user_stack: user_stack_bottom,
            ..*old(e)
        }),
{
    e.fault = entry;
    e.fault_user_stack = user_stack_bottom;
}

pub fn external_fault_entry(e: &ExternalEntries) -> (r: Option<u64>)
    ensures
        r == known(e.fault),
{
    unless_zero(e.fault)
}

pub fn external_fault_user_stack(e: &ExternalEntries) -> (r: Option<u64>)
    ensures
        r == known(e.fault_user_stack),
{
    unless_zero(e.fault_user_stack)
}

/// A service's message goes on as it is, with the sender that the kernel knows and no
/// more than 32 bytes.
pub proof fn law_kernel_message(msg: ServiceMessage, current: usize)
    requires
        current < 16,
    ensures
        kernel_message(msg, current).tag == msg.tag,
        kernel_message(msg, current).sender == current,
        kernel_message(msg, current).payload == msg.payload,
        msg.len <= 32 ==> kernel_message(msg, current).len == msg.len,
        msg.len > 32 ==> kernel_message(msg, current).len == 32,
{
}

/// What a service is told of a refusal.
pub proof fn law_error_codes(e: ipc::Error)
    ensures
        e == ipc::Error::InvalidChannel ==> error_code(e) == -2,
        e == ipc::Error::Full ==> error_code(e) == -3,
        e == ipc::Error::NoCapacity ==> error_code(e) == -4,
{
}

} // verus!
