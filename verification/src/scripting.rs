//! What scripts may do: send and receive messages, and read the time.
use vstd::prelude::*;

use crate::abi::Message;
use crate::context;
use crate::delivery;
use crate::ipc;
use crate::kernel::Kernel;

verus! {

/// The message that a script's `send(channel, tag, data)` sends.
pub fn script_message(tag: i64, data: i64) -> (m: Message)
    ensures
        m.tag == tag as u32,
        m.sender == 0,
        m.len == 8,
        m.payload@ == seq![data as u64, 0u64, 0u64, 0u64],
{
    let payload: [u64; 4] = [data as u64, 0, 0, 0];
    assert(payload@ =~= seq![data as u64, 0u64, 0u64, 0u64]);
    Message { tag: tag as u32, sender: 0, len: 8, payload }
}

/// A script's `send`: 0, or -1 where the message could not be sent.
pub fn script_send(k: &mut Kernel, channel: i64, tag: i64, data: i64, now_ns: u64) -> (r: i64)
    requires
        old(k).wf(),
    ensures
        final(k).wf(),
        match delivery::send_error(old(k).ipc@, channel as u32) {
            Some(_) => r == -1 && delivery::untouched(*old(k), *final(k)),
            None => r == 0 && exists|msg: Message, woken: Option<usize>|
                {
                    &&& #[trigger] delivery::sent(
                        *old(k),
                        *final(k),
                        old(k).sched.current as u16,
                        channel as u32,
                        msg,
                        now_ns,
                        woken,
                    )
                    &&& msg.tag == tag as u32
                    &&& msg.len == 8
                    &&& msg.payload@ == seq![data as u64, 0u64, 0u64, 0u64]
                },
        },
{
    let msg: Message = script_message(tag, data);
    let r: Result<Option<usize>, ipc::Error> = delivery::send(
        k,
        channel as u32,
        &msg,
        now_ns,
    );
    match r {
        Ok(woken) => {
            assert(delivery::sent(
                *old(k),
                *k,
                old(k).sched.current as u16,
                channel as u32,
                msg,
                now_ns,
                woken,
            ));
            0
        },
        Err(_) => -1,
    }
}

/// A script's `recv` (the first word) or, with `tag`, its `recv_tag`: -1 where
/// there is no such channel. No result while the script has to wait.
pub fn script_recv(k: &mut Kernel, channel: i64, tag: bool, now_ns: u64) -> (r: Option<i64>)
    requires
        old(k).wf(),
        context::is_live(old(k).sched.tasks@[old(k).sched.current as int]),
    ensures
        final(k).wf(),
        ({
            let id = channel as u32;
            let v = old(k).ipc@;
            if !v.live(id) {
                r == Some(-1i64) && delivery::untouched(*old(k), *final(k))
            } else if v.chans[id as int].queue.len() > 0 {
                let msg = v.chans[id as int].queue[0].msg;
                &&& r == Some(
                    if tag {
                        msg.tag as i64
                    } else {
                        msg.payload[0] as i64
                    },
                )
                &&& delivery::taken(*old(k), *final(k), id, now_ns)
            } else {
                r is None && delivery::now_waiting(*old(k), *final(k), id)
            }
        }),
{
    match delivery::recv(k, channel as u32, now_ns) {
        Err(_) => Some(-1),
        Ok(None) => None,
        Ok(Some(msg)) => Some(if tag {
            msg.tag as i64
        } else {
            msg.payload[0] as i64
        }),
    }
}

/// A script's `time`, in microseconds.
pub fn script_time(now_ns: u64) -> (r: i64)
    ensures
        r == now_ns / 1000,
{
    (now_ns / 1000) as i64
}

} // verus!
