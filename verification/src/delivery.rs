//! Sending and receiving: what happens to the tasks and to user memory when
//! messages move.
use vstd::prelude::*;

use crate::abi::Message;
use crate::wire;
use crate::wire::UserData;
use crate::mem;
use crate::bytes;
use crate::addrspace;
use crate::context;
use crate::context::{Task, MAX_TASKS};
use crate::ipc;
use crate::ipc::{Chan, Error, IpcView, Queued, CHANNEL_CAP};
use crate::kernel;
use crate::kernel::Kernel;
use crate::metrics;

verus! {

/// How long a message sent at `sent_ns` had to wait.
pub open spec fn waited(now_ns: u64, sent_ns: u64) -> u64 {
    if now_ns >= sent_ns {
        (now_ns - sent_ns) as u64
    } else {
        0
    }
}

/// Task `w` is a user task waiting in a receive.
pub open spec fn in_user_wait(tasks: Seq<Task>, w: usize) -> bool {
    w < MAX_TASKS && tasks[w as int].wait is Some
}

/// What a send that was accepted changes, and what it returns.
pub open spec fn sent(
    k0: Kernel,
    k1: Kernel,
    sender: u16,
    id: u32,
    msg: Message,
    now_ns: u64,
    r: Option<usize>,
) -> bool {
    let v = k0.ipc@.enqueued(sender, id, msg, now_ns);
    &&& k1.same_tables(k0)
    &&& k1.sched.same_but_tasks(k0.sched)
    &&& match k0.ipc@.chans[id as int].waiter {
        None => {
            &&& r is None
            &&& k1.ipc@ == v
            &&& k1.metrics@ == k0.metrics@
            &&& k1.sched.tasks@ == k0.sched.tasks@
            &&& k1.mem@ == k0.mem@
        },
        Some(w) => if in_user_wait(k0.sched.tasks@, w) {
            let oldest = v.chans[id as int].queue[0];
            &&& r == Some(w)
            &&& k1.ipc@ == v.with_chan(id, v.chans[id as int].popped())
            &&& k1.metrics@ == k0.metrics@.unblocked(w as int, now_ns).delivered(
                waited(now_ns, oldest.sent_ns),
            )
            &&& k1.sched.tasks@ == context::woken(k0.sched.tasks@, w as int)
            &&& context::delivered(k0.sched.tasks@[w as int], k0.mem@, k1.mem@, oldest.msg)
        } else {
            &&& r is None
            &&& k1.ipc@ == v
            &&& k1.metrics@ == k0.metrics@.unblocked(w as int, now_ns)
            &&& k1.sched.tasks@ == context::unblocked(k0.sched.tasks@, w)
            &&& k1.mem@ == k0.mem@
        },
    }
}

/// Every task still has its space.
pub open spec fn same_spaces(t0: Seq<Task>, t1: Seq<Task>) -> bool {
    t1.len() == t0.len() && forall|i: int|
        0 <= i < t0.len() ==> (#[trigger] t1[i]).space == t0[i].space
}

/// Nothing changed.
pub open spec fn untouched(k0: Kernel, k1: Kernel) -> bool {
    &&& k1.same_tables(k0)
    &&& k1.sched == k0.sched
    &&& k1.mem@ == k0.mem@
    &&& k1.ipc@ == k0.ipc@
    &&& k1.metrics@ == k0.metrics@
}

/// Why a send is refused.
pub open spec fn send_error(v: IpcView, id: u32) -> Option<Error> {
    if !v.live(id) {
        Some(Error::InvalidChannel)
    } else if v.chans[id as int].queue.len() >= CHANNEL_CAP {
        Some(Error::Full)
    } else {
        None
    }
}

/// Makes a blocked task ready.
pub fn unblock_task(k: &mut Kernel, task_id: usize)
    requires
        old(k).wf(),
    ensures
        final(k).wf(),
        final(k).same_tables(*old(k)),
        final(k).mem == old(k).mem,
        final(k).ipc == old(k).ipc,
        final(k).metrics == old(k).metrics,
        final(k).sched.same_but_tasks(old(k).sched),
        final(k).sched.tasks@ == context::unblocked(old(k).sched.tasks@, task_id),
{
    context::unblock(&mut k.sched, task_id);
    proof {
        let t0 = old(k).sched.tasks@;
        let t1 = k.sched.tasks@;
        assert forall|i: int|
            0 <= i < t0.len() && (#[trigger] t1[i]).kernel_stack_pages > 0 implies kernel::sp_ok(
            t1[i].sp,
            t1[i].kernel_stack_bottom,
        ) by {
            assert(kernel::task_mem_ok(t0[i], k.mem@));
        }
        kernel::lemma_tasks_kept(k.mem@, k.frames, k.map, t0, t1, k.sched.pending@);
    }
}

/// Takes the oldest message of a live channel, recording how long it waited.
fn dequeue(k: &mut Kernel, id: u32, now_ns: u64) -> (r: Option<Message>)
    requires
        old(k).wf(),
        old(k).ipc@.live(id),
    ensures
        final(k).wf(),
        final(k).same_tables(*old(k)),
        final(k).sched == old(k).sched,
        final(k).mem == old(k).mem,
        ({
            let queue = old(k).ipc@.chans[id as int].queue;
            match r {
                Some(msg) => {
                    &&& queue.len() > 0
                    &&& msg == queue[0].msg
                    &&& final(k).ipc@ == old(k).ipc@.with_chan(
                        id,
                        old(k).ipc@.chans[id as int].popped(),
                    )
                    &&& final(k).metrics@ == old(k).metrics@.delivered(
                        waited(now_ns, queue[0].sent_ns),
                    )
                },
                None => queue.len() == 0 && final(k).ipc@ == old(k).ipc@ && final(k).metrics
                    == old(k).metrics,
            }
        }),
{
    match ipc::take(&mut k.ipc, id) {
        None => None,
        Some(q) => {
            metrics::record_ipc_delivery_ns(&mut k.metrics, now_ns.saturating_sub(q.sent_ns));
            Some(q.msg)
        },
    }
}

/// Sends a message as `sender`. A user task that waits for it gets the oldest
/// message straight into its buffer and is named in the result.
fn send_from(k: &mut Kernel, sender: u16, channel_id: u32, msg: &Message, now_ns: u64) -> (r:
    Result<Option<usize>, Error>)
    requires
        old(k).wf(),
    ensures
        final(k).wf(),
        match r {
            Ok(woken) => send_error(old(k).ipc@, channel_id) is None && sent(
                *old(k),
                *final(k),
                sender,
                channel_id,
                *msg,
                now_ns,
                woken,
            ),
            Err(e) => send_error(old(k).ipc@, channel_id) == Some(e) && untouched(
                *old(k),
                *final(k),
            ),
        },
        kernel::translations_kept(old(k).sched.tasks@, old(k).mem@, final(k).mem@),
{
    let waiter: Option<usize> = match ipc::enqueue(&mut k.ipc, sender, channel_id, msg, now_ns) {
        Err(e) => {
            return Err(e);
        },
        Ok(waiter) => waiter,
    };
    let ghost v = k.ipc@;
    proof {
        ipc::law_bounds(old(k).ipc);
    }
    let task_id: usize = match waiter {
        None => {
            return Ok(None);
        },
        Some(w) => w,
    };
    metrics::note_task_unblocked(&mut k.metrics, task_id, now_ns);
    if context::has_user_wait(&k.sched, task_id) {
        match dequeue(k, channel_id, now_ns) {
            Some(message) => {
                context::complete_user_recv(k, task_id, &message);
                return Ok(Some(task_id));
            },
            None => {},
        }
    }
    unblock_task(k, task_id);
    Ok(None)
}

/// Sends a message on a channel as the current task, without blocking.
///
/// If a task is blocked waiting to receive, it is woken. For a user task
/// waiting in a receive the message is delivered straight into its buffer and
/// the task is returned: it is ready, and the caller may run it next.
pub fn send(k: &mut Kernel, channel_id: u32, msg: &Message, now_ns: u64) -> (r: Result<
    Option<usize>,
    Error,
>)
    requires
        old(k).wf(),
    ensures
        final(k).wf(),
        match r {
            Ok(woken) => send_error(old(k).ipc@, channel_id) is None && sent(
                *old(k),
                *final(k),
                old(k).sched.current as u16,
                channel_id,
                *msg,
                now_ns,
                woken,
            ),
            Err(e) => send_error(old(k).ipc@, channel_id) == Some(e) && untouched(
                *old(k),
                *final(k),
            ),
        },
        kernel::translations_kept(old(k).sched.tasks@, old(k).mem@, final(k).mem@),
{
    let sender: u16 = context::current_task(&k.sched) as u16;
    send_from(k, sender, channel_id, msg, now_ns)
}

/// A kernel notice for channel `id` has to wait in the backlog: the channel is
/// full, or earlier notices wait already.
pub open spec fn must_wait(v: IpcView, id: u32) -> bool {
    v.chans[id as int].queue.len() >= CHANNEL_CAP || ipc::pending(v.backlog, id)
}

/// Sends as the kernel itself (sender 0), for example an exit notice. A kernel
/// notice is never lost to a full queue: it waits in the kernel's backlog, and
/// moves into the channel, in order, as the receiver makes room.
pub fn send_as_kernel(k: &mut Kernel, channel_id: u32, msg: &Message, now_ns: u64) -> (r: Result<
    Option<usize>,
    Error,
>)
    requires
        old(k).wf(),
    ensures
        final(k).wf(),
        notice_sent(*old(k), *final(k), channel_id, *msg, now_ns, r),
{
    if !ipc::is_live(&k.ipc, channel_id) {
        return Err(Error::InvalidChannel);
    }
    if ipc::is_full(&k.ipc, channel_id) || ipc::has_notice(&k.ipc, channel_id) {
        let mut stamped: Message = *msg;
        stamped.sender = 0;
        if ipc::keep_notice(&mut k.ipc, channel_id, stamped) {
            return Ok(None);
        }
        return Err(Error::Full);
    }
    send_from(k, 0, channel_id, msg, now_ns)
}

/// What sending a kernel notice changes, and what it returns.
pub open spec fn notice_sent(
    k0: Kernel,
    k1: Kernel,
    id: u32,
    msg: Message,
    now_ns: u64,
    r: Result<Option<usize>, Error>,
) -> bool {
    if !k0.ipc@.live(id) {
        r == Err::<Option<usize>, Error>(Error::InvalidChannel) && untouched(k0, k1)
    } else if !must_wait(k0.ipc@, id) {
        r matches Ok(woken) && sent(k0, k1, 0, id, msg, now_ns, woken)
    } else if k0.ipc@.backlog.len() < ipc::BACKLOG_CAP {
        &&& r == Ok::<Option<usize>, Error>(None)
        &&& k1.same_tables(k0)
        &&& k1.sched == k0.sched
        &&& k1.mem@ == k0.mem@
        &&& k1.metrics@ == k0.metrics@
        &&& k1.ipc@ == (IpcView {
            backlog: k0.ipc@.backlog.push((id, ipc::stamp(msg, 0))),
            ..k0.ipc@
        })
    } else {
        r == Err::<Option<usize>, Error>(Error::Full) && untouched(k0, k1)
    }
}

/// The first waiting notice of channel `id` taken out of the backlog.
pub open spec fn notice_taken(v: IpcView, id: u32) -> IpcView {
    IpcView { backlog: v.backlog.remove(ipc::first_for(v.backlog, id)), ..v }
}

/// A notice for channel `id` waits and there is room for it.
pub open spec fn can_refill(v: IpcView, id: u32) -> bool {
    v.live(id) && ipc::pending(v.backlog, id) && v.chans[id as int].queue.len() < CHANNEL_CAP
}

/// The channels after waiting notices have moved into channel `id`, oldest
/// first, as far as there is room.
pub open spec fn refilled(v: IpcView, id: u32, now_ns: u64) -> IpcView
    decreases v.backlog.len(),
{
    let i = ipc::first_for(v.backlog, id);
    if can_refill(v, id) && 0 <= i < v.backlog.len() {
        refilled(notice_taken(v, id).enqueued(0, id, v.backlog[i].1, now_ns), id, now_ns)
    } else {
        v
    }
}

/// Only the channels changed, to `v`.
pub open spec fn only_ipc(k0: Kernel, k1: Kernel, v: IpcView) -> bool {
    &&& k1.same_tables(k0)
    &&& k1.sched.same_but_tasks(k0.sched)
    &&& k1.sched.tasks@ == k0.sched.tasks@
    &&& k1.mem@ == k0.mem@
    &&& k1.metrics@ == k0.metrics@
    &&& k1.ipc@ == v
}

/// What moving waiting notices into channel `id` changes. Where a task waits
/// on the channel, the first notice wakes it, as any message does.
pub open spec fn refill_done(k0: Kernel, k1: Kernel, id: u32, now_ns: u64) -> bool {
    let i = ipc::first_for(k0.ipc@.backlog, id);
    if !can_refill(k0.ipc@, id) {
        only_ipc(k0, k1, k0.ipc@)
    } else if k0.ipc@.chans[id as int].waiter is None {
        only_ipc(k0, k1, refilled(k0.ipc@, id, now_ns))
    } else {
        exists|ka: Kernel, kb: Kernel, woken: Option<usize>|
            {
                &&& only_ipc(k0, ka, notice_taken(k0.ipc@, id))
                &&& #[trigger] sent(ka, kb, 0, id, k0.ipc@.backlog[i].1, now_ns, woken)
                &&& #[trigger] only_ipc(kb, k1, refilled(kb.ipc@, id, now_ns))
            }
    }
}

/// Where the first waiting notice of a channel stands.
pub proof fn lemma_first_pending(b: Seq<(u32, Message)>, id: u32)
    ensures
        ipc::pending(b, id) ==> 0 <= ipc::first_for(b, id) < b.len() && b[ipc::first_for(b, id)].0
            == id,
        !ipc::pending(b, id) ==> ipc::first_for(b, id) == b.len(),
    decreases b.len(),
{
    if b.len() > 0 {
        let d = b.drop_first();
        lemma_first_pending(d, id);
        if ipc::pending(b, id) && b[0].0 != id {
            let i = choose|i: int| 0 <= i < b.len() && (#[trigger] b[i]).0 == id;
            assert(d[i - 1] == b[i]);
        }
        if ipc::pending(d, id) {
            let i = choose|i: int| 0 <= i < d.len() && (#[trigger] d[i]).0 == id;
            assert(b[i + 1] == d[i]);
        }
        if b[0].0 == id {
            assert(ipc::pending(b, id));
        }
    }
}

/// The receiver made room: moves waiting kernel notices into the channel.
fn refill_from_backlog(k: &mut Kernel, channel_id: u32, now_ns: u64)
    requires
        old(k).wf(),
    ensures
        final(k).wf(),
        refill_done(*old(k), *final(k), channel_id, now_ns),
        kernel::translations_kept(old(k).sched.tasks@, old(k).mem@, final(k).mem@),
        same_spaces(old(k).sched.tasks@, final(k).sched.tasks@),
        final(k).same_tables(*old(k)),
        final(k).sched.same_but_tasks(old(k).sched),
{
    let ghost k0 = *old(k);
    if !ipc::is_live(&k.ipc, channel_id) || ipc::is_full(&k.ipc, channel_id) || !ipc::has_notice(
        &k.ipc,
        channel_id,
    ) {
        return ;
    }
    proof {
        lemma_first_pending(k.ipc@.backlog, channel_id);
        ipc::law_bounds(k.ipc);
    }
    let message: Message = match ipc::take_notice(&mut k.ipc, channel_id) {
        None => {
            return ;
        },
        Some(message) => message,
    };
    let ghost ka = *k;
    let r: Result<Option<usize>, Error> = send_from(k, 0, channel_id, &message, now_ns);
    let ghost kb = *k;
    let ghost i = ipc::first_for(k0.ipc@.backlog, channel_id);
    assert(r is Ok);
    assert(kb.ipc@.chans[channel_id as int].waiter is None);
    refill_quietly(k, channel_id, now_ns);
    proof {
        assert(sent(ka, kb, 0, channel_id, k0.ipc@.backlog[i].1, now_ns, r->Ok_0));
        assert(only_ipc(kb, *k, refilled(kb.ipc@, channel_id, now_ns)));
        assert(only_ipc(k0, ka, notice_taken(k0.ipc@, channel_id)));
        if k0.ipc@.chans[channel_id as int].waiter is None {
            assert(kb.ipc@ == notice_taken(k0.ipc@, channel_id).enqueued(
                0,
                channel_id,
                k0.ipc@.backlog[i].1,
                now_ns,
            ));
        }
    }
}

/// Moves waiting notices into a channel on which nobody waits.
fn refill_quietly(k: &mut Kernel, channel_id: u32, now_ns: u64)
    requires
        old(k).wf(),
        old(k).ipc@.live(channel_id),
        old(k).ipc@.chans[channel_id as int].waiter is None,
    ensures
        final(k).wf(),
        only_ipc(*old(k), *final(k), refilled(old(k).ipc@, channel_id, now_ns)),
{
    let ghost k0 = *old(k);
    while !ipc::is_full(&k.ipc, channel_id) && ipc::has_notice(&k.ipc, channel_id)
        invariant
            k.wf(),
            k.ipc@.live(channel_id),
            k.ipc@.chans[channel_id as int].waiter is None,
            only_ipc(k0, *k, k.ipc@),
            refilled(k.ipc@, channel_id, now_ns) == refilled(k0.ipc@, channel_id, now_ns),
        decreases k.ipc@.backlog.len(),
    {
        proof {
            lemma_first_pending(k.ipc@.backlog, channel_id);
            ipc::law_bounds(k.ipc);
        }
        let ghost v = k.ipc@;
        let ghost i = ipc::first_for(v.backlog, channel_id);
        match ipc::take_notice(&mut k.ipc, channel_id) {
            None => {},
            Some(message) => {
                let r: Result<Option<usize>, Error> = send_from(
                    k,
                    0,
                    channel_id,
                    &message,
                    now_ns,
                );
                assert(r is Ok);
                assert(k.ipc@ == notice_taken(v, channel_id).enqueued(
                    0,
                    channel_id,
                    v.backlog[i].1,
                    now_ns,
                ));
            },
        }
    }
}

/// Channel `id` with `task` noted as the last to receive.
pub open spec fn consumed_by(v: IpcView, id: u32, task: usize) -> IpcView {
    v.with_chan(id, (Chan { consumer: task as u16, ..v.chans[id as int] }))
}

/// The oldest message of channel `id` taken out by `task`.
pub open spec fn received(v: IpcView, id: u32, task: usize) -> IpcView {
    let w = consumed_by(v, id, task);
    w.with_chan(id, w.chans[id as int].popped())
}

/// What taking a message out of channel `id` changes, before any notices move up.
pub open spec fn took(k0: Kernel, k1: Kernel, id: u32, now_ns: u64) -> bool {
    let q = k0.ipc@.chans[id as int].queue;
    &&& k1.same_tables(k0)
    &&& k1.sched == k0.sched
    &&& k1.mem@ == k0.mem@
    &&& k1.ipc@ == received(k0.ipc@, id, k0.sched.current)
    &&& k1.metrics@ == k0.metrics@.delivered(waited(now_ns, q[0].sent_ns))
}

/// What receiving the oldest message of channel `id` changes: it is taken out,
/// and waiting kernel notices move up into the room that it leaves.
pub open spec fn taken(k0: Kernel, k1: Kernel, id: u32, now_ns: u64) -> bool {
    exists|km: Kernel| #[trigger] took(k0, km, id, now_ns) && refill_done(km, k1, id, now_ns)
}

/// The channels after the current task found channel `id` empty.
pub open spec fn found_empty(k0: Kernel, k1: Kernel, id: u32) -> bool {
    &&& k1.same_tables(k0)
    &&& k1.sched == k0.sched
    &&& k1.mem@ == k0.mem@
    &&& k1.ipc@ == consumed_by(k0.ipc@, id, k0.sched.current)
    &&& k1.metrics@ == k0.metrics@
}

/// Takes a message without blocking, and lets waiting kernel notices move up.
pub fn try_dequeue(k: &mut Kernel, channel_id: u32, now_ns: u64) -> (r: Result<
    Option<Message>,
    Error,
>)
    requires
        old(k).wf(),
    ensures
        final(k).wf(),
        match r {
            Err(e) => e == Error::InvalidChannel && !old(k).ipc@.live(channel_id) && untouched(
                *old(k),
                *final(k),
            ),
            Ok(None) => {
                &&& old(k).ipc@.live(channel_id)
                &&& old(k).ipc@.chans[channel_id as int].queue.len() == 0
                &&& found_empty(*old(k), *final(k), channel_id)
            },
            Ok(Some(msg)) => {
                &&& old(k).ipc@.live(channel_id)
                &&& old(k).ipc@.chans[channel_id as int].queue.len() > 0
                &&& msg == old(k).ipc@.chans[channel_id as int].queue[0].msg
                &&& taken(*old(k), *final(k), channel_id, now_ns)
            },
        },
        kernel::translations_kept(old(k).sched.tasks@, old(k).mem@, final(k).mem@),
        same_spaces(old(k).sched.tasks@, final(k).sched.tasks@),
        final(k).same_tables(*old(k)),
        final(k).sched.same_but_tasks(old(k).sched),
{
    if !ipc::is_live(&k.ipc, channel_id) {
        return Err(Error::InvalidChannel);
    }
    proof {
        ipc::law_bounds(k.ipc);
    }
    let cur: usize = context::current_task(&k.sched);
    ipc::learn_consumer(&mut k.ipc, channel_id, cur);
    let r: Option<Message> = dequeue(k, channel_id, now_ns);
    if r.is_some() {
        let ghost km = *k;
        assert(took(*old(k), km, channel_id, now_ns));
        refill_from_backlog(k, channel_id, now_ns);
    }
    Ok(r)
}

/// Tries to receive without blocking, and lets waiting kernel notices move up.
/// `None` also stands for a channel that does not exist.
pub fn try_recv(k: &mut Kernel, channel_id: u32, now_ns: u64) -> (r: Option<Message>)
    requires
        old(k).wf(),
    ensures
        final(k).wf(),
        match r {
            Some(msg) => {
                &&& old(k).ipc@.live(channel_id)
                &&& old(k).ipc@.chans[channel_id as int].queue.len() > 0
                &&& msg == old(k).ipc@.chans[channel_id as int].queue[0].msg
                &&& taken(*old(k), *final(k), channel_id, now_ns)
            },
            None => if old(k).ipc@.live(channel_id) {
                &&& old(k).ipc@.chans[channel_id as int].queue.len() == 0
                &&& found_empty(*old(k), *final(k), channel_id)
            } else {
                untouched(*old(k), *final(k))
            },
        },
{
    match try_dequeue(k, channel_id, now_ns) {
        Err(_) => None,
        Ok(r) => r,
    }
}

/// The current task waits on the channel, blocked.
pub open spec fn now_waiting(k0: Kernel, k1: Kernel, id: u32) -> bool {
    let cur = k0.sched.current;
    let v = consumed_by(k0.ipc@, id, cur);
    &&& k1.same_tables(k0)
    &&& k1.mem@ == k0.mem@
    &&& k1.metrics@ == k0.metrics@
    &&& k1.ipc@ == v.with_chan(id, (Chan { waiter: Some(cur), ..v.chans[id as int] }))
    &&& k1.sched.same_but_tasks(k0.sched)
    &&& k1.sched.tasks@ == k0.sched.tasks@.update(
        cur as int,
        Task { state: context::State::Blocked, ..k0.sched.tasks@[cur as int] },
    )
}

/// Receives a message from a channel for a kernel task, and lets waiting kernel
/// notices move up. With nothing there the task is blocked as the channel's
/// waiter and `None` is returned: the caller sleeps, and asks again when it is
/// woken.
pub fn recv(k: &mut Kernel, channel_id: u32, now_ns: u64) -> (r: Result<Option<Message>, Error>)
    requires
        old(k).wf(),
        context::is_live(old(k).sched.tasks@[old(k).sched.current as int]),
    ensures
        final(k).wf(),
        match r {
            Err(e) => e == Error::InvalidChannel && !old(k).ipc@.live(channel_id) && untouched(
                *old(k),
                *final(k),
            ),
            Ok(Some(msg)) => {
                &&& old(k).ipc@.live(channel_id)
                &&& old(k).ipc@.chans[channel_id as int].queue.len() > 0
                &&& msg == old(k).ipc@.chans[channel_id as int].queue[0].msg
                &&& taken(*old(k), *final(k), channel_id, now_ns)
            },
            Ok(None) => {
                &&& old(k).ipc@.live(channel_id)
                &&& old(k).ipc@.chans[channel_id as int].queue.len() == 0
                &&& now_waiting(*old(k), *final(k), channel_id)
            },
        },
{
    match try_dequeue(k, channel_id, now_ns) {
        Err(e) => Err(e),
        Ok(Some(msg)) => Ok(Some(msg)),
        Ok(None) => {
            proof {
                ipc::law_bounds(old(k).ipc);
            }
            let cur: usize = context::current_task(&k.sched);
            match ipc::register_waiter(&mut k.ipc, channel_id, cur) {
                Err(e) => Err(e),
                Ok(()) => {
                    block_current_task(k);
                    Ok(None)
                },
            }
        },
    }
}

/// Blocks the current task.
pub fn block_current_task(k: &mut Kernel)
    requires
        old(k).wf(),
        context::is_live(old(k).sched.tasks@[old(k).sched.current as int]),
    ensures
        final(k).wf(),
        final(k).same_tables(*old(k)),
        final(k).mem == old(k).mem,
        final(k).ipc == old(k).ipc,
        final(k).metrics == old(k).metrics,
        final(k).sched.same_but_tasks(old(k).sched),
        final(k).sched.tasks@ == old(k).sched.tasks@.update(
            old(k).sched.current as int,
            Task {
                state: context::State::Blocked,
                ..old(k).sched.tasks@[old(k).sched.current as int]
            },
        ),
{
    context::block_current(&mut k.sched);
    proof {
        let t0 = old(k).sched.tasks@;
        let t1 = k.sched.tasks@;
        assert forall|i: int|
            0 <= i < t0.len() && (#[trigger] t1[i]).kernel_stack_pages > 0 implies kernel::sp_ok(
            t1[i].sp,
            t1[i].kernel_stack_bottom,
        ) by {
            assert(kernel::task_mem_ok(t0[i], k.mem@));
        }
        kernel::lemma_tasks_kept(k.mem@, k.frames, k.map, t0, t1, k.sched.pending@);
    }
}

/// What will be received from channel `id`, in order: the queued messages, and
/// behind them the kernel notices that wait for room.
pub open spec fn stream(v: IpcView, id: u32) -> Seq<Message> {
    v.chans[id as int].queue.map_values(|q: Queued| q.msg) + ipc::notices(v.backlog, id)
}

/// A notice that has to wait is the last thing its channel will give.
pub proof fn law_notice_joins_stream(v: IpcView, id: u32, msg: Message)
    ensures
        stream(
            (IpcView { backlog: v.backlog.push((id, msg)), ..v }),
            id,
        ) == stream(v, id).push(msg),
{
    let b = v.backlog.push((id, msg));
    assert(b.drop_last() =~= v.backlog);
    assert(v.chans[id as int].queue.map_values(|q: Queued| q.msg) + ipc::notices(v.backlog, id).push(
        msg,
    ) =~= stream(v, id).push(msg));
}

proof fn lemma_notices_remove(b: Seq<(u32, Message)>, id: u32)
    requires
        ipc::pending(b, id),
    ensures
        ipc::notices(b, id).len() > 0,
        ipc::notices(b, id)[0] == b[ipc::first_for(b, id)].1,
        ipc::notices(b.remove(ipc::first_for(b, id)), id) == ipc::notices(b, id).drop_first(),
    decreases b.len(),
{
    lemma_first_pending(b, id);
    let i = ipc::first_for(b, id);
    let front = b.drop_last();
    lemma_first_pending(front, id);
    lemma_notices_empty(front, id);
    if i == b.len() - 1 {
        assert(b.remove(i) =~= front);
        if ipc::pending(front, id) {
            lemma_first_unique(b, id, ipc::first_for(front, id));
        }
        assert(ipc::notices(b, id) =~= seq![b.last().1]);
        assert(ipc::notices(b, id).drop_first() =~= Seq::<Message>::empty());
    } else {
        assert(front[i] == b[i]);
        assert(ipc::pending(front, id));
        lemma_first_unique(b, id, ipc::first_for(front, id));
        lemma_notices_remove(front, id);
        assert(b.remove(i).drop_last() =~= front.remove(i));
        assert(b.remove(i).last() == b.last());
        if b.last().0 == id {
            assert(ipc::notices(b, id).drop_first() =~= ipc::notices(front, id).drop_first().push(
                b.last().1,
            ));
        }
    }
}

proof fn lemma_notices_empty(b: Seq<(u32, Message)>, id: u32)
    ensures
        !ipc::pending(b, id) ==> ipc::notices(b, id) == Seq::<Message>::empty(),
    decreases b.len(),
{
    if b.len() > 0 && !ipc::pending(b, id) {
        let d = b.drop_last();
        if ipc::pending(d, id) {
            let i = choose|i: int| 0 <= i < d.len() && (#[trigger] d[i]).0 == id;
            assert(b[i] == d[i]);
        }
        assert(b[b.len() - 1].0 != id);
        lemma_notices_empty(d, id);
    }
}

/// The first index is unique: an index that is first in a front part is first.
proof fn lemma_first_unique(b: Seq<(u32, Message)>, id: u32, i: int)
    requires
        b.len() > 0,
        ipc::pending(b.drop_last(), id),
        i == ipc::first_for(b.drop_last(), id),
    ensures
        ipc::first_for(b, id) == i,
    decreases b.len(),
{
    let front = b.drop_last();
    lemma_first_pending(front, id);
    if front[0].0 == id {
        assert(b[0] == front[0]);
    } else {
        let c = b.drop_first();
        assert(c.drop_last() =~= front.drop_first());
        let j = choose|j: int| 0 <= j < front.len() && (#[trigger] front[j]).0 == id;
        assert(front.drop_first()[j - 1] == front[j]);
        assert(ipc::pending(c.drop_last(), id));
        lemma_first_unique(c, id, i - 1);
        assert(b[0] == front[0]);
    }
}

/// Notices that move from the backlog into the channel keep their place: what
/// the channel will give, and in what order, does not change.
pub proof fn law_refill_keeps_stream(v: IpcView, id: u32, now_ns: u64)
    requires
        v.live(id),
        v.chans.len() == ipc::MAX_CHANNELS,
        forall|i: int|
            0 <= i < v.backlog.len() ==> (#[trigger] v.backlog[i]).1.sender == 0,
    ensures
        stream(refilled(v, id, now_ns), id) == stream(v, id),
        !can_refill(refilled(v, id, now_ns), id),
    decreases v.backlog.len(),
{
    lemma_first_pending(v.backlog, id);
    let i = ipc::first_for(v.backlog, id);
    if can_refill(v, id) && 0 <= i < v.backlog.len() {
        let w = notice_taken(v, id).enqueued(0, id, v.backlog[i].1, now_ns);
        lemma_notices_remove(v.backlog, id);
        let msg = v.backlog[i].1;
        assert(ipc::stamp(msg, 0) == msg);
        let f = |q: Queued| q.msg;
        let q0 = v.chans[id as int].queue;
        let q1 = w.chans[id as int].queue;
        assert(q1 == q0.push(Queued { msg, sent_ns: now_ns }));
        assert(q1.map_values(f) =~= q0.map_values(f).push(msg));
        assert(stream(w, id) =~= stream(v, id));
        assert forall|j: int| 0 <= j < w.backlog.len() implies (#[trigger] w.backlog[j]).1.sender
            == 0 by {
            if j < i {
                assert(w.backlog[j] == v.backlog[j]);
            } else {
                assert(w.backlog[j] == v.backlog[j + 1]);
            }
        }
        law_refill_keeps_stream(w, id, now_ns);
    }
}

/// Receiving takes exactly the first thing that the channel would give.
pub proof fn law_receive_takes_first(v: IpcView, id: u32, task: usize)
    requires
        v.live(id),
        v.chans.len() == ipc::MAX_CHANNELS,
        v.chans[id as int].queue.len() > 0,
    ensures
        stream(v, id)[0] == v.chans[id as int].queue[0].msg,
        stream(received(v, id, task), id) == stream(v, id).drop_first(),
{
    let f = |q: Queued| q.msg;
    let q0 = v.chans[id as int].queue;
    assert(received(v, id, task).chans[id as int].queue == q0.drop_first());
    assert(q0.drop_first().map_values(f) =~= q0.map_values(f).drop_first());
    assert(stream(received(v, id, task), id) =~= stream(v, id).drop_first());
}

/// A message that is sent, when nobody waits and no notice does, is received
/// after everything that was there before, with its sender stamped by the kernel.
pub proof fn law_sent_joins_stream(v: IpcView, sender: u16, id: u32, msg: Message, now_ns: u64)
    requires
        v.live(id),
        v.chans.len() == ipc::MAX_CHANNELS,
        !ipc::pending(v.backlog, id),
    ensures
        stream(v.enqueued(sender, id, msg, now_ns), id) == stream(v, id).push(
            ipc::stamp(msg, sender),
        ),
{
    lemma_notices_empty(v.backlog, id);
    let f = |q: Queued| q.msg;
    let q0 = v.chans[id as int].queue;
    let q1 = v.enqueued(sender, id, msg, now_ns).chans[id as int].queue;
    assert(q1.map_values(f) =~= q0.map_values(f).push(ipc::stamp(msg, sender)));
    assert(stream(v.enqueued(sender, id, msg, now_ns), id) =~= stream(v, id).push(
        ipc::stamp(msg, sender),
    ));
}

/// A notice waits for channel `id` only while the channel is full.
pub open spec fn waits_for_room(v: IpcView, id: u32) -> bool {
    v.live(id) && ipc::pending(v.backlog, id) ==> v.chans[id as int].queue.len() >= CHANNEL_CAP
}

/// Every notice in the backlog waits for room.
pub open spec fn settled(v: IpcView) -> bool {
    forall|id: u32| #[trigger] waits_for_room(v, id)
}

/// Channels other than `id`, and the notices that wait for them, are the same.
spec fn same_elsewhere(v: IpcView, w: IpcView, id: u32) -> bool {
    &&& w.chans.len() == v.chans.len()
    &&& forall|other: u32|
        other != id && other < ipc::MAX_CHANNELS ==> {
            &&& #[trigger] w.chans[other as int] == v.chans[other as int]
            &&& ipc::pending(w.backlog, other) == ipc::pending(v.backlog, other)
        }
}

proof fn lemma_elsewhere_chain(u: IpcView, v: IpcView, w: IpcView, id: u32)
    requires
        same_elsewhere(u, v, id),
        same_elsewhere(v, w, id),
    ensures
        same_elsewhere(u, w, id),
{
    assert forall|other: u32| other != id && other < ipc::MAX_CHANNELS implies {
        &&& #[trigger] w.chans[other as int] == u.chans[other as int]
        &&& ipc::pending(w.backlog, other) == ipc::pending(u.backlog, other)
    } by {
        assert(w.chans[other as int] == v.chans[other as int]);
        assert(v.chans[other as int] == u.chans[other as int]);
    }
}

proof fn lemma_settled_elsewhere(v: IpcView, w: IpcView, id: u32)
    requires
        settled(v),
        same_elsewhere(v, w, id),
        waits_for_room(w, id),
    ensures
        settled(w),
{
    assert forall|other: u32| #[trigger] waits_for_room(w, other) by {
        assert(waits_for_room(v, other));
        if other != id && other < ipc::MAX_CHANNELS {
            assert(w.chans[other as int] == v.chans[other as int]);
        }
    }
}

/// Taking a notice of `id` out keeps those of every other channel.
proof fn lemma_taken_elsewhere(v: IpcView, id: u32)
    requires
        ipc::pending(v.backlog, id),
    ensures
        same_elsewhere(v, notice_taken(v, id), id),
{
    lemma_first_pending(v.backlog, id);
    let b = v.backlog;
    let i = ipc::first_for(b, id);
    let c = b.remove(i);
    assert forall|other: u32| other != id implies ipc::pending(c, other) == ipc::pending(
        b,
        other,
    ) by {
        if ipc::pending(b, other) {
            let j = choose|j: int| 0 <= j < b.len() && (#[trigger] b[j]).0 == other;
            if j < i {
                assert(c[j] == b[j]);
            } else {
                assert(c[j - 1] == b[j]);
            }
        }
        if ipc::pending(c, other) {
            let j = choose|j: int| 0 <= j < c.len() && (#[trigger] c[j]).0 == other;
            if j < i {
                assert(b[j] == c[j]);
            } else {
                assert(b[j + 1] == c[j]);
            }
        }
    }
}

proof fn lemma_refilled_elsewhere(v: IpcView, id: u32, now_ns: u64)
    requires
        v.live(id),
        v.chans.len() == ipc::MAX_CHANNELS,
    ensures
        same_elsewhere(v, refilled(v, id, now_ns), id),
        waits_for_room(refilled(v, id, now_ns), id),
    decreases v.backlog.len(),
{
    lemma_first_pending(v.backlog, id);
    let i = ipc::first_for(v.backlog, id);
    if can_refill(v, id) && 0 <= i < v.backlog.len() {
        lemma_taken_elsewhere(v, id);
        let t = notice_taken(v, id);
        let w = t.enqueued(0, id, v.backlog[i].1, now_ns);
        lemma_refilled_elsewhere(w, id, now_ns);
        assert(same_elsewhere(t, w, id));
        lemma_elsewhere_chain(v, t, w, id);
        lemma_elsewhere_chain(v, w, refilled(w, id, now_ns), id);
        assert(refilled(v, id, now_ns) == refilled(w, id, now_ns));
    }
}

/// Receiving moves every notice up that there is room for: after a message has
/// been taken, notices still wait only for full channels.
pub proof fn law_receiving_leaves_no_notice_behind(k0: Kernel, k1: Kernel, id: u32, now_ns: u64)
    requires
        k0.wf(),
        settled(k0.ipc@),
        k0.ipc@.live(id),
        k0.ipc@.chans[id as int].queue.len() > 0,
        taken(k0, k1, id, now_ns),
    ensures
        settled(k1.ipc@),
{
    ipc::law_bounds(k0.ipc);
    let km = choose|km: Kernel| #[trigger]
        took(k0, km, id, now_ns) && refill_done(km, k1, id, now_ns);
    let v = km.ipc@;
    assert(same_elsewhere(k0.ipc@, v, id));
    if can_refill(v, id) {
        lemma_refilled_elsewhere(v, id, now_ns);
        if v.chans[id as int].waiter is Some {
            let i = ipc::first_for(v.backlog, id);
            let (ka, kb, woken) = choose|ka: Kernel, kb: Kernel, woken: Option<usize>|
                {
                    &&& only_ipc(km, ka, notice_taken(v, id))
                    &&& #[trigger] sent(ka, kb, 0, id, v.backlog[i].1, now_ns, woken)
                    &&& #[trigger] only_ipc(kb, k1, refilled(kb.ipc@, id, now_ns))
                };
            lemma_taken_elsewhere(v, id);
            assert(same_elsewhere(ka.ipc@, kb.ipc@, id));
            lemma_refilled_elsewhere(kb.ipc@, id, now_ns);
            lemma_elsewhere_chain(v, ka.ipc@, kb.ipc@, id);
            lemma_elsewhere_chain(v, kb.ipc@, k1.ipc@, id);
        }
        lemma_elsewhere_chain(k0.ipc@, v, k1.ipc@, id);
    }
    lemma_settled_elsewhere(k0.ipc@, k1.ipc@, id);
}

/// Sending, too, leaves notices waiting only for full channels.
pub proof fn law_sending_leaves_no_notice_behind(
    k0: Kernel,
    k1: Kernel,
    sender: u16,
    id: u32,
    msg: Message,
    now_ns: u64,
    woken: Option<usize>,
)
    requires
        k0.wf(),
        settled(k0.ipc@),
        send_error(k0.ipc@, id) is None,
        sent(k0, k1, sender, id, msg, now_ns, woken),
    ensures
        settled(k1.ipc@),
{
    ipc::law_bounds(k0.ipc);
    assert(waits_for_room(k0.ipc@, id));
    lemma_settled_elsewhere(k0.ipc@, k1.ipc@, id);
}

/// A notice of the kernel goes into its channel, or waits because the channel is
/// full.
pub proof fn law_notices_wait_only_for_room(
    k0: Kernel,
    k1: Kernel,
    id: u32,
    msg: Message,
    now_ns: u64,
    r: Result<Option<usize>, Error>,
)
    requires
        k0.wf(),
        settled(k0.ipc@),
        notice_sent(k0, k1, id, msg, now_ns, r),
    ensures
        settled(k1.ipc@),
{
    ipc::law_bounds(k0.ipc);
    if k0.ipc@.live(id) {
        assert(waits_for_room(k0.ipc@, id));
        if !must_wait(k0.ipc@, id) {
            law_sending_leaves_no_notice_behind(k0, k1, 0, id, msg, now_ns, r->Ok_0);
        } else if k0.ipc@.backlog.len() < ipc::BACKLOG_CAP {
            let b = k0.ipc@.backlog;
            let c = k1.ipc@.backlog;
            assert forall|other: u32| other != id implies ipc::pending(c, other) == ipc::pending(
                b,
                other,
            ) by {
                if ipc::pending(b, other) {
                    let j = choose|j: int| 0 <= j < b.len() && (#[trigger] b[j]).0 == other;
                    assert(c[j] == b[j]);
                }
                if ipc::pending(c, other) {
                    let j = choose|j: int| 0 <= j < c.len() && (#[trigger] c[j]).0 == other;
                    assert(b[j] == c[j]);
                }
            }
            assert(same_elsewhere(k0.ipc@, k1.ipc@, id));
            lemma_settled_elsewhere(k0.ipc@, k1.ipc@, id);
        }
    }
}

/// A send is refused exactly where there is no such channel or its sixteen places
/// are taken, and then nothing changes.
pub proof fn law_send_is_refused_only_without_room(k: Kernel, id: u32)
    requires
        k.wf(),
    ensures
        send_error(k.ipc@, id) is None <==> k.ipc@.live(id) && k.ipc@.chans[id as int].queue.len()
            < 16,
        !k.ipc@.live(id) ==> send_error(k.ipc@, id) == Some(Error::InvalidChannel),
        k.ipc@.live(id) && k.ipc@.chans[id as int].queue.len() == 16 ==> send_error(k.ipc@, id)
            == Some(Error::Full),
{
    ipc::law_sizes(k.ipc, id);
}

/// A user task that waits for a message gets the one that is sent: it is in its
/// buffer, byte for byte, the task's call returns 0, and the task is ready and is
/// named to the sender, which may hand the processor to it. Nothing stays in the
/// channel.
pub proof fn law_waiting_user_task_gets_the_message(
    k0: Kernel,
    k1: Kernel,
    sender: u16,
    id: u32,
    msg: Message,
    now_ns: u64,
    r: Option<usize>,
    w: usize,
)
    requires
        k0.wf(),
        sent(k0, k1, sender, id, msg, now_ns, r),
        k0.ipc@.live(id),
        k0.ipc@.chans[id as int].queue.len() == 0,
        k0.ipc@.chans[id as int].waiter == Some(w),
        w < 16,
        k0.sched.tasks@[w as int].wait is Some,
        addrspace::holds::<Message>(
            k0.sched.tasks@[w as int].space.unwrap(),
            k0.mem@,
            k0.sched.tasks@[w as int].wait.unwrap().buf as int,
            true,
        ),
    ensures
        ({
            let t0 = k0.sched.tasks@[w as int];
            let t1 = k1.sched.tasks@[w as int];
            let s = t0.space.unwrap();
            &&& r == Some(w)
            &&& t1.state == context::State::Ready
            &&& t1.wait is None
            &&& t1.space == t0.space
            &&& s.user_bytes(k1.mem@, t0.wait.unwrap().buf as int, 40) == (Message {
                sender,
                ..msg
            }).spelled()
            &&& mem::word(k1.mem@, t0.sp as int) == 0
            &&& k1.ipc@.chans[id as int].queue.len() == 0
            &&& k1.ipc@.chans[id as int].waiter is None
        }),
{
    ipc::law_bounds(k0.ipc);
    let t = k0.sched.tasks@[w as int];
    let s = t.space.unwrap();
    let m = ipc::stamp(msg, sender);
    let buf = t.wait.unwrap().buf as int;
    assert(t.shape());
    assert(kernel::task_mem_ok(t, k0.mem@));
    let v = k0.ipc@.enqueued(sender, id, msg, now_ns);
    assert(v.chans[id as int].queue[0].msg == m);
    assert(context::delivery_code(t, k0.mem@) == 0);
    let word = bytes::le_bytes((0i64 as u64) as int, 8);
    let mid = choose|mid: Seq<u8>|
        s.user_written(k0.mem@, mid, buf, m.spelled()) && k1.mem@ == #[trigger] mem::splice(
            mid,
            t.sp as int,
            word,
        );
    wire::lemma_message_width(m);
    addrspace::law_user_copy_round_trip(s, k0.mem@, mid, buf, m.spelled());
    bytes::lemma_le_bytes_len(0, 8);
    mem::lemma_word_written(mid, t.sp as int, 0);
    // the stack is apart from the space, so the result lies outside the buffer
    assert forall|i: int| 0 <= i < 40 implies #[trigger] s.user_bytes(k1.mem@, buf, 40)[i]
        == m.spelled()[i] by {
        lemma_result_outside(k0, w as int, mid, k1.mem@, buf + i);
        assert(s.user_bytes(mid, buf, 40)[i] == m.spelled()[i]);
        assert(s.spec_translate(mid, buf + i, false) is Some);
    }
    assert(s.user_bytes(k1.mem@, buf, 40) =~= m.spelled());
}

/// A word on a task's kernel stack is no part of what the task reads.
proof fn lemma_result_outside(k: Kernel, w: int, mid: Seq<u8>, n: Seq<u8>, va: int)
    requires
        k.wf(),
        0 <= w < MAX_TASKS,
        k.sched.tasks@[w].space is Some,
        k.sched.tasks@[w].space.unwrap().wf(mid),
        mid.len() == k.mem@.len(),
        n == mem::splice(
            mid,
            k.sched.tasks@[w].sp as int,
            bytes::le_bytes((0i64 as u64) as int, 8),
        ),
        k.sched.tasks@[w].space.unwrap().spec_translate(mid, va, false) is Some,
    ensures
        k.sched.tasks@[w].space.unwrap().spec_translate(n, va, false)
            == k.sched.tasks@[w].space.unwrap().spec_translate(mid, va, false),
        n[k.sched.tasks@[w].space.unwrap().at(mid, va, false)]
            == mid[k.sched.tasks@[w].space.unwrap().at(mid, va, false)],
{
    let t = k.sched.tasks@[w];
    let s = t.space.unwrap();
    assert(t.shape());
    assert(kernel::task_mem_ok(t, k.mem@));
    bytes::lemma_le_bytes_len(0, 8);
    assert forall|f: int, a: int|
        s.roles().dom().contains(f) && f <= a < f + 4096 implies #[trigger] n[a] == mid[a]
        || !#[trigger] s.roles().dom().contains(f) by {
        if t.sp <= a < t.sp + 8 {
            context::lemma_stack_bytes_apart(k, w, a, w, f);
        }
    }
    assert forall|f: int| #[trigger] s.is_table(f) implies mem::same_page(mid, n, f) by {
        assert forall|a: int| f <= a < f + 4096 implies #[trigger] mid[a] == n[a] by {
            assert(s.roles().dom().contains(f));
            assert(n[a] == mid[a]);
        }
    }
    addrspace::lemma_tables_kept(s, mid, n);
    addrspace::lemma_translation_in_page(s, mid, va, false);
    let p = s.at(mid, va, false);
    let f = p - p % 4096;
    assert(s.roles().dom().contains(f));
    assert(n[p] == mid[p]);
}

/// A kernel task that waits for a message is ready once one is sent, and finds it
/// in the channel.
pub proof fn law_waiting_kernel_task_is_woken(
    k0: Kernel,
    k1: Kernel,
    sender: u16,
    id: u32,
    msg: Message,
    now_ns: u64,
    r: Option<usize>,
    w: usize,
)
    requires
        k0.wf(),
        sent(k0, k1, sender, id, msg, now_ns, r),
        k0.ipc@.live(id),
        k0.ipc@.chans[id as int].waiter == Some(w),
        w < 16,
        k0.sched.tasks@[w as int].wait is None,
        k0.sched.tasks@[w as int].state == context::State::Blocked,
    ensures
        k1.sched.tasks@[w as int].state == context::State::Ready,
        k1.ipc@.chans[id as int].queue.len() == k0.ipc@.chans[id as int].queue.len() + 1,
        k1.ipc@.chans[id as int].queue.last().msg == (Message { sender, ..msg }),
        k1.ipc@.chans[id as int].waiter is None,
{
    ipc::law_bounds(k0.ipc);
}

/// A receiver that finds nothing is blocked, and is the one that the next message
/// wakes.
pub proof fn law_empty_receive_waits(k0: Kernel, k1: Kernel, id: u32)
    requires
        k0.wf(),
        k0.ipc@.live(id),
        now_waiting(k0, k1, id),
    ensures
        k1.sched.tasks@[k0.sched.current as int].state == context::State::Blocked,
        k1.ipc@.chans[id as int].waiter == Some(k0.sched.current),
        k1.ipc@.chans[id as int].consumer == k0.sched.current,
        k1.ipc@.chans[id as int].queue == k0.ipc@.chans[id as int].queue,
{
    ipc::law_bounds(k0.ipc);
}

/// Receiving gives the oldest message and leaves the others in order, with the
/// receiver on record.
pub proof fn law_receive_gives_the_oldest(k0: Kernel, km: Kernel, id: u32, now_ns: u64, i: int)
    requires
        k0.wf(),
        k0.ipc@.live(id),
        k0.ipc@.chans[id as int].queue.len() > 0,
        took(k0, km, id, now_ns),
        0 <= i < km.ipc@.chans[id as int].queue.len(),
    ensures
        km.ipc@.chans[id as int].queue.len() == k0.ipc@.chans[id as int].queue.len() - 1,
        km.ipc@.chans[id as int].queue[i] == k0.ipc@.chans[id as int].queue[i + 1],
        km.ipc@.chans[id as int].consumer == k0.sched.current,
        km.metrics@.samples.ipc_delivery_ns.latest == if now_ns
            >= k0.ipc@.chans[id as int].queue[0].sent_ns {
            now_ns - k0.ipc@.chans[id as int].queue[0].sent_ns
        } else {
            0
        },
{
    ipc::law_bounds(k0.ipc);
}

/// A waiting task whose buffer cannot be written is woken all the same, and its call
/// returns -4.
pub proof fn law_bad_buffer_is_told(
    k0: Kernel,
    k1: Kernel,
    sender: u16,
    id: u32,
    msg: Message,
    now_ns: u64,
    r: Option<usize>,
    w: usize,
)
    requires
        k0.wf(),
        sent(k0, k1, sender, id, msg, now_ns, r),
        k0.ipc@.live(id),
        k0.ipc@.chans[id as int].waiter == Some(w),
        w < 16,
        k0.sched.tasks@[w as int].wait is Some,
        !addrspace::holds::<Message>(
            k0.sched.tasks@[w as int].space.unwrap(),
            k0.mem@,
            k0.sched.tasks@[w as int].wait.unwrap().buf as int,
            true,
        ),
    ensures
        r == Some(w),
        k1.sched.tasks@[w as int].state == context::State::Ready,
        k1.sched.tasks@[w as int].wait is None,
        mem::word(k1.mem@, k0.sched.tasks@[w as int].sp as int) == (-4) as i64 as u64,
{
    let t = k0.sched.tasks@[w as int];
    assert(t.shape());
    assert(kernel::task_mem_ok(t, k0.mem@));
    assert(context::delivery_code(t, k0.mem@) == -4);
    let code = (-4) as i64 as u64;
    mem::lemma_word_written(k0.mem@, t.sp as int, code);
}

} // verus!
