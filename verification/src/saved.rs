//! A caller's saved frame: a system call changes nothing in it but the result.
use vstd::prelude::*;

use crate::abi::sys;
use crate::abi::{Message, RIGHT_RECV, RIGHT_SEND};
use crate::addrspace;
use crate::bytes;
use crate::context;
use crate::context::{KERNEL_STACK_SIZE, MAX_TASKS};
use crate::delivery;
use crate::ipc;
use crate::kernel;
use crate::kernel::{Kernel, Owner};
use crate::mem;
use crate::spawn;
use crate::syscalls;
use crate::syscalls::{Effects, Outcome, Programs};
use crate::wire;
use crate::wire::UserData;

verus! {

/// The kernel stack of task `id` in `k` holds the same bytes in `n`.
pub open spec fn stack_same(k: Kernel, id: int, n: Seq<u8>) -> bool {
    let t = k.sched.tasks@[id];
    forall|a: int|
        t.kernel_stack_bottom <= a < t.kernel_stack_bottom + KERNEL_STACK_SIZE ==> #[trigger] n[a]
            == k.mem@[a]
}

/// The frames of `owner` in `k` hold the same bytes in `n`.
spec fn frames_same(k: Kernel, owner: Owner, n: Seq<u8>) -> bool {
    &&& n.len() == k.mem@.len()
    &&& forall|a: int|
        0 <= a < n.len() && kernel::uses(
            k.map,
            k.sched.tasks@,
            k.sched.pending@,
            owner,
            a / 4096,
        ) ==> #[trigger] n[a] == k.mem@[a]
}

proof fn lemma_stack_same(k: Kernel, id: int, n: Seq<u8>)
    requires
        k.wf(),
        0 <= id < MAX_TASKS,
        k.sched.tasks@[id].kernel_stack_pages > 0,
        frames_same(k, Owner::Stack(id), n),
    ensures
        stack_same(k, id, n),
{
    assert(kernel::task_mem_ok(k.sched.tasks@[id], k.mem@));
}

/// What is written through a task's space reaches no one else's frames.
proof fn lemma_user_write(k: Kernel, owner: Owner, j: int, n: Seq<u8>, va: int, data: Seq<u8>)
    requires
        k.wf(),
        0 <= j < MAX_TASKS,
        owner != Owner::Space(j),
        k.sched.tasks@[j].space is Some,
        k.sched.tasks@[j].space.unwrap().accessible(k.mem@, va, data.len() as int, true),
        k.sched.tasks@[j].space.unwrap().user_written(k.mem@, n, va, data),
    ensures
        frames_same(k, owner, n),
{
    let s = k.sched.tasks@[j].space.unwrap();
    assert(kernel::task_mem_ok(k.sched.tasks@[j], k.mem@));
    assert forall|a: int|
        0 <= a < n.len() && kernel::uses(
            k.map,
            k.sched.tasks@,
            k.sched.pending@,
            owner,
            a / 4096,
        ) implies #[trigger] n[a] == k.mem@[a] by {
        assert forall|i: int| 0 <= i < data.len() implies a != #[trigger] s.at(
            k.mem@,
            va + i,
            true,
        ) by {
            assert(s.spec_translate(k.mem@, va + i, true) is Some);
            addrspace::lemma_translation_in_page(s, k.mem@, va + i, true);
            let p = s.at(k.mem@, va + i, true);
            assert(p / 4096 * 4096 == p - p % 4096);
            assert(kernel::uses(
                k.map,
                k.sched.tasks@,
                k.sched.pending@,
                Owner::Space(j),
                p / 4096,
            ));
        }
    }
}

/// A message that is delivered to a task reaches no one else's frames.
proof fn lemma_delivered(k: Kernel, owner: Owner, w: int, n: Seq<u8>, msg: Message)
    requires
        k.wf(),
        0 <= w < MAX_TASKS,
        owner != Owner::Space(w),
        owner != Owner::Stack(w),
        k.sched.tasks@[w].wait is Some,
        context::delivered(k.sched.tasks@[w], k.mem@, n, msg),
    ensures
        frames_same(k, owner, n),
{
    let u = k.sched.tasks@[w];
    let code = context::delivery_code(u, k.mem@);
    let word = bytes::le_bytes((code as u64) as int, 8);
    let mid = choose|mid: Seq<u8>|
        {
            &&& if code == 0 {
                u.space.unwrap().user_written(
                    k.mem@,
                    mid,
                    u.wait.unwrap().buf as int,
                    msg.spelled(),
                )
            } else {
                mid == k.mem@
            }
            &&& n == #[trigger] mem::splice(mid, u.sp as int, word)
        };
    assert(u.shape());
    assert(kernel::task_mem_ok(u, k.mem@));
    bytes::lemma_le_bytes_len((code as u64) as int, 8);
    if code == 0 {
        wire::lemma_message_width(msg);
        lemma_user_write(k, owner, w, mid, u.wait.unwrap().buf as int, msg.spelled());
    }
    assert forall|a: int|
        0 <= a < n.len() && kernel::uses(
            k.map,
            k.sched.tasks@,
            k.sched.pending@,
            owner,
            a / 4096,
        ) implies #[trigger] n[a] == k.mem@[a] by {
        if u.sp <= a < u.sp + 8 {
            assert(kernel::uses(
                k.map,
                k.sched.tasks@,
                k.sched.pending@,
                Owner::Stack(w),
                a / 4096,
            ));
        }
        assert(mid[a] == k.mem@[a]);
    }
}

/// A message that is sent, with tasks and memory as in `k`, leaves the frames of
/// a task that is not waiting alone.
proof fn lemma_sent(
    k: Kernel,
    k0: Kernel,
    k1: Kernel,
    owner: Owner,
    sender: u16,
    ch: u32,
    msg: Message,
    now_ns: u64,
    r: Option<usize>,
)
    requires
        k.wf(),
        k0.sched.tasks@ == k.sched.tasks@,
        k0.mem@ == k.mem@,
        owner == Owner::Space(k.sched.current as int) || owner == Owner::Stack(
            k.sched.current as int,
        ),
        syscalls::caller(k).wait is None,
        delivery::sent(k0, k1, sender, ch, msg, now_ns, r),
    ensures
        frames_same(k, owner, k1.mem@),
{
    match k0.ipc@.chans[ch as int].waiter {
        None => {},
        Some(w) => {
            if delivery::in_user_wait(k0.sched.tasks@, w) {
                let oldest = k0.ipc@.enqueued(sender, ch, msg, now_ns).chans[ch as int].queue[0];
                lemma_delivered(k, owner, w as int, k1.mem@, oldest.msg);
            }
        },
    }
}

/// Notices that move up leave the caller's frames alone.
proof fn lemma_refilled(k: Kernel, ka: Kernel, kb: Kernel, owner: Owner, id: u32, now_ns: u64)
    requires
        k.wf(),
        ka.sched.tasks@ == k.sched.tasks@,
        ka.mem@ == k.mem@,
        owner == Owner::Space(k.sched.current as int) || owner == Owner::Stack(
            k.sched.current as int,
        ),
        syscalls::caller(k).wait is None,
        delivery::refill_done(ka, kb, id, now_ns),
    ensures
        frames_same(k, owner, kb.mem@),
{
    if delivery::can_refill(ka.ipc@, id) && ka.ipc@.chans[id as int].waiter is Some {
        let i = ipc::first_for(ka.ipc@.backlog, id);
        let (kc, kd, woken) = choose|kc: Kernel, kd: Kernel, woken: Option<usize>|
            {
                &&& delivery::only_ipc(ka, kc, delivery::notice_taken(ka.ipc@, id))
                &&& #[trigger] delivery::sent(
                    kc,
                    kd,
                    0,
                    id,
                    ka.ipc@.backlog[i].1,
                    now_ns,
                    woken,
                )
                &&& #[trigger] delivery::only_ipc(
                    kd,
                    kb,
                    delivery::refilled(kd.ipc@, id, now_ns),
                )
            };
        lemma_sent(k, kc, kd, owner, 0, id, ka.ipc@.backlog[i].1, now_ns, woken);
    }
}

/// Starting a task leaves the stack of every other alone.
proof fn lemma_started(k: Kernel, id: int, n: Seq<u8>)
    requires
        k.wf(),
        0 <= id < MAX_TASKS,
        k.sched.tasks@[id].kernel_stack_pages > 0,
        spawn::kept_outside(k.mem@, n, spawn::free_after_reap(k)),
    ensures
        stack_same(k, id, n),
{
    let t = k.sched.tasks@[id];
    assert(kernel::task_mem_ok(t, k.mem@));
    assert forall|a: int|
        t.kernel_stack_bottom <= a < t.kernel_stack_bottom + KERNEL_STACK_SIZE implies #[trigger] n[a]
        == k.mem@[a] by {
        let f = a / 4096;
        assert(kernel::uses(k.map, k.sched.tasks@, k.sched.pending@, Owner::Stack(id), f));
        if spawn::in_reaped(k.sched.pending@, 0, MAX_TASKS as int, f) {
            let i = choose|i: int|
                0 <= i < MAX_TASKS && spawn::reapable(#[trigger] k.sched.pending@[i], 0)
                    && kernel::in_stack(
                    k.sched.pending@[i].kernel_stack_bottom,
                    k.sched.pending@[i].kernel_stack_pages,
                    f,
                );
            assert(kernel::uses(k.map, k.sched.tasks@, k.sched.pending@, Owner::Pending(i), f));
        }
    }
}

/// Receiving leaves the caller's stack alone.
proof fn lemma_received(
    k0: Kernel,
    k1: Kernel,
    handle: u64,
    buf: u64,
    deadline_ns: u64,
    blocking: bool,
    now_ns: u64,
    o: Outcome,
)
    requires
        k0.wf(),
        syscalls::caller(k0).kernel_stack_pages > 0,
        syscalls::caller(k0).wait is None,
        syscalls::recv_done(k0, k1, handle, buf, deadline_ns, blocking, now_ns, o),
    ensures
        stack_same(k0, k0.sched.current as int, k1.mem@),
{
    let cur = k0.sched.current as int;
    if let Ok(id) = syscalls::caller_channel(k0, handle, RIGHT_RECV) {
        let s = syscalls::caller(k0).space.unwrap();
        if addrspace::holds::<Message>(s, k0.mem@, buf as int, true) && k0.ipc@.live(id)
            && k0.ipc@.chans[id as int].queue.len() > 0 {
            let msg = k0.ipc@.chans[id as int].queue[0].msg;
            let (ka, kb) = choose|ka: Kernel, kb: Kernel|
                {
                    &&& #[trigger] delivery::took(k0, ka, id, now_ns)
                    &&& #[trigger] delivery::refill_done(ka, kb, id, now_ns)
                    &&& s.user_written(kb.mem@, k1.mem@, buf as int, msg.spelled())
                    &&& k1.same_tables(kb)
                    &&& k1.sched == kb.sched
                    &&& k1.ipc@ == kb.ipc@
                    &&& k1.metrics@ == kb.metrics@
                    &&& o == Outcome::Return(0)
                };
            wire::lemma_message_width(msg);
            lemma_refilled(k0, ka, kb, Owner::Stack(cur), id, now_ns);
            lemma_refilled(k0, ka, kb, Owner::Space(cur), id, now_ns);
            assert(kernel::task_mem_ok(syscalls::caller(k0), k0.mem@));
            assert forall|f: int| #[trigger] s.is_table(f) implies mem::same_page(
                k0.mem@,
                kb.mem@,
                f,
            ) by {
                assert(addrspace::AddressSpace::frame_ok(f, k0.mem@.len() as int));
                assert(f / 4096 * 4096 == f);
                assert forall|x: int| f <= x < f + 4096 implies #[trigger] k0.mem@[x] == kb.mem@[x] by {
                    assert(x / 4096 == f / 4096);
                    assert(kernel::uses(
                        k0.map,
                        k0.sched.tasks@,
                        k0.sched.pending@,
                        Owner::Space(cur),
                        x / 4096,
                    ));
                    assert(kb.mem@[x] == k0.mem@[x]);
                }
            }
            addrspace::lemma_tables_kept(s, k0.mem@, kb.mem@);
            let t = syscalls::caller(k0);
            assert forall|x: int|
                t.kernel_stack_bottom <= x < t.kernel_stack_bottom
                    + KERNEL_STACK_SIZE implies #[trigger] k1.mem@[x] == k0.mem@[x] by {
                assert(kernel::uses(
                    k0.map,
                    k0.sched.tasks@,
                    k0.sched.pending@,
                    Owner::Stack(cur),
                    x / 4096,
                ));
                assert forall|i: int| 0 <= i < msg.spelled().len() implies x != #[trigger] s.at(
                    kb.mem@,
                    buf + i,
                    true,
                ) by {
                    assert(s.spec_translate(k0.mem@, buf + i, true) is Some);
                    addrspace::lemma_translation_in_page(s, k0.mem@, buf + i, true);
                    let p = s.at(k0.mem@, buf + i, true);
                    assert(p / 4096 * 4096 == p - p % 4096);
                    assert(kernel::uses(
                        k0.map,
                        k0.sched.tasks@,
                        k0.sched.pending@,
                        Owner::Space(cur),
                        p / 4096,
                    ));
                }
                assert(kb.mem@[x] == k0.mem@[x]);
            }
        }
    }
}

/// A system call that does not end the caller leaves its kernel stack, and with
/// it the registers saved there, as they were.
pub proof fn law_call_keeps_frame(
    k0: Kernel,
    k1: Kernel,
    programs: Programs,
    nr: u64,
    a: Seq<u64>,
    now_ns: u64,
    fx0: Effects,
    fx1: Effects,
    o: Outcome,
)
    requires
        k0.wf(),
        syscalls::caller(k0).kernel_stack_pages > 0,
        syscalls::caller(k0).wait is None,
        nr != sys::EXIT,
        syscalls::call_done(k0, k1, programs, nr, a, now_ns, fx0, fx1, o),
    ensures
        stack_same(k0, k0.sched.current as int, k1.mem@),
{
    let cur = k0.sched.current as int;
    if nr == sys::SEND {
        match syscalls::caller_channel(k0, a[0], RIGHT_SEND) {
            Err(_) => {},
            Ok(id) => {
                let s = syscalls::caller(k0).space.unwrap();
                if addrspace::holds::<Message>(s, k0.mem@, a[1] as int, false)
                    && delivery::send_error(k0.ipc@, id) is None {
                    let (msg, woken) = choose|msg: Message, woken: Option<usize>|
                        {
                            &&& #[trigger] msg.spelled() == s.user_bytes(k0.mem@, a[1] as int, 40)
                            &&& #[trigger] delivery::sent(
                                k0,
                                k1,
                                k0.sched.current as u16,
                                id,
                                msg,
                                now_ns,
                                woken,
                            )
                            &&& o == match woken {
                                Some(w) => Outcome::HandOff(w),
                                None => Outcome::Return(0),
                            }
                        };
                    lemma_sent(
                        k0,
                        k0,
                        k1,
                        Owner::Stack(cur),
                        k0.sched.current as u16,
                        id,
                        msg,
                        now_ns,
                        woken,
                    );
                    lemma_stack_same(k0, cur, k1.mem@);
                }
            },
        }
    } else if nr == sys::RECV {
        lemma_received(k0, k1, a[0], a[1], a[2], true, now_ns, o);
    } else if nr == sys::TRY_RECV {
        lemma_received(k0, k1, a[0], a[1], 0, false, now_ns, o);
    } else if nr == sys::SPAWN {
        lemma_spawned(k0, k1, programs, a[0], fx0, fx1, o);
    }
}

/// Starting a service leaves the caller's stack alone.
proof fn lemma_spawned(
    k0: Kernel,
    k1: Kernel,
    programs: Programs,
    ptr: u64,
    fx0: Effects,
    fx1: Effects,
    o: Outcome,
)
    requires
        k0.wf(),
        syscalls::caller(k0).kernel_stack_pages > 0,
        syscalls::spawn_done(k0, k1, programs, ptr, fx0, fx1, o),
    ensures
        stack_same(k0, k0.sched.current as int, k1.mem@),
{
    let cur = k0.sched.current as int;
    if syscalls::spawn_refusal(k0, programs, ptr) is None {
        assert(spawn::kept_outside(k0.mem@, k1.mem@, spawn::free_after_reap(k0)));
        lemma_started(k0, cur, k1.mem@);
    }
}

/// The result of a call goes into the first saved register, and no other
/// changes.
pub proof fn law_result_changes_one_register(
    k0: Kernel,
    ka: Kernel,
    k1: Kernel,
    frame: u64,
    value: u64,
    i: int,
)
    requires
        k0.wf(),
        syscalls::caller(k0).kernel_stack_pages > 0,
        stack_same(k0, k0.sched.current as int, ka.mem@),
        ka.mem@.len() == k0.mem@.len(),
        syscalls::answered(ka, k1, frame, value),
        syscalls::caller(k0).kernel_stack_bottom <= frame,
        0 <= i < 34,
        frame + 272 <= syscalls::caller(k0).kernel_stack_bottom + KERNEL_STACK_SIZE,
    ensures
        syscalls::register(k1.mem@, frame, i) == if i == 0 {
            value
        } else {
            syscalls::register(k0.mem@, frame, i)
        },
{
    assert(kernel::task_mem_ok(syscalls::caller(k0), k0.mem@));
    if i == 0 {
        mem::lemma_word_written(ka.mem@, frame as int, value);
    } else {
        mem::lemma_word_elsewhere(ka.mem@, frame as int, value, frame + 8 * i);
        mem::lemma_word_same(ka.mem@, k0.mem@, frame + 8 * i);
    }
}

} // verus!
