//! The end of a task, the tick, and the beginning of everything.
use vstd::prelude::*;

use crate::abi::tag;
use crate::abi::{ExitReason, Handle, Message, Rights, TaskRef, RIGHT_RECV};
use crate::addrspace;
use crate::addrspace::{AddressSpace, KernelMap};
use crate::context;
use crate::context::{PendingFree, Scheduler, State, Switch, Task, MAX_TASKS};
use crate::delivery;
use crate::frame_alloc;
use crate::frame_alloc::FrameAllocator;
use crate::handles;
use crate::handles::Slot;
use crate::ipc;
use crate::ipc::IpcView;
use crate::kernel;
use crate::kernel::{Kernel, Owner};
use crate::mem;
use crate::mem::PhysMem;
use crate::metrics;
use crate::registry;
use crate::spawn;

verus! {

/// What came of a task's end.
#[derive(Clone, Copy, Debug, PartialEq, Eq, Structural)]
pub enum Retirement {
    /// The boot task does not end.
    BootTask,
    /// init ended: nothing supervises the system, which halts.
    InitExited,
    /// The task is gone; the processor must leave its stack, on the kernel's
    /// own translation table.
    Gone(TaskRef),
}

/// Handle tables as plain values, one per task.
pub open spec fn tables(tasks: Seq<Task>) -> Seq<Seq<Option<Slot>>> {
    Seq::new(tasks.len(), |i: int| tasks[i].handles@)
}

/// The channels and the handle tables after the receive right in `slot`, if it
/// is one that task `cur` holds, has gone home. The channel names its receiver
/// only if the home slot has taken the right back; otherwise it has none.
pub open spec fn gone_home(
    v: IpcView,
    hs: Seq<Seq<Option<Slot>>>,
    cur: usize,
    slot: Slot,
) -> (IpcView, Seq<Seq<Option<Slot>>>) {
    let c = v.chans[slot.channel as int];
    if slot.rights.0 & RIGHT_RECV != RIGHT_RECV || !v.live(slot.channel) || c.receiver
        != cur as u16 {
        (v, hs)
    } else {
        match c.recv_home {
            None => (v.receiver_gone(slot.channel, cur), hs),
            Some((h, s)) => if h < MAX_TASKS && h != cur && s < crate::abi::MAX_HANDLES && (
            hs[h as int][s as int] matches Some(x) && x.channel == slot.channel) {
                let x = hs[h as int][s as int].unwrap();
                (
                    v.receiver_gone(slot.channel, cur),
                    hs.update(
                        h as int,
                        hs[h as int].update(
                            s as int,
                            Some(Slot { rights: Rights(x.rights.0 | RIGHT_RECV), ..x }),
                        ),
                    ),
                )
            } else {
                (
                    v.receiver_gone(slot.channel, cur).received_by(
                        slot.channel,
                        ipc::NO_TASK as usize,
                        None,
                    ),
                    hs,
                )
            },
        }
    }
}

/// The same for the first `n` of the slots.
pub open spec fn all_gone_home(
    v: IpcView,
    hs: Seq<Seq<Option<Slot>>>,
    cur: usize,
    slots: Seq<(u32, Slot)>,
    n: int,
) -> (IpcView, Seq<Seq<Option<Slot>>>)
    decreases n,
{
    if n <= 0 {
        (v, hs)
    } else {
        let before = all_gone_home(v, hs, cur, slots, n - 1);
        gone_home(before.0, before.1, cur, slots[n - 1].1)
    }
}

/// Lets the receive right in `slot` go home from task `cur`.
fn send_home(k: &mut Kernel, cur: usize, slot: Slot)
    requires
        old(k).wf(),
        cur < MAX_TASKS,
    ensures
        final(k).wf(),
        final(k).same_tables(*old(k)),
        final(k).mem == old(k).mem,
        final(k).metrics == old(k).metrics,
        final(k).sched.same_but_tasks(old(k).sched),
        forall|i: int|
            0 <= i < MAX_TASKS ==> kernel::same_but_handles(
                #[trigger] final(k).sched.tasks@[i],
                old(k).sched.tasks@[i],
            ),
        final(k).sched.tasks@[cur as int] == old(k).sched.tasks@[cur as int],
        (final(k).ipc@, tables(final(k).sched.tasks@)) == gone_home(
            old(k).ipc@,
            tables(old(k).sched.tasks@),
            cur,
            slot,
        ),
{
    let ghost hs = tables(k.sched.tasks@);
    proof {
        ipc::law_bounds(k.ipc);
        assert(hs.len() == MAX_TASKS);
    }
    if !slot.rights.contains(Rights::recv()) {
        return ;
    }
    let home: Option<(usize, u32)> = ipc::receiver_exited(&mut k.ipc, slot.channel, cur);
    match home {
        None => {
            assert(tables(k.sched.tasks@) =~= hs);
        },
        Some((home_task, home_slot)) => {
            let ghost k1 = *k;
            let mut taken: bool = false;
            if home_task < MAX_TASKS && home_task != cur {
                assert(k.sched.tasks@[home_task as int].shape());
                match k.sched.tasks[home_task].handles.get_mut(Handle(home_slot)) {
                    None => {},
                    Some(s) => {
                        if s.channel == slot.channel {
                            s.rights = s.rights.union(Rights::recv());
                            taken = true;
                        }
                    },
                }
            }
            proof {
                let t0 = old(k).sched.tasks@;
                let t1 = k.sched.tasks@;
                assert(t1.len() == t0.len());
                assert forall|i: int| 0 <= i < MAX_TASKS implies kernel::same_but_handles(
                    #[trigger] t1[i],
                    t0[i],
                ) && t1[i].handles.wf() by {
                    assert(t0[i].shape());
                    if i != home_task {
                        assert(t1[i] == t0[i]);
                    }
                }
                kernel::lemma_handles_changed(*old(k), k.sched);
                if taken {
                    let x = hs[home_task as int][home_slot as int].unwrap();
                    assert(tables(t1) =~= hs.update(
                        home_task as int,
                        hs[home_task as int].update(
                            home_slot as int,
                            Some(Slot { rights: Rights(x.rights.0 | RIGHT_RECV), ..x }),
                        ),
                    ));
                } else {
                    assert forall|i: int| 0 <= i < MAX_TASKS implies #[trigger] tables(t1)[i]
                        == hs[i] by {
                        if i != home_task {
                            assert(t1[i] == t0[i]);
                        }
                    }
                    assert(tables(t1) =~= hs);
                }
            }
            if !taken {
                ipc::set_receiver(&mut k.ipc, slot.channel, ipc::NO_TASK as usize);
            }
        },
    }
}

/// The notice that tells init of a task's end.
pub open spec fn is_exit_notice(msg: Message, id: usize, reason: ExitReason, generation: u32) -> bool {
    &&& msg.tag == tag::TASK_EXITED
    &&& msg.sender == 0
    &&& msg.len == 24
    &&& msg.payload@ == seq![id as u64, reason.spec_code() as u64, generation as u64, 0u64]
}

fn exit_notice(id: usize, reason: ExitReason, generation: u32) -> (msg: Message)
    ensures
        is_exit_notice(msg, id, reason, generation),
{
    let msg: Message = Message::new(tag::TASK_EXITED).with_data(0, id as u64).with_data(
        1,
        reason.code(),
    ).with_data(2, generation as u64);
    assert(msg.payload@ =~= seq![
        id as u64,
        reason.spec_code() as u64,
        generation as u64,
        0u64,
    ]);
    msg
}

/// The first place from `from` on where no stack waits.
pub open spec fn first_unused(pending: Seq<PendingFree>, from: int) -> int
    decreases pending.len() - from,
{
    if from < pending.len() && pending[from].used {
        first_unused(pending, from + 1)
    } else {
        from
    }
}

/// The waiting stacks with that of `t`, which takes the first free place.
pub open spec fn stack_queued(pending: Seq<PendingFree>, t: Task) -> Seq<PendingFree> {
    if t.kernel_stack_pages == 0 {
        pending
    } else {
        pending.update(
            first_unused(pending, 0),
            PendingFree {
                kernel_stack_bottom: t.kernel_stack_bottom,
                kernel_stack_pages: t.kernel_stack_pages,
                used: true,
            },
        )
    }
}

/// Keeps a retired task's stack until nothing runs on it.
fn queue_pending_free(s: &mut Scheduler, bottom: u64, pages: usize) -> (r: usize)
    requires
        old(s).pending@.len() == MAX_TASKS,
        context::waiting(old(s).pending@, MAX_TASKS as int) < MAX_TASKS,
    ensures
        r < MAX_TASKS,
        r == first_unused(old(s).pending@, 0),
        !old(s).pending@[r as int].used,
        final(s).pending@ == old(s).pending@.update(
            r as int,
            PendingFree { kernel_stack_bottom: bottom, kernel_stack_pages: pages, used: true },
        ),
        final(s).tasks == old(s).tasks,
        final(s).current == old(s).current,
        final(s).hand_off == old(s).hand_off,
        final(s).init_task == old(s).init_task,
        final(s).generations == old(s).generations,
        final(s).kernel_ttbr0 == old(s).kernel_ttbr0,
{
    let mut i: usize = 0;
    while i < MAX_TASKS && s.pending[i].used
        invariant
            i <= MAX_TASKS,
            *s == *old(s),
            s.pending@.len() == MAX_TASKS,
            context::waiting(s.pending@, MAX_TASKS as int) < MAX_TASKS,
            forall|j: int| 0 <= j < i ==> (#[trigger] s.pending@[j]).used,
            first_unused(s.pending@, 0) == first_unused(s.pending@, i as int),
        decreases MAX_TASKS - i,
    {
        i = i + 1;
    }
    proof {
        context::lemma_waiting_full(s.pending@, MAX_TASKS as int);
    }
    s.pending[i] = PendingFree {
        kernel_stack_bottom: bottom,
        kernel_stack_pages: pages,
        used: true,
    };
    i
}

/// Memory stays sound when a task goes: its space's frames are free, and its
/// stack waits.
proof fn lemma_task_gone(
    m: Seq<u8>,
    fa: FrameAllocator,
    fb: FrameAllocator,
    map: KernelMap,
    tasks: Seq<Task>,
    tasks2: Seq<Task>,
    p: Seq<PendingFree>,
    p2: Seq<PendingFree>,
    cur: int,
    j: int,
)
    requires
        kernel::memory_ok(m, fa, map, tasks, p),
        tasks2.len() == tasks.len(),
        0 <= cur < tasks.len(),
        forall|i: int| 0 <= i < tasks.len() && i != cur ==> #[trigger] tasks2[i] == tasks[i],
        tasks2[cur].is_empty(),
        fb.wf(),
        fb.count() == fb@.len(),
        forall|f: int| #[trigger]
            fb@.contains(f) <==> fa@.contains(f) || (tasks[cur].space matches Some(s)
                && s.roles().dom().contains(f * 4096)),
        tasks[cur].kernel_stack_pages == 0 ==> p2 == p,
        tasks[cur].kernel_stack_pages > 0 ==> {
            &&& 0 <= j < p.len()
            &&& !p[j].used
            &&& p2 == p.update(
                j,
                PendingFree {
                    kernel_stack_bottom: tasks[cur].kernel_stack_bottom,
                    kernel_stack_pages: tasks[cur].kernel_stack_pages,
                    used: true,
                },
            )
        },
    ensures
        kernel::memory_ok(m, fb, map, tasks2, p2),
{
    let t = tasks[cur];
    assert(kernel::task_mem_ok(t, m));
    assert forall|i: int| 0 <= i < tasks2.len() implies kernel::task_mem_ok(
        #[trigger] tasks2[i],
        m,
    ) by {
        assert(kernel::task_mem_ok(tasks[i], m));
    }
    let was = |a: Owner| if t.kernel_stack_pages > 0 && a == Owner::Pending(j) {
        Owner::Stack(cur)
    } else {
        a
    };
    assert forall|a: Owner, f: int| #[trigger] kernel::uses(map, tasks2, p2, a, f) implies
        kernel::uses(map, tasks, p, was(a), f) && was(a) != Owner::Space(cur) && (a
        != Owner::Stack(cur)) by {
        match a {
            Owner::Space(i) => {
                if i != cur {
                    assert(tasks2[i] == tasks[i]);
                }
            },
            Owner::Stack(i) => {
                if i != cur {
                    assert(tasks2[i] == tasks[i]);
                }
            },
            Owner::Pending(i) => {
                if t.kernel_stack_pages > 0 && i == j {
                } else {
                    assert(p2[i] == p[i]);
                }
            },
            Owner::Table => {},
        }
    }
    assert forall|a: Owner, b: Owner, f: int| #[trigger]
        kernel::uses(map, tasks2, p2, a, f) && #[trigger] kernel::uses(
            map,
            tasks2,
            p2,
            b,
            f,
        ) implies a == b by {
        assert(kernel::uses(map, tasks, p, was(a), f));
        assert(kernel::uses(map, tasks, p, was(b), f));
        assert(was(a) == was(b));
    }
    assert forall|a: Owner, f: int| #[trigger] kernel::uses(map, tasks2, p2, a, f) implies
        !fb@.contains(f) by {
        assert(kernel::uses(map, tasks, p, was(a), f));
        if t.space is Some && t.space.unwrap().roles().dom().contains(f * 4096) {
            assert(kernel::uses(map, tasks, p, Owner::Space(cur), f));
        }
    }
    assert forall|f: int| #[trigger] fb@.contains(f) implies 0 < f && (f + 1) * 4096 <= m.len() by {
        if t.space is Some && t.space.unwrap().roles().dom().contains(f * 4096) {
            assert(AddressSpace::frame_ok(f * 4096, m.len() as int));
        }
    }
    assert forall|f: int|
        #![trigger fb@.contains(f)]
        map.l1 as int / 4096 <= f && f * 4096 < map.l1 + 8 * map.l1_entries implies !fb@.contains(
        f,
    ) by {
        assert(kernel::uses(map, tasks2, p2, Owner::Table, f));
    }
    assert forall|k: int| 0 <= k < p2.len() && (#[trigger] p2[k]).used implies kernel::stack_ok(
        p2[k].kernel_stack_bottom,
        p2[k].kernel_stack_pages,
        m.len() as int,
    ) by {
        if !(t.kernel_stack_pages > 0 && k == j) {
            assert(p2[k] == p[k]);
        }
    }
}

/// The channels and handle tables after the current task's receive rights have
/// gone home and its own wait is forgotten.
pub open spec fn rights_after(k: Kernel) -> (IpcView, Seq<Seq<Option<Slot>>>) {
    let cur = k.sched.current;
    let t = k.sched.tasks@[cur as int];
    let v = match t.wait {
        Some(w) => k.ipc@.cancelled(w.channel, cur),
        None => k.ipc@,
    };
    let slots = handles::occupied(t.handles@, crate::abi::MAX_HANDLES as int);
    all_gone_home(v, tables(k.sched.tasks@), cur, slots, slots.len() as int)
}

/// What the end of the current task changes, before init is told: its rights
/// have gone home, its space is freed, its stack waits, its slot is free and
/// its exit is recorded.
pub open spec fn retired(k0: Kernel, k1: Kernel, reason: ExitReason) -> bool {
    let cur = k0.sched.current;
    let t = k0.sched.tasks@[cur as int];
    let after = rights_after(k0);
    &&& k1.mem@ == k0.mem@
    &&& k1.map == k0.map
    &&& k1.metrics@ == k0.metrics@
    &&& k1.ipc@ == after.0
    &&& registry::exit_recorded(k0.registry, k1.registry, cur, reason)
    &&& forall|f: int| #[trigger]
        k1.frames@.contains(f) <==> k0.frames@.contains(f) || (t.space matches Some(s)
            && s.roles().dom().contains(f * 4096))
    &&& k1.sched.tasks@.len() == MAX_TASKS
    &&& spawn::is_vacant(k1.sched.tasks@[cur as int])
    &&& forall|i: int|
        0 <= i < MAX_TASKS && i != cur ==> {
            &&& kernel::same_but_handles(#[trigger] k1.sched.tasks@[i], k0.sched.tasks@[i])
            &&& k1.sched.tasks@[i].handles@ == after.1[i]
        }
    &&& k1.sched.current == cur
    &&& k1.sched.init_task == k0.sched.init_task
    &&& k1.sched.generations == k0.sched.generations
    &&& k1.sched.kernel_ttbr0 == k0.sched.kernel_ttbr0
    &&& k1.sched.hand_off == match k0.sched.hand_off {
        Some(h) => if h.0 == cur || h.1 == cur {
            None
        } else {
            Some(h)
        },
        None => None,
    }
    &&& k1.sched.pending@ == stack_queued(k0.sched.pending@, t)
}

/// Lets every receive right of the current task go home.
fn send_all_home(k: &mut Kernel)
    requires
        old(k).wf(),
    ensures
        final(k).wf(),
        final(k).same_tables(*old(k)),
        final(k).mem == old(k).mem,
        final(k).metrics == old(k).metrics,
        final(k).sched.same_but_tasks(old(k).sched),
        forall|i: int|
            0 <= i < MAX_TASKS ==> kernel::same_but_handles(
                #[trigger] final(k).sched.tasks@[i],
                old(k).sched.tasks@[i],
            ),
        ({
            let cur = old(k).sched.current;
            let slots = handles::occupied(
                old(k).sched.tasks@[cur as int].handles@,
                crate::abi::MAX_HANDLES as int,
            );
            (final(k).ipc@, tables(final(k).sched.tasks@)) == all_gone_home(
                old(k).ipc@,
                tables(old(k).sched.tasks@),
                cur,
                slots,
                slots.len() as int,
            )
        }),
{
    let cur: usize = k.sched.current;
    assert(k.sched.tasks@[cur as int].shape());
    let slots: Vec<(u32, Slot)> = k.sched.tasks[cur].handles.slots();
    let mut i: usize = 0;
    while i < slots.len()
        invariant
            cur == old(k).sched.current,
            cur < MAX_TASKS,
            i <= slots@.len(),
            k.wf(),
            k.same_tables(*old(k)),
            k.mem == old(k).mem,
            k.metrics == old(k).metrics,
            k.sched.same_but_tasks(old(k).sched),
            forall|j: int|
                0 <= j < MAX_TASKS ==> kernel::same_but_handles(
                    #[trigger] k.sched.tasks@[j],
                    old(k).sched.tasks@[j],
                ),
            (k.ipc@, tables(k.sched.tasks@)) == all_gone_home(
                old(k).ipc@,
                tables(old(k).sched.tasks@),
                cur,
                slots@,
                i as int,
            ),
        decreases slots@.len() - i,
    {
        let ghost before = *k;
        send_home(k, cur, slots[i].1);
        proof {
            assert forall|j: int| 0 <= j < MAX_TASKS implies kernel::same_but_handles(
                #[trigger] k.sched.tasks@[j],
                old(k).sched.tasks@[j],
            ) by {
                assert(kernel::same_but_handles(k.sched.tasks@[j], before.sched.tasks@[j]));
                assert(kernel::same_but_handles(before.sched.tasks@[j], old(k).sched.tasks@[j]));
            }
        }
        i = i + 1;
    }
}

/// Forgets what the current task waits for.
fn forget_wait(k: &mut Kernel)
    requires
        old(k).wf(),
    ensures
        final(k).wf(),
        final(k).same_tables(*old(k)),
        final(k).mem == old(k).mem,
        final(k).metrics == old(k).metrics,
        final(k).sched.same_but_tasks(old(k).sched),
        final(k).sched.tasks@ == old(k).sched.tasks@.update(
            old(k).sched.current as int,
            Task { wait: None, ..old(k).sched.tasks@[old(k).sched.current as int] },
        ),
        final(k).ipc@ == match old(k).sched.tasks@[old(k).sched.current as int].wait {
            Some(w) => old(k).ipc@.cancelled(w.channel, old(k).sched.current),
            None => old(k).ipc@,
        },
{
    let cur: usize = k.sched.current;
    assert(k.sched.tasks@[cur as int].shape());
    match k.sched.tasks[cur].wait {
        None => {
            assert(k.sched.tasks@ =~= old(k).sched.tasks@.update(
                cur as int,
                Task { wait: None, ..old(k).sched.tasks@[cur as int] },
            ));
        },
        Some(wait) => {
            k.sched.tasks[cur].wait = None;
            ipc::cancel_waiter(&mut k.ipc, wait.channel, cur);
            proof {
                let t0 = old(k).sched.tasks@;
                let t1 = k.sched.tasks@;
                context::lemma_stacks_same(t0, t1, MAX_TASKS as int);
                assert forall|i: int|
                    0 <= i < t0.len() && (#[trigger] t1[i]).kernel_stack_pages
                        > 0 implies kernel::sp_ok(t1[i].sp, t1[i].kernel_stack_bottom) by {
                    assert(kernel::task_mem_ok(t0[i], k.mem@));
                }
                kernel::lemma_tasks_kept(k.mem@, k.frames, k.map, t0, t1, k.sched.pending@);
            }
        },
    }
}

/// Frees the current task's space, lets its stack wait, and empties its slot.
fn vacate(k: &mut Kernel)
    requires
        old(k).wf(),
        old(k).sched.current != 0,
    ensures
        final(k).wf(),
        final(k).mem == old(k).mem,
        final(k).map == old(k).map,
        final(k).ipc == old(k).ipc,
        final(k).registry == old(k).registry,
        final(k).metrics == old(k).metrics,
        final(k).sched.current == old(k).sched.current,
        final(k).sched.hand_off == old(k).sched.hand_off,
        final(k).sched.init_task == old(k).sched.init_task,
        final(k).sched.generations == old(k).sched.generations,
        final(k).sched.kernel_ttbr0 == old(k).sched.kernel_ttbr0,
        ({
            let cur = old(k).sched.current;
            let t = old(k).sched.tasks@[cur as int];
            &&& spawn::is_vacant(final(k).sched.tasks@[cur as int])
            &&& final(k).sched.tasks@ == old(k).sched.tasks@.update(
                cur as int,
                final(k).sched.tasks@[cur as int],
            )
            &&& forall|f: int| #[trigger]
                final(k).frames@.contains(f) <==> old(k).frames@.contains(f) || (
                t.space matches Some(s) && s.roles().dom().contains(f * 4096))
            &&& final(k).sched.pending@ == stack_queued(old(k).sched.pending@, t)
        }),
{
    let cur: usize = k.sched.current;
    let ghost k0 = *old(k);
    let ghost t = k.sched.tasks@[cur as int];
    proof {
        assert(t.shape());
        assert(kernel::task_mem_ok(t, k.mem@));
        frame_alloc::lemma_free_finite(k.frames);
    }
    let bottom: u64 = k.sched.tasks[cur].kernel_stack_bottom;
    let pages: usize = k.sched.tasks[cur].kernel_stack_pages;
    let space: Option<AddressSpace> = k.sched.tasks[cur].space.take();
    match space {
        None => {},
        Some(s) => {
            proof {
                assert forall|x: int| #[trigger] s.roles().dom().contains(x) implies
                    !k.frames@.contains(x / 4096) by {
                    assert(AddressSpace::frame_ok(x, k.mem@.len() as int));
                    assert((x / 4096) * 4096 == x);
                    assert(kernel::uses(
                        k0.map,
                        k0.sched.tasks@,
                        k0.sched.pending@,
                        Owner::Space(cur as int),
                        x / 4096,
                    ));
                }
                addrspace::lemma_frames_bounded(s, k.mem@);
            }
            s.release(&mut k.frames, &k.mem);
            proof {
                addrspace::lemma_released_count(s, k.mem@, k0.frames, k.frames);
            }
        },
    }
    let mut j: usize = 0;
    proof {
        context::lemma_waiting_full(k.sched.pending@, MAX_TASKS as int);
        context::lemma_stacks_bound(k0.sched.tasks@, MAX_TASKS as int);
    }
    if pages != 0 {
        j = queue_pending_free(&mut k.sched, bottom, pages);
    }
    let fresh: Task = spawn::vacant();
    let ghost fresh_g = fresh;
    k.sched.tasks[cur] = fresh;
    proof {
        let t0 = k0.sched.tasks@;
        let t1 = k.sched.tasks@;
        assert(t1 =~= t0.update(cur as int, fresh_g));
        context::lemma_stacks_update(t0, cur as int, fresh_g, MAX_TASKS as int);
        context::lemma_waiting_update(
            k0.sched.pending@,
            j as int,
            PendingFree { kernel_stack_bottom: bottom, kernel_stack_pages: pages, used: true },
            MAX_TASKS as int,
        );
        lemma_task_gone(
            k.mem@,
            k0.frames,
            k.frames,
            k.map,
            t0,
            t1,
            k0.sched.pending@,
            k.sched.pending@,
            cur as int,
            j as int,
        );
        assert forall|i: int| 0 <= i < MAX_TASKS implies (#[trigger] t1[i]).shape() by {
            assert(t0[i].shape());
        }
        if pages != 0 {
            assert(k.sched.pending@ == k0.sched.pending@.update(
                j as int,
                PendingFree {
                    kernel_stack_bottom: t.kernel_stack_bottom,
                    kernel_stack_pages: t.kernel_stack_pages,
                    used: true,
                },
            ));
        }
    }
}

/// Removes the current task: its receive rights go home, its address space is
/// freed, its kernel stack waits to be freed, its slot becomes free, its exit
/// is recorded, and init is told. init's own end halts the system.
pub fn retire_current(k: &mut Kernel, reason: ExitReason, now_ns: u64) -> (r: Retirement)
    requires
        old(k).wf(),
    ensures
        final(k).wf(),
        match r {
            Retirement::BootTask => old(k).sched.current == 0 && *final(k) == *old(k),
            Retirement::InitExited => {
                &&& old(k).sched.current != 0
                &&& old(k).sched.current == old(k).sched.init_task
                &&& *final(k) == *old(k)
            },
            Retirement::Gone(task) => {
                let cur = old(k).sched.current;
                let generation = old(k).sched.generations@[cur as int];
                &&& cur != 0
                &&& cur != old(k).sched.init_task
                &&& task == (TaskRef { id: cur as u16, generation })
                &&& exists|km: Kernel, msg: Message, sent: Result<Option<usize>, ipc::Error>|
                    {
                        &&& #[trigger] retired(*old(k), km, reason)
                        &&& is_exit_notice(msg, cur, reason, generation)
                        &&& #[trigger] delivery::notice_sent(
                            km,
                            *final(k),
                            ipc::INIT_INBOX,
                            msg,
                            now_ns,
                            sent,
                        )
                    }
            },
        },
{
    let cur: usize = k.sched.current;
    if cur == 0 {
        return Retirement::BootTask;
    }
    if cur == k.sched.init_task {
        return Retirement::InitExited;
    }
    let ghost k0 = *old(k);
    let involved: bool = match k.sched.hand_off {
        Some(h) => h.0 == cur || h.1 == cur,
        None => false,
    };
    if involved {
        k.sched.hand_off = None;
    }
    forget_wait(k);
    let ghost k1 = *k;
    proof {
        assert(tables(k1.sched.tasks@) =~= tables(k0.sched.tasks@));
    }
    send_all_home(k);
    let ghost k2 = *k;
    vacate(k);
    registry::on_exit(&mut k.registry, cur, reason);
    let task: TaskRef = context::task_ref(&k.sched, cur);
    let ghost km = *k;
    proof {
        assert(k2.ipc@ == rights_after(k0).0);
        assert(tables(k2.sched.tasks@) == rights_after(k0).1);
        assert forall|i: int| 0 <= i < MAX_TASKS && i != cur implies kernel::same_but_handles(
            #[trigger] km.sched.tasks@[i],
            k0.sched.tasks@[i],
        ) && km.sched.tasks@[i].handles@ == rights_after(k0).1[i] by {
            assert(km.sched.tasks@[i] == k2.sched.tasks@[i]);
            assert(kernel::same_but_handles(k2.sched.tasks@[i], k1.sched.tasks@[i]));
            assert(tables(k2.sched.tasks@)[i] == k2.sched.tasks@[i].handles@);
        }
        assert(kernel::same_but_handles(k2.sched.tasks@[cur as int], k1.sched.tasks@[cur as int]));
        assert(retired(k0, km, reason));
    }
    let msg: Message = exit_notice(cur, reason, task.generation);
    let sent: Result<Option<usize>, ipc::Error> = delivery::send_as_kernel(
        k,
        ipc::INIT_INBOX,
        &msg,
        now_ns,
    );
    proof {
        assert(delivery::notice_sent(km, *k, ipc::INIT_INBOX, msg, now_ns, sent));
    }
    Retirement::Gone(task)
}

/// The kernel with any hand-off forgotten.
pub open spec fn without_hand_off(k: Kernel) -> Kernel {
    Kernel { sched: Scheduler { hand_off: None, ..k.sched }, ..k }
}

/// The timer tick, with the interrupted task's frame at `stack_ptr`: frees the
/// stacks of retired tasks, wakes whose deadline has passed, and lets the next
/// task in turn run. No hand-off is returned from across a tick.
pub fn scheduler_tick(k: &mut Kernel, stack_ptr: u64, now_ns: u64) -> (r: Result<Switch, usize>)
    requires
        old(k).wf(),
        context::frame_of_current(*old(k), stack_ptr),
    ensures
        final(k).wf(),
        exists|ka: Kernel, kb: Kernel|
            {
                &&& #[trigger] spawn::reap_done(*old(k), ka, stack_ptr)
                &&& #[trigger] context::waits_expired(ka, kb, now_ns)
                &&& context::switched_away(without_hand_off(kb), *final(k), stack_ptr, r)
            },
{
    spawn::reap_pending_frees(k, stack_ptr);
    let ghost ka = *k;
    context::expire_waits(k, now_ns);
    let ghost kb = *k;
    k.sched.hand_off = None;
    proof {
        let cur = k.sched.current as int;
        assert(k.sched.tasks@[cur].kernel_stack_pages
            == ka.sched.tasks@[cur].kernel_stack_pages);
        assert(*k == without_hand_off(kb));
    }
    let r: Result<Switch, usize> = context::switch_away(k, stack_ptr);
    proof {
        assert(spawn::reap_done(*old(k), ka, stack_ptr));
        assert(context::waits_expired(ka, kb, now_ns));
    }
    r
}

/// How many words from index `i` of the stack at `bottom` still hold paint.
pub open spec fn untouched_words(m: Seq<u8>, bottom: int, i: int) -> int
    decreases 4096 - i,
{
    if i >= 4096 || mem::word(m, bottom + 8 * i) != context::PAINTED {
        0
    } else {
        1 + untouched_words(m, bottom, i + 1)
    }
}

/// The deepest `task` has reached into its kernel stack, in bytes, or `None`
/// for a free slot or the boot task (which runs on the firmware's stack).
pub fn stack_peak(k: &Kernel, task: usize) -> (r: Option<usize>)
    requires
        k.wf(),
    ensures
        match r {
            None => task >= MAX_TASKS || !context::is_live(k.sched.tasks@[task as int])
                || k.sched.tasks@[task as int].kernel_stack_pages == 0,
            Some(n) => {
                &&& task < MAX_TASKS
                &&& context::is_live(k.sched.tasks@[task as int])
                &&& k.sched.tasks@[task as int].kernel_stack_pages > 0
                &&& n == context::KERNEL_STACK_SIZE - 8 * (context::CANARY_WORDS
                    + untouched_words(
                    k.mem@,
                    k.sched.tasks@[task as int].kernel_stack_bottom as int,
                    context::CANARY_WORDS as int,
                ))
            },
        },
{
    if task >= MAX_TASKS {
        return None;
    }
    let live: bool = match k.sched.tasks[task].state {
        State::Free => false,
        State::Reserved => false,
        _ => true,
    };
    if !live || k.sched.tasks[task].kernel_stack_pages == 0 {
        return None;
    }
    proof {
        assert(kernel::task_mem_ok(k.sched.tasks@[task as int], k.mem@));
    }
    let bottom: u64 = k.sched.tasks[task].kernel_stack_bottom;
    let mut i: u64 = context::CANARY_WORDS;
    while i < 4096 && k.mem.read_word(bottom + 8 * i) == context::PAINTED
        invariant
            context::CANARY_WORDS <= i <= 4096,
            kernel::stack_ok(bottom, context::KERNEL_STACK_PAGES, k.mem@.len() as int),
            untouched_words(k.mem@, bottom as int, context::CANARY_WORDS as int) == i
                - context::CANARY_WORDS + untouched_words(k.mem@, bottom as int, i as int),
        decreases 4096 - i,
    {
        i = i + 1;
    }
    Some((context::KERNEL_STACK_SIZE - i * 8) as usize)
}

/// Initialises the scheduler with task 0, the boot task, running.
pub fn init(ttbr0: u64) -> (s: Scheduler)
    ensures
        s.wf(),
        s.current == 0,
        s.tasks@[0].state == State::Running,
        s.tasks@[0].ttbr0 == ttbr0,
        forall|i: int| 1 <= i < MAX_TASKS ==> spawn::is_vacant(#[trigger] s.tasks@[i]),
        forall|i: int| 0 <= i < MAX_TASKS ==> !(#[trigger] s.pending@[i]).used,
        forall|i: int| 0 <= i < MAX_TASKS ==> #[trigger] s.generations@[i] == 0,
        s.hand_off is None,
        s.init_task == 0,
        s.kernel_ttbr0 == ttbr0,
{
    let mut tasks: Vec<Task> = Vec::new();
    let mut first: Task = spawn::vacant();
    first.ttbr0 = ttbr0;
    first.state = State::Running;
    tasks.push(first);
    while tasks.len() < MAX_TASKS
        invariant
            1 <= tasks@.len() <= MAX_TASKS,
            tasks@[0].shape(),
            tasks@[0].is_empty(),
            tasks@[0].state == State::Running,
            tasks@[0].ttbr0 == ttbr0,
            forall|i: int|
                1 <= i < tasks@.len() ==> spawn::is_vacant(#[trigger] tasks@[i])
                    && tasks@[i].shape(),
        decreases MAX_TASKS - tasks@.len(),
    {
        tasks.push(spawn::vacant());
    }
    let mut pending: Vec<PendingFree> = Vec::new();
    while pending.len() < MAX_TASKS
        invariant
            pending@.len() <= MAX_TASKS,
            forall|i: int| 0 <= i < pending@.len() ==> !(#[trigger] pending@[i]).used,
        decreases MAX_TASKS - pending@.len(),
    {
        pending.push(PendingFree { kernel_stack_bottom: 0, kernel_stack_pages: 0, used: false });
    }
    let s = Scheduler {
        tasks,
        pending,
        current: 0,
        hand_off: None,
        init_task: 0,
        generations: vec![0u32;MAX_TASKS],
        kernel_ttbr0: ttbr0,
    };
    proof {
        context::lemma_waiting_full(s.pending@, MAX_TASKS as int);
        lemma_no_stacks(s.tasks@, MAX_TASKS as int);
    }
    s
}

proof fn lemma_no_stacks(tasks: Seq<Task>, n: int)
    requires
        0 <= n <= tasks.len(),
        forall|i: int| 0 <= i < tasks.len() ==> (#[trigger] tasks[i]).kernel_stack_pages == 0,
    ensures
        context::stacks(tasks, n) == 0,
    decreases n,
{
    if n > 0 {
        lemma_no_stacks(tasks, n - 1);
    }
}

/// The kernel at boot: only the boot task, and no channel.
pub fn boot(
    mem: PhysMem,
    frames: FrameAllocator,
    map: KernelMap,
    ttbr0: u64,
) -> (k: Kernel)
    requires
        frames.wf(),
        frames.count() == frames@.len(),
        addrspace::pool_ok(frames@, mem@.len() as int),
        map.wf(mem@.len() as int, frames@),
    ensures
        k.wf(),
        k.mem == mem,
        k.frames == frames,
        k.map == map,
        k.ipc@.next_id == 0,
        k.ipc@.backlog.len() == 0,
        k.ipc@.trace.len() == 0,
        delivery::settled(k.ipc@),
        forall|i: int| 0 <= i < MAX_TASKS ==> (#[trigger] k.registry.names()[i])@.len() == 0,
        forall|i: int|
            0 <= i < registry::MAX_SERVICES ==> #[trigger] k.registry.records()[i] is None,
        k.metrics@.samples == metrics::Snapshot::zero(),
        k.metrics@.wake_marks == Seq::new(metrics::MAX_TASKS as nat, |i: int| 0u64),
        k.metrics@.surfaces == Seq::new(
            metrics::MAX_SURFACES as nat,
            |i: int| metrics::SurfaceState { seq: 0, damage: metrics::DamageRect::none() },
        ),
        k.metrics@.shell_input == 0,
        k.sched.current == 0,
        k.sched.tasks@[0].state == State::Running,
        k.sched.tasks@[0].ttbr0 == ttbr0,
        k.sched.kernel_ttbr0 == ttbr0,
        k.sched.hand_off is None,
        k.sched.init_task == 0,
        forall|i: int| 1 <= i < MAX_TASKS ==> spawn::is_vacant(#[trigger] k.sched.tasks@[i]),
        forall|i: int| 0 <= i < MAX_TASKS ==> #[trigger] k.sched.generations@[i] == 0,
        forall|i: int| 0 <= i < MAX_TASKS ==> !(#[trigger] k.sched.pending@[i]).used,
{
    let k = Kernel {
        mem,
        frames,
        map,
        ipc: ipc::Ipc::new(),
        sched: init(ttbr0),
        registry: registry::Registry::new(),
        metrics: metrics::Metrics::new(),
    };
    proof {
        assert forall|a: Owner, f: int| #[trigger] kernel::uses(
            k.map,
            k.sched.tasks@,
            k.sched.pending@,
            a,
            f,
        ) implies a == Owner::Table by {
            match a {
                Owner::Space(i) => {
                    if i > 0 {
                        assert(spawn::is_vacant(k.sched.tasks@[i]));
                    }
                },
                Owner::Stack(i) => {
                    if i > 0 {
                        assert(spawn::is_vacant(k.sched.tasks@[i]));
                    }
                },
                Owner::Pending(j) => {},
                Owner::Table => {},
            }
        }
        assert forall|i: int| 0 <= i < k.sched.tasks@.len() implies kernel::task_mem_ok(
            #[trigger] k.sched.tasks@[i],
            k.mem@,
        ) by {
            if i > 0 {
                assert(spawn::is_vacant(k.sched.tasks@[i]));
            }
        }
    }
    k
}

/// Every queue holds the same messages.
pub open spec fn same_queues(v: IpcView, u: IpcView) -> bool {
    &&& u.chans.len() == v.chans.len()
    &&& u.backlog == v.backlog
    &&& u.trace == v.trace
    &&& forall|c: int| 0 <= c < v.chans.len() ==> (#[trigger] u.chans[c]).queue == v.chans[c].queue
}

proof fn lemma_rights_leave_queues(
    v: IpcView,
    hs: Seq<Seq<Option<Slot>>>,
    cur: usize,
    slots: Seq<(u32, Slot)>,
    n: int,
)
    requires
        0 <= n <= slots.len(),
        v.chans.len() == ipc::MAX_CHANNELS,
    ensures
        same_queues(v, all_gone_home(v, hs, cur, slots, n).0),
    decreases n,
{
    if n > 0 {
        lemma_rights_leave_queues(v, hs, cur, slots, n - 1);
        let before = all_gone_home(v, hs, cur, slots, n - 1);
        let slot = slots[n - 1].1;
        lemma_right_leaves_queues(before.0, before.1, cur, slot);
        let u = all_gone_home(v, hs, cur, slots, n).0;
        assert forall|c: int| 0 <= c < v.chans.len() implies (#[trigger] u.chans[c]).queue
            == v.chans[c].queue by {
            assert(before.0.chans[c].queue == v.chans[c].queue);
        }
    }
}

proof fn lemma_right_leaves_queues(
    v: IpcView,
    hs: Seq<Seq<Option<Slot>>>,
    cur: usize,
    slot: Slot,
)
    requires
        v.chans.len() == ipc::MAX_CHANNELS,
    ensures
        same_queues(v, gone_home(v, hs, cur, slot).0),
{
    let u = v.receiver_gone(slot.channel, cur);
    assert(same_queues(v, u));
    let w = u.received_by(slot.channel, ipc::NO_TASK as usize, None);
    assert(same_queues(u, w));
    assert forall|c: int| 0 <= c < v.chans.len() implies (#[trigger] w.chans[c]).queue
        == v.chans[c].queue by {
        assert(u.chans[c].queue == v.chans[c].queue);
    }
}

/// The end of a task is its own: every other task keeps its registers, its
/// address space and its memory, and no message is lost.
pub proof fn law_end_is_contained(k0: Kernel, k1: Kernel, reason: ExitReason, i: int)
    requires
        k0.wf(),
        retired(k0, k1, reason),
        0 <= i < MAX_TASKS,
        i != k0.sched.current,
    ensures
        kernel::same_but_handles(k1.sched.tasks@[i], k0.sched.tasks@[i]),
        k1.mem@ == k0.mem@,
        same_queues(k0.ipc@, k1.ipc@),
{
    let cur = k0.sched.current;
    let t = k0.sched.tasks@[cur as int];
    let v = match t.wait {
        Some(w) => k0.ipc@.cancelled(w.channel, cur),
        None => k0.ipc@,
    };
    let slots = handles::occupied(t.handles@, crate::abi::MAX_HANDLES as int);
    ipc::law_bounds(k0.ipc);
    assert(same_queues(k0.ipc@, v));
    assert forall|c: int| 0 <= c < v.chans.len() implies (#[trigger] k1.ipc@.chans[c]).queue
        == k0.ipc@.chans[c].queue by {
        lemma_rights_leave_queues(v, tables(k0.sched.tasks@), cur, slots, slots.len() as int);
        assert(v.chans[c].queue == k0.ipc@.chans[c].queue);
    }
    lemma_rights_leave_queues(v, tables(k0.sched.tasks@), cur, slots, slots.len() as int);
}

/// A task that has ended is never returned to, and never returns to its sender.
pub proof fn law_ended_task_is_not_returned_to(k0: Kernel, k1: Kernel, reason: ExitReason)
    requires
        retired(k0, k1, reason),
    ensures
        k1.sched.hand_off matches Some(h) ==> h.0 != k0.sched.current && h.1 != k0.sched.current,
{
}

/// A tick always takes turns: no hand-off is returned from across one, so a pair
/// of tasks cannot keep the processor past its time slice.
pub proof fn law_tick_takes_turns(k: Kernel, k1: Kernel, stack_ptr: u64, r: Result<Switch, usize>)
    requires
        context::switched_away(without_hand_off(k), k1, stack_ptr, r),
        r is Ok,
    ensures
        k1.sched.current == context::next_ready(
            context::parked(k.sched.tasks@, k.sched.current as int, stack_ptr),
            k.sched.current as int,
            1,
        ),
        k1.sched.hand_off is None,
{
}

/// One slot given up moves the receive right of its own channel and no other.
proof fn lemma_one_right(
    v: IpcView,
    hs: Seq<Seq<Option<Slot>>>,
    cur: usize,
    slot: Slot,
    c: u32,
    h: u16,
    s: u32,
)
    requires
        v.chans.len() == 32,
        v.live(c),
        hs.len() == 16,
        forall|i: int| 0 <= i < 16 ==> (#[trigger] hs[i]).len() == 16,
        cur < 16,
        h < 16,
        h != cur,
        s < 16,
        hs[h as int][s as int] matches Some(x) && x.channel == c,
    ensures
        ({
            let a = gone_home(v, hs, cur, slot);
            let x = hs[h as int][s as int].unwrap();
            let moved = slot.channel == c && slot.rights.0 & 2 == 2 && v.chans[c as int].receiver
                == cur;
            &&& a.0.chans.len() == 32
            &&& a.0.live(c)
            &&& a.1.len() == 16
            &&& forall|i: int| 0 <= i < 16 ==> (#[trigger] a.1[i]).len() == 16
            &&& !moved ==> a.0.chans[c as int] == v.chans[c as int] && a.1[h as int][s as int]
                == Some(x)
            &&& moved && v.chans[c as int].recv_home == Some((h, s))
                ==> a.0.chans[c as int].receiver == h && a.0.chans[c as int].recv_home is None
                && a.1[h as int][s as int] == Some(
                Slot { channel: c, rights: Rights(x.rights.0 | 2) },
            )
        }),
{
}

/// How far the receive right of channel `c` has come while `n` slots of task `cur`
/// have been given up: it is still out, or it is back in slot `s` of task `h`.
proof fn lemma_right_on_its_way(
    v: IpcView,
    hs: Seq<Seq<Option<Slot>>>,
    cur: usize,
    slots: Seq<(u32, Slot)>,
    n: int,
    c: u32,
    h: u16,
    s: u32,
)
    requires
        0 <= n <= slots.len(),
        v.chans.len() == 32,
        v.live(c),
        hs.len() == 16,
        forall|i: int| 0 <= i < 16 ==> (#[trigger] hs[i]).len() == 16,
        cur < 16,
        h < 16,
        h != cur,
        s < 16,
        v.chans[c as int].receiver == cur,
        v.chans[c as int].recv_home == Some((h, s)),
        hs[h as int][s as int] matches Some(x) && x.channel == c,
    ensures
        ({
            let a = all_gone_home(v, hs, cur, slots, n);
            let x = hs[h as int][s as int].unwrap();
            let y = a.1[h as int][s as int];
            let given = exists|j: int|
                0 <= j < n && (#[trigger] slots[j]).1.channel == c && slots[j].1.rights.0 & 2 == 2;
            &&& a.0.chans.len() == 32
            &&& a.0.live(c)
            &&& a.1.len() == 16
            &&& forall|i: int| 0 <= i < 16 ==> (#[trigger] a.1[i]).len() == 16
            &&& given ==> a.0.chans[c as int].receiver == h && a.0.chans[c as int].recv_home is None
                && y == Some(Slot { channel: c, rights: Rights(x.rights.0 | 2) })
            &&& !given ==> a.0.chans[c as int].receiver == cur && a.0.chans[c as int].recv_home
                == Some((h, s)) && y == Some(x)
        }),
    decreases n,
{
    if n > 0 {
        lemma_right_on_its_way(v, hs, cur, slots, n - 1, c, h, s);
        let b = all_gone_home(v, hs, cur, slots, n - 1);
        let a = all_gone_home(v, hs, cur, slots, n);
        let slot = slots[n - 1].1;
        let before = exists|j: int|
            0 <= j < n - 1 && (#[trigger] slots[j]).1.channel == c && slots[j].1.rights.0 & 2 == 2;
        let after = exists|j: int|
            0 <= j < n && (#[trigger] slots[j]).1.channel == c && slots[j].1.rights.0 & 2 == 2;
        assert(a == gone_home(b.0, b.1, cur, slot));
        lemma_one_right(b.0, b.1, cur, slot, c, h, s);
        if before {
            let j = choose|j: int|
                0 <= j < n - 1 && (#[trigger] slots[j]).1.channel == c && slots[j].1.rights.0 & 2
                    == 2;
            assert(slots[j].1.channel == c);
            assert(after);
        }
        if slot.channel == c && slot.rights.0 & 2 == 2 {
            assert(slots[n - 1].1.channel == c);
            assert(after);
        } else if after {
            let j = choose|j: int|
                0 <= j < n && (#[trigger] slots[j]).1.channel == c && slots[j].1.rights.0 & 2 == 2;
            assert(j < n - 1);
            assert(before);
        }
    }
}

/// When a task ends, the right to receive that it was given goes back to the slot
/// that it came from, so that the channel can be given to the next child; the slot
/// of the task itself is free.
pub proof fn law_rights_come_home(
    k0: Kernel,
    k1: Kernel,
    reason: ExitReason,
    i: int,
    h: u16,
    s: u32,
)
    requires
        k0.wf(),
        retired(k0, k1, reason),
        0 <= i < 16,
        k0.sched.tasks@[k0.sched.current as int].handles@[i] is Some,
        ({
            let cur = k0.sched.current;
            let x = k0.sched.tasks@[cur as int].handles@[i].unwrap();
            &&& x.rights.0 & 2 == 2
            &&& x.channel < k0.ipc@.next_id
            &&& k0.ipc@.chans[x.channel as int].receiver == cur
            &&& k0.ipc@.chans[x.channel as int].recv_home == Some((h, s))
            &&& h < 16 && h != cur && s < 16
            &&& (k0.sched.tasks@[h as int].handles@[s as int] matches Some(y) && y.channel
                == x.channel)
        }),
    ensures
        ({
            let cur = k0.sched.current;
            let c = k0.sched.tasks@[cur as int].handles@[i].unwrap().channel;
            let y = k0.sched.tasks@[h as int].handles@[s as int].unwrap();
            &&& k1.ipc@.chans[c as int].receiver == h
            &&& k1.sched.tasks@[h as int].handles@[s as int] == Some(
                Slot { channel: c, rights: Rights(y.rights.0 | 2) },
            )
            &&& k1.sched.tasks@[cur as int].state == State::Free
            &&& k1.sched.tasks@[cur as int].space is None
        }),
{
    let cur = k0.sched.current;
    let t = k0.sched.tasks@[cur as int];
    let hs = tables(k0.sched.tasks@);
    let v = match t.wait {
        Some(w) => k0.ipc@.cancelled(w.channel, cur),
        None => k0.ipc@,
    };
    let slots = handles::occupied(t.handles@, 16);
    let x = t.handles@[i].unwrap();
    ipc::law_bounds(k0.ipc);
    assert(t.shape());
    assert forall|j: int| 0 <= j < 16 implies (#[trigger] hs[j]).len() == 16 by {
        assert(k0.sched.tasks@[j].shape());
    }
    handles::law_all_are_listed(t.handles@, 16, i);
    lemma_right_on_its_way(v, hs, cur, slots, slots.len() as int, x.channel, h, s);
    let j = choose|j: int| 0 <= j < slots.len() && slots[j] == (i as u32, x);
    assert(slots[j].1.channel == x.channel);
}

/// The deepest use of a stack counts from the first word, above the eight at its
/// end, that no longer holds paint.
pub proof fn law_stack_use(m: Seq<u8>, bottom: int, i: int)
    requires
        0 <= i <= 4096,
    ensures
        0 <= untouched_words(m, bottom, i) <= 4096 - i,
        forall|j: int|
            i <= j < i + untouched_words(m, bottom, i) ==> mem::word(
                m,
                #[trigger] (bottom + 8 * j),
            ) == 0xA5A5_A5A5_A5A5_A5A5,
        i + untouched_words(m, bottom, i) < 4096 ==> mem::word(
            m,
            bottom + 8 * (i + untouched_words(m, bottom, i)),
        ) != 0xA5A5_A5A5_A5A5_A5A5,
    decreases 4096 - i,
{
    if i < 4096 && mem::word(m, bottom + 8 * i) == context::PAINTED {
        law_stack_use(m, bottom, i + 1);
    }
}

/// When a task ends, its memory is free again, its name is gone, its service counts
/// one more exit with the reason and runs no more, and its kernel stack waits.
pub proof fn law_end_gives_back(k0: Kernel, k1: Kernel, reason: ExitReason, f: int, i: int)
    requires
        k0.wf(),
        retired(k0, k1, reason),
        0 <= i < registry::MAX_SERVICES,
    ensures
        ({
            let cur = k0.sched.current;
            let t = k0.sched.tasks@[cur as int];
            let r0 = k0.registry.records()[i];
            let r1 = k1.registry.records()[i];
            &&& t.space is Some && t.space.unwrap().roles().dom().contains(f * 4096)
                ==> k1.frames@.contains(f)
            &&& k0.frames@.contains(f) ==> k1.frames@.contains(f)
            &&& k1.registry.names()[cur as int]@.len() == 0
            &&& r0 is Some && r0.unwrap().task == Some(cur as u16) ==> {
                &&& r1 is Some
                &&& r1.unwrap().task is None
                &&& r1.unwrap().last_exit == Some(reason)
                &&& r1.unwrap().name == r0.unwrap().name
                &&& r1.unwrap().starts == r0.unwrap().starts
                &&& r0.unwrap().exits < u64::MAX ==> r1.unwrap().exits == r0.unwrap().exits + 1
            }
            &&& r0 is Some && r0.unwrap().task != Some(cur as u16) ==> r1 == r0
            &&& t.kernel_stack_pages > 0 && (exists|j: int|
                0 <= j < 16 && !(#[trigger] k0.sched.pending@[j]).used) ==> exists|j: int|
                {
                    &&& 0 <= j < 16
                    &&& (#[trigger] k1.sched.pending@[j]).used
                    &&& k1.sched.pending@[j].kernel_stack_bottom == t.kernel_stack_bottom
                    &&& k1.sched.pending@[j].kernel_stack_pages == t.kernel_stack_pages
                }
        }),
{
    let t = k0.sched.tasks@[k0.sched.current as int];
    let p = k0.sched.pending@;
    if t.kernel_stack_pages > 0 && (exists|j: int| 0 <= j < 16 && !(#[trigger] p[j]).used) {
        let j = choose|j: int| 0 <= j < 16 && !(#[trigger] p[j]).used;
        lemma_first_unused(p, 0, j);
        let u = first_unused(p, 0);
        assert(k1.sched.pending@[u].used);
    }
}

proof fn lemma_first_unused(p: Seq<PendingFree>, from: int, j: int)
    requires
        0 <= from <= j < p.len(),
        !p[j].used,
    ensures
        from <= first_unused(p, from) <= j,
    decreases j - from,
{
    if from < j && p[from].used {
        lemma_first_unused(p, from + 1, j);
    }
}

/// The notice of a task's end says which task of that slot ended and why: 1 for a clean
/// exit, 2 for a fault, 3 for a panic.
pub proof fn law_end_is_announced(msg: Message, id: usize, reason: ExitReason, generation: u32)
    requires
        is_exit_notice(msg, id, reason, generation),
    ensures
        msg.tag == tag::TASK_EXITED,
        msg.sender == 0,
        msg.payload@[0] == id,
        reason is Clean <==> msg.payload@[1] == 1,
        reason is Fault <==> msg.payload@[1] == 2,
        reason is Panic <==> msg.payload@[1] == 3,
        msg.payload@[2] == generation,
        msg.len == 3 * 8,
{
}

/// A stack that already waits still does after another has been queued.
pub proof fn law_stacks_keep_waiting(pending: Seq<PendingFree>, t: Task, i: int, free: int)
    requires
        0 <= i < pending.len(),
        pending[i].used,
        0 <= free < pending.len(),
        !pending[free].used,
    ensures
        stack_queued(pending, t)[i] == pending[i],
        stack_queued(pending, t).len() == pending.len(),
{
    lemma_first_unused(pending, 0, free);
    lemma_first_unused_is_free(pending, 0, free);
}

proof fn lemma_first_unused_is_free(p: Seq<PendingFree>, from: int, j: int)
    requires
        0 <= from <= j < p.len(),
        !p[j].used,
    ensures
        !p[first_unused(p, from)].used,
    decreases j - from,
{
    if from < j && p[from].used {
        lemma_first_unused_is_free(p, from + 1, j);
    }
}

} // verus!
