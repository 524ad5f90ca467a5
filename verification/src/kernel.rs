//! The kernel's whole state and what always holds of it.
use vstd::prelude::*;

use crate::addrspace;
use crate::addrspace::{AddressSpace, KernelMap};
use crate::context::{PendingFree, Scheduler, State, Task};
use crate::context;
use crate::frame_alloc::FrameAllocator;
use crate::ipc::Ipc;
use crate::mem;
use crate::mem::PhysMem;
use crate::metrics::Metrics;
use crate::registry::Registry;

verus! {

/// Everything the kernel keeps.
pub struct Kernel {
    pub mem: PhysMem,
    pub frames: FrameAllocator,
    pub map: KernelMap,
    pub ipc: Ipc,
    pub sched: Scheduler,
    pub registry: Registry,
    pub metrics: Metrics,
}

/// Who uses a frame.
pub enum Owner {
    /// The address space of a task.
    Space(int),
    /// The kernel stack of a task.
    Stack(int),
    /// A kernel stack that waits to be freed.
    Pending(int),
    /// The kernel's own top-level table.
    Table,
}

/// Frame number `f` belongs to the stretch of `pages` frames at `bottom`.
pub open spec fn in_stack(bottom: u64, pages: usize, f: int) -> bool {
    pages > 0 && bottom as int / 4096 <= f < bottom as int / 4096 + pages
}

/// A kernel stack lies in memory, on a page boundary.
pub open spec fn stack_ok(bottom: u64, pages: usize, size: int) -> bool {
    &&& pages == context::KERNEL_STACK_PAGES
    &&& bottom % 4096 == 0
    &&& 0 < bottom
    &&& bottom + context::KERNEL_STACK_SIZE <= 0x1_0000_0000
    &&& bottom + context::KERNEL_STACK_SIZE <= size
}

/// A saved frame's first word lies in the stack at `bottom`.
pub open spec fn sp_ok(sp: u64, bottom: u64) -> bool {
    bottom <= sp && sp + 8 <= bottom + context::KERNEL_STACK_SIZE
}

/// `owner` uses frame number `f`.
pub open spec fn uses(
    map: KernelMap,
    tasks: Seq<Task>,
    pending: Seq<PendingFree>,
    owner: Owner,
    f: int,
) -> bool {
    match owner {
        Owner::Table => map.l1 as int / 4096 <= f && f * 4096 < map.l1 + 8 * map.l1_entries,
        Owner::Space(i) => 0 <= i < tasks.len() && (tasks[i].space matches Some(s)
            && s.roles().dom().contains(f * 4096)),
        Owner::Stack(i) => 0 <= i < tasks.len() && in_stack(
            tasks[i].kernel_stack_bottom,
            tasks[i].kernel_stack_pages,
            f,
        ),
        Owner::Pending(k) => 0 <= k < pending.len() && pending[k].used && in_stack(
            pending[k].kernel_stack_bottom,
            pending[k].kernel_stack_pages,
            f,
        ),
    }
}

/// No frame has two users, and no used frame is free.
pub open spec fn exclusive(
    map: KernelMap,
    tasks: Seq<Task>,
    pending: Seq<PendingFree>,
    free: Set<int>,
) -> bool {
    &&& forall|a: Owner, b: Owner, f: int| #[trigger]
        uses(map, tasks, pending, a, f) && #[trigger] uses(map, tasks, pending, b, f) ==> a == b
    &&& forall|a: Owner, f: int| #[trigger] uses(map, tasks, pending, a, f) ==> !free.contains(f)
}

/// The memory that task `t` stands on is sound.
pub open spec fn task_mem_ok(t: Task, m: Seq<u8>) -> bool {
    &&& t.space matches Some(s) ==> s.wf(m)
    &&& t.kernel_stack_pages > 0 ==> stack_ok(
        t.kernel_stack_bottom,
        t.kernel_stack_pages,
        m.len() as int,
    ) && sp_ok(t.sp, t.kernel_stack_bottom)
}

/// Frames, memory, stacks and spaces fit together.
pub open spec fn memory_ok(
    m: Seq<u8>,
    frames: FrameAllocator,
    map: KernelMap,
    tasks: Seq<Task>,
    pending: Seq<PendingFree>,
) -> bool {
    &&& frames.wf()
    &&& frames.count() == frames@.len()
    &&& addrspace::pool_ok(frames@, m.len() as int)
    &&& map.wf(m.len() as int, frames@)
    &&& forall|i: int| 0 <= i < tasks.len() ==> task_mem_ok(#[trigger] tasks[i], m)
    &&& forall|k: int|
        0 <= k < pending.len() && (#[trigger] pending[k]).used ==> stack_ok(
            pending[k].kernel_stack_bottom,
            pending[k].kernel_stack_pages,
            m.len() as int,
        )
    &&& exclusive(map, tasks, pending, frames@)
}

impl Kernel {
    pub open spec fn mem_ok(&self) -> bool {
        memory_ok(
            self.mem@,
            self.frames,
            self.map,
            self.sched.tasks@,
            self.sched.pending@,
        )
    }

    pub open spec fn wf(&self) -> bool {
        &&& self.sched.wf()
        &&& self.mem_ok()
        &&& self.ipc.wf()
        &&& self.registry.wf()
        &&& self.metrics.wf()
    }

    /// The parts that no scheduling step touches.
    pub open spec fn same_tables(&self, o: Kernel) -> bool {
        &&& self.frames == o.frames
        &&& self.map == o.map
        &&& self.registry == o.registry
    }
}

/// Every user address still leads where it led.
pub open spec fn translations_kept(tasks: Seq<Task>, m: Seq<u8>, n: Seq<u8>) -> bool {
    forall|i: int|
        0 <= i < tasks.len() && (#[trigger] tasks[i]).space is Some ==> forall|va: int, w: bool|
            #[trigger] tasks[i].space.unwrap().spec_translate(n, va, w)
                == tasks[i].space.unwrap().spec_translate(m, va, w)
}

/// Only handle tables differ.
pub open spec fn same_but_handles(t: Task, u: Task) -> bool {
    &&& t.sp == u.sp
    &&& t.kernel_stack_bottom == u.kernel_stack_bottom
    &&& t.kernel_stack_pages == u.kernel_stack_pages
    &&& t.ttbr0 == u.ttbr0
    &&& t.space == u.space
    &&& t.wait == u.wait
    &&& t.state == u.state
}

/// Handles may change hands without touching memory.
pub proof fn lemma_handles_changed(k0: Kernel, s1: Scheduler)
    requires
        k0.wf(),
        s1.same_but_tasks(k0.sched),
        s1.tasks@.len() == k0.sched.tasks@.len(),
        forall|i: int|
            0 <= i < context::MAX_TASKS ==> same_but_handles(
                #[trigger] s1.tasks@[i],
                k0.sched.tasks@[i],
            ) && s1.tasks@[i].handles.wf(),
    ensures
        s1.wf(),
        memory_ok(k0.mem@, k0.frames, k0.map, s1.tasks@, s1.pending@),
{
    let t0 = k0.sched.tasks@;
    let t1 = s1.tasks@;
    assert forall|i: int| 0 <= i < context::MAX_TASKS implies (#[trigger] t1[i]).shape() by {
        assert(t0[i].shape());
        assert(same_but_handles(t1[i], t0[i]));
    }
    assert(same_but_handles(t1[0], t0[0]));
    assert forall|i: int|
        0 <= i < context::MAX_TASKS && (#[trigger] t1[i]).state == State::Running implies i
        == s1.current by {
        assert(same_but_handles(t1[i], t0[i]));
    }
    assert forall|i: int| 0 <= i < t0.len() implies (#[trigger] t1[i]).kernel_stack_pages
        == t0[i].kernel_stack_pages by {
        assert(same_but_handles(t1[i], t0[i]));
    }
    context::lemma_stacks_same(t0, t1, context::MAX_TASKS as int);
    assert forall|i: int|
        0 <= i < t0.len() && (#[trigger] t1[i]).kernel_stack_pages > 0 implies sp_ok(
        t1[i].sp,
        t1[i].kernel_stack_bottom,
    ) by {
        assert(task_mem_ok(t0[i], k0.mem@));
        assert(same_but_handles(t1[i], t0[i]));
    }
    assert forall|i: int| 0 <= i < t0.len() implies (#[trigger] t1[i]).space == t0[i].space
        && t1[i].kernel_stack_bottom == t0[i].kernel_stack_bottom && t1[i].kernel_stack_pages
        == t0[i].kernel_stack_pages && (t1[i].kernel_stack_pages > 0 ==> sp_ok(
        t1[i].sp,
        t1[i].kernel_stack_bottom,
    )) by {
        assert(same_but_handles(t1[i], t0[i]));
    }
    lemma_tasks_kept(k0.mem@, k0.frames, k0.map, t0, t1, s1.pending@);
}

/// Two live tasks with address spaces never share a byte of memory.
pub proof fn law_tasks_isolated(k: Kernel, i: int, j: int, a: int, b: int, v: bool, w: bool)
    requires
        k.wf(),
        0 <= i < context::MAX_TASKS,
        0 <= j < context::MAX_TASKS,
        i != j,
        k.sched.tasks@[i].space is Some,
        k.sched.tasks@[j].space is Some,
        k.sched.tasks@[i].space.unwrap().spec_translate(k.mem@, a, v) is Some,
        k.sched.tasks@[j].space.unwrap().spec_translate(k.mem@, b, w) is Some,
    ensures
        k.sched.tasks@[i].space.unwrap().at(k.mem@, a, v) != k.sched.tasks@[j].space.unwrap().at(
            k.mem@,
            b,
            w,
        ),
{
    let s = k.sched.tasks@[i].space.unwrap();
    let t = k.sched.tasks@[j].space.unwrap();
    assert(task_mem_ok(k.sched.tasks@[i], k.mem@));
    assert(task_mem_ok(k.sched.tasks@[j], k.mem@));
    lemma_spaces_disjoint(k.map, k.sched.tasks@, k.sched.pending@, k.frames@, k.mem@, i, j);
    addrspace::law_spaces_isolated(s, t, k.mem@, a, b, v, w);
}

/// Spaces of different tasks have no frame in common.
pub proof fn lemma_spaces_disjoint(
    map: KernelMap,
    tasks: Seq<Task>,
    pending: Seq<PendingFree>,
    free: Set<int>,
    m: Seq<u8>,
    i: int,
    j: int,
)
    requires
        exclusive(map, tasks, pending, free),
        0 <= i < tasks.len(),
        0 <= j < tasks.len(),
        i != j,
        tasks[i].space is Some,
        tasks[j].space is Some,
        tasks[i].space.unwrap().wf(m),
        tasks[j].space.unwrap().wf(m),
    ensures
        tasks[i].space.unwrap().roles().dom().disjoint(tasks[j].space.unwrap().roles().dom()),
{
    let s = tasks[i].space.unwrap();
    let t = tasks[j].space.unwrap();
    assert forall|x: int| #[trigger] s.roles().dom().contains(x) implies !t.roles().dom().contains(
        x,
    ) by {
        if t.roles().dom().contains(x) {
            assert(AddressSpace::frame_ok(x, m.len() as int));
            let f = x / 4096;
            assert(f * 4096 == x);
            assert(uses(map, tasks, pending, Owner::Space(i), f));
            assert(uses(map, tasks, pending, Owner::Space(j), f));
        }
    }
}

/// Memory that changes only in frames that no space uses as a table keeps
/// everything sound.
pub proof fn lemma_memory_kept(
    m: Seq<u8>,
    n: Seq<u8>,
    frames: FrameAllocator,
    map: KernelMap,
    tasks: Seq<Task>,
    pending: Seq<PendingFree>,
)
    requires
        memory_ok(m, frames, map, tasks, pending),
        m.len() == n.len(),
        forall|i: int, f: int|
            0 <= i < tasks.len() && (#[trigger] tasks[i]).space is Some
                && #[trigger] tasks[i].space.unwrap().is_table(f) ==> mem::same_page(m, n, f),
    ensures
        memory_ok(n, frames, map, tasks, pending),
        translations_kept(tasks, m, n),
{
    assert forall|i: int| 0 <= i < tasks.len() implies task_mem_ok(#[trigger] tasks[i], n) by {
        assert(task_mem_ok(tasks[i], m));
        if tasks[i].space is Some {
            addrspace::lemma_tables_kept(tasks[i].space.unwrap(), m, n);
        }
    }
    assert forall|i: int|
        0 <= i < tasks.len() && (#[trigger] tasks[i]).space is Some implies forall|va: int, w: bool|
        #[trigger] tasks[i].space.unwrap().spec_translate(n, va, w)
            == tasks[i].space.unwrap().spec_translate(m, va, w) by {
        assert(task_mem_ok(tasks[i], m));
        addrspace::lemma_tables_kept(tasks[i].space.unwrap(), m, n);
    }
}

/// Tasks that keep their spaces and stacks keep memory sound.
pub proof fn lemma_tasks_kept(
    m: Seq<u8>,
    frames: FrameAllocator,
    map: KernelMap,
    tasks: Seq<Task>,
    tasks2: Seq<Task>,
    pending: Seq<PendingFree>,
)
    requires
        memory_ok(m, frames, map, tasks, pending),
        tasks2.len() == tasks.len(),
        forall|i: int|
            0 <= i < tasks.len() ==> {
                &&& (#[trigger] tasks2[i]).space == tasks[i].space
                &&& tasks2[i].kernel_stack_bottom == tasks[i].kernel_stack_bottom
                &&& tasks2[i].kernel_stack_pages == tasks[i].kernel_stack_pages
                &&& tasks2[i].kernel_stack_pages > 0 ==> sp_ok(
                    tasks2[i].sp,
                    tasks2[i].kernel_stack_bottom,
                )
            },
    ensures
        memory_ok(m, frames, map, tasks2, pending),
{
    assert forall|i: int| 0 <= i < tasks2.len() implies task_mem_ok(#[trigger] tasks2[i], m) by {
        assert(task_mem_ok(tasks[i], m));
    }
    assert forall|a: Owner, f: int| #[trigger] uses(map, tasks2, pending, a, f) == uses(
        map,
        tasks,
        pending,
        a,
        f,
    ) by {
        match a {
            Owner::Space(i) => {
                if 0 <= i < tasks.len() {
                    assert(tasks2[i].space == tasks[i].space);
                }
            },
            Owner::Stack(i) => {
                if 0 <= i < tasks.len() {
                    assert(tasks2[i].kernel_stack_bottom == tasks[i].kernel_stack_bottom);
                }
            },
            Owner::Pending(k) => {},
            Owner::Table => {},
        }
    }
    assert forall|a: Owner, b: Owner, f: int| #[trigger]
        uses(map, tasks2, pending, a, f) && #[trigger] uses(map, tasks2, pending, b, f) implies a == b by {
        assert(uses(map, tasks, pending, a, f));
        assert(uses(map, tasks, pending, b, f));
    }
    assert forall|a: Owner, f: int| #[trigger] uses(map, tasks2, pending, a, f) implies !frames@.contains(
        f,
    ) by {
        assert(uses(map, tasks, pending, a, f));
    }
}

} // verus!
