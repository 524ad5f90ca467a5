//! The scheduler of the PC: preemptive round-robin, each task with page tables
//! of its own.
use vstd::prelude::*;

use crate::bytes;
use crate::frame_alloc;
use crate::frame_alloc::FrameAllocator;
use crate::mem;
use crate::mem::PhysMem;
use crate::paging;
use crate::paging::KernelPages;

verus! {

pub const MAX_TASKS: usize = 16;

pub const TASK_STACK_SIZE: u64 = 0x4000;

pub const KERNEL_STACK_SIZE: u64 = 0x4000;

/// Four frames make a stack.
pub const STACK_PAGES: usize = 4;

pub const USER_DATA_SEL: u64 = 0x1B;

pub const USER_CODE_SEL: u64 = 0x23;

/// Interrupts are on.
pub const INITIAL_FLAGS: u64 = 0x202;

/// How much code around its entry point a task may use.
pub const CODE_WINDOW: u64 = 0x80_0000;

/// A task has at most this many regions.
pub const MAX_REGIONS: usize = 8;

#[derive(Clone, Copy, Debug, PartialEq, Eq, Structural)]
pub enum State {
    Free,
    Ready,
    Running,
    Blocked,
}

#[derive(Clone, Copy, Debug, PartialEq, Eq, Structural)]
pub struct Task {
    pub rsp: u64,
    pub kernel_stack_top: u64,
    /// The task's top page table.
    pub pml4_phys: u64,
    pub state: State,
}

pub struct Scheduler {
    pub tasks: Vec<Task>,
    pub current: usize,
    pub count: usize,
}

pub open spec fn no_task() -> Task {
    Task { rsp: 0, kernel_stack_top: 0, pml4_phys: 0, state: State::Free }
}

/// What the processor is set to for the task that runs next.
#[derive(Clone, Copy, Debug, PartialEq, Eq, Structural)]
pub struct Tick {
    pub rsp: u64,
    /// The page tables to load, where they change.
    pub cr3: Option<u64>,
    /// The stack for entries from user code by an interrupt, where the task has
    /// one.
    pub rsp0: Option<u64>,
    /// The stack for system calls.
    pub kernel_rsp: u64,
}

impl Scheduler {
    pub open spec fn wf(&self) -> bool {
        &&& self.tasks@.len() == MAX_TASKS
        &&& 1 <= self.count <= MAX_TASKS
        &&& self.current < self.count
    }
}

/// The interrupted task is ready again, unless it is blocked.
pub open spec fn parked(tasks: Seq<Task>, cur: int, rsp: u64) -> Seq<Task> {
    let t = tasks[cur];
    tasks.update(
        cur,
        Task {
            rsp,
            state: if t.state == State::Running {
                State::Ready
            } else {
                t.state
            },
            ..t
        },
    )
}

/// The first ready task from `next` on, in turn, among the `left` that were not
/// looked at; past the last one, where the search began.
pub open spec fn search(tasks: Seq<Task>, count: int, next: int, left: int) -> int
    decreases left,
{
    if left <= 0 || tasks[next].state == State::Ready {
        next
    } else {
        search(tasks, count, (next + 1) % count, left - 1)
    }
}

/// The task that runs after `cur`.
pub open spec fn next_task(tasks: Seq<Task>, cur: int, count: int) -> int {
    search(tasks, count, (cur + 1) % count, count)
}

proof fn lemma_search(tasks: Seq<Task>, count: int, next: int, left: int)
    requires
        0 < count,
        0 <= next < count,
    ensures
        0 <= search(tasks, count, next, left) < count,
        forall|s: int|
            0 <= s < left && (#[trigger] tasks[(next + s) % count]).state == State::Ready ==> tasks[search(
                tasks,
                count,
                next,
                left,
            )].state == State::Ready,
    decreases left,
{
    if left > 0 && tasks[next].state != State::Ready {
        let n = (next + 1) % count;
        lemma_search(tasks, count, n, left - 1);
        assert forall|s: int|
            0 <= s < left && (#[trigger] tasks[(next + s) % count]).state
                == State::Ready implies tasks[search(tasks, count, next, left)].state
            == State::Ready by {
            if s == 0 {
                vstd::arithmetic::div_mod::lemma_small_mod(next as nat, count as nat);
            } else {
                vstd::arithmetic::div_mod::lemma_add_mod_noop(next + 1, s - 1, count);
                vstd::arithmetic::div_mod::lemma_add_mod_noop(n, s - 1, count);
                vstd::arithmetic::div_mod::lemma_mod_twice(next + 1, count);
                assert((n + (s - 1)) % count == (next + s) % count);
                assert(tasks[(n + (s - 1)) % count].state == State::Ready);
            }
        }
    } else if left > 0 {
        vstd::arithmetic::div_mod::lemma_small_mod(next as nat, count as nat);
    }
}

/// If any task is ready, a ready one runs next.
pub proof fn law_ready_task_runs(tasks: Seq<Task>, cur: int, count: int, ready: int)
    requires
        0 <= cur < count,
        0 <= ready < count,
        tasks[ready].state == State::Ready,
    ensures
        0 <= next_task(tasks, cur, count) < count,
        tasks[next_task(tasks, cur, count)].state == State::Ready,
{
    let next = (cur + 1) % count;
    lemma_search(tasks, count, next, count);
    let s = (ready - next) % count;
    assert((next + s) % count == ready) by {
        vstd::arithmetic::div_mod::lemma_add_mod_noop(next, ready - next, count);
        vstd::arithmetic::div_mod::lemma_add_mod_noop(next, s, count);
        vstd::arithmetic::div_mod::lemma_mod_twice(ready - next, count);
        vstd::arithmetic::div_mod::lemma_small_mod(ready as nat, count as nat);
    }
    assert(tasks[(next + s) % count].state == State::Ready);
}

/// Registers task 0, which runs when nothing else does, on the kernel's page
/// tables.
pub fn init(kernel_pml4: u64) -> (s: Scheduler)
    ensures
        s.wf(),
        s.current == 0,
        s.count == 1,
        s.tasks@[0] == (Task {
            rsp: 0,
            kernel_stack_top: 0,
            pml4_phys: kernel_pml4,
            state: State::Running,
        }),
        forall|i: int| 1 <= i < MAX_TASKS ==> #[trigger] s.tasks@[i] == no_task(),
{
    let empty: Task = Task { rsp: 0, kernel_stack_top: 0, pml4_phys: 0, state: State::Free };
    let mut tasks: Vec<Task> = vec![empty; MAX_TASKS];
    tasks[0] = Task { rsp: 0, kernel_stack_top: 0, pml4_phys: kernel_pml4, state: State::Running };
    Scheduler { tasks, current: 0, count: 1 }
}

/// A timer tick: the interrupted task is parked, and the next ready one runs.
pub fn scheduler_tick(s: &mut Scheduler, stack_ptr: u64) -> (r: Tick)
    requires
        old(s).wf(),
    ensures
        final(s).wf(),
        ({
            let cur = old(s).current as int;
            let ready = parked(old(s).tasks@, cur, stack_ptr);
            let next = next_task(ready, cur, old(s).count as int);
            let t = ready[next];
            &&& final(s).current == next
            &&& final(s).count == old(s).count
            &&& final(s).tasks@ == ready.update(next, (Task { state: State::Running, ..t }))
            &&& r.rsp == t.rsp
            &&& r.kernel_rsp == t.kernel_stack_top
            &&& r.rsp0 == if t.kernel_stack_top == 0 {
                None
            } else {
                Some(t.kernel_stack_top)
            }
            &&& r.cr3 == if next != cur && t.pml4_phys != 0 {
                Some(t.pml4_phys)
            } else {
                None
            }
        }),
{
    let cur: usize = s.current;
    let count: usize = s.count;
    s.tasks[cur].rsp = stack_ptr;
    if s.tasks[cur].state == State::Running {
        s.tasks[cur].state = State::Ready;
    }
    assert(s.tasks@ =~= parked(old(s).tasks@, cur as int, stack_ptr));
    let ghost ready = s.tasks@;
    let mut next: usize = (cur + 1) % count;
    let mut left: usize = count;
    while left > 0 && s.tasks[next].state != State::Ready
        invariant
            s.tasks@ == ready,
            ready.len() == MAX_TASKS,
            1 <= count <= MAX_TASKS,
            next < count,
            left <= count,
            next_task(ready, cur as int, count as int) == search(
                ready,
                count as int,
                next as int,
                left as int,
            ),
        decreases left,
    {
        next = (next + 1) % count;
        left = left - 1;
    }
    s.tasks[next].state = State::Running;
    s.current = next;
    assert(s.tasks@ =~= ready.update(
        next as int,
        Task { state: State::Running, ..ready[next as int] },
    ));
    let t: Task = s.tasks[next];
    Tick {
        rsp: t.rsp,
        cr3: if next != cur && t.pml4_phys != 0 {
            Some(t.pml4_phys)
        } else {
            None
        },
        rsp0: if t.kernel_stack_top == 0 {
            None
        } else {
            Some(t.kernel_stack_top)
        },
        kernel_rsp: t.kernel_stack_top,
    }
}

pub fn task_count(s: &Scheduler) -> (n: usize)
    ensures
        n == s.count,
{
    s.count
}

pub fn current_task(s: &Scheduler) -> (n: usize)
    ensures
        n == s.current,
{
    s.current
}

/// Blocks the current task, which then waits for the next tick.
pub fn block_current(s: &mut Scheduler)
    requires
        old(s).wf(),
    ensures
        final(s).wf(),
        final(s).current == old(s).current,
        final(s).count == old(s).count,
        final(s).tasks@ == old(s).tasks@.update(
            old(s).current as int,
            (Task { state: State::Blocked, ..old(s).tasks@[old(s).current as int] }),
        ),
{
    let cur: usize = s.current;
    s.tasks[cur].state = State::Blocked;
    assert(s.tasks@ =~= old(s).tasks@.update(
        cur as int,
        Task { state: State::Blocked, ..old(s).tasks@[cur as int] },
    ));
}

/// Makes a blocked task ready; any other is left alone.
pub fn unblock(s: &mut Scheduler, task_id: usize)
    requires
        old(s).wf(),
    ensures
        final(s).wf(),
        final(s).current == old(s).current,
        final(s).count == old(s).count,
        final(s).tasks@ == if task_id < MAX_TASKS && old(s).tasks@[task_id as int].state
            == State::Blocked {
            old(s).tasks@.update(
                task_id as int,
                (Task { state: State::Ready, ..old(s).tasks@[task_id as int] }),
            )
        } else {
            old(s).tasks@
        },
{
    if task_id < MAX_TASKS && s.tasks[task_id].state == State::Blocked {
        s.tasks[task_id].state = State::Ready;
        assert(s.tasks@ =~= old(s).tasks@.update(
            task_id as int,
            Task { state: State::Ready, ..old(s).tasks@[task_id as int] },
        ));
    }
}

/// The regions of `extra` among the first `n` that are not empty.
pub open spec fn nonempty(extra: Seq<(u64, u64)>, n: int) -> Seq<(u64, u64)>
    decreases n,
{
    if n <= 0 {
        Seq::empty()
    } else if extra[n - 1].1 > 0 {
        nonempty(extra, n - 1).push(extra[n - 1])
    } else {
        nonempty(extra, n - 1)
    }
}

/// The regions that a task may use: its stack, the code around its entry point,
/// and the extra ones, as many as fit.
pub open spec fn task_regions(user_stack: u64, entry: u64, extra: Seq<(u64, u64)>) -> Seq<
    (u64, u64),
> {
    let more = nonempty(extra, extra.len() as int);
    seq![
        (user_stack, TASK_STACK_SIZE),
        ((entry / 0x20_0000 * 0x20_0000) as u64, CODE_WINDOW),
    ] + if more.len() > MAX_REGIONS - 2 {
        more.take(MAX_REGIONS - 2)
    } else {
        more
    }
}

/// The frame from which the first switch to a task enters user code: its
/// segments, its stack, flags, entry point, and 15 registers that are 0.
pub open spec fn first_frame(m: Seq<u8>, top: u64, user_stack_top: u64, entry: u64) -> bool {
    &&& mem::word(m, top - 8) == USER_DATA_SEL
    &&& mem::word(m, top - 16) == user_stack_top
    &&& mem::word(m, top - 24) == INITIAL_FLAGS
    &&& mem::word(m, top - 32) == USER_CODE_SEL
    &&& mem::word(m, top - 40) == entry
    &&& forall|i: int| 6 <= i <= 20 ==> #[trigger] mem::word(m, top - 8 * i) == 0
}

fn collect_regions(user_stack: u64, entry: u64, extra: &[(u64, u64)]) -> (r: Vec<(u64, u64)>)
    ensures
        r@ == task_regions(user_stack, entry, extra@),
{
    let mut r: Vec<(u64, u64)> = Vec::new();
    r.push((user_stack, TASK_STACK_SIZE));
    r.push((entry / 0x20_0000 * 0x20_0000, CODE_WINDOW));
    let ghost head = r@;
    assert(head =~= seq![
        (user_stack, TASK_STACK_SIZE),
        ((entry / 0x20_0000 * 0x20_0000) as u64, CODE_WINDOW),
    ]);
    let mut n: usize = 0;
    let ghost cap: int = MAX_REGIONS - 2;
    while n < extra.len()
        invariant
            n <= extra@.len(),
            head.len() == 2,
            cap == 6,
            r@ == head + (if nonempty(extra@, n as int).len() > cap {
                nonempty(extra@, n as int).take(cap)
            } else {
                nonempty(extra@, n as int)
            }),
        decreases extra@.len() - n,
    {
        let ghost before = nonempty(extra@, n as int);
        let ghost rb = r@;
        if r.len() < MAX_REGIONS && extra[n].1 > 0 {
            r.push(extra[n]);
        }
        n = n + 1;
        proof {
            let after = nonempty(extra@, n as int);
            assert(r@ =~= head + (if after.len() > cap {
                after.take(cap)
            } else {
                after
            }));
        }
    }
    r
}

fn write_frame(m: &mut PhysMem, top: u64, user_stack_top: u64, entry: u64)
    requires
        160 <= top,
        top <= old(m)@.len(),
    ensures
        final(m)@.len() == old(m)@.len(),
        first_frame(final(m)@, top, user_stack_top, entry),
        forall|i: int|
            0 <= i < old(m)@.len() && !(top - 160 <= i < top) ==> #[trigger] final(m)@[i] == old(m)@[i],
{
    let ghost m0 = m@;
    m.zero(top - 160, 160);
    let ghost m1 = m@;
    m.write_word(top - 8, USER_DATA_SEL);
    let ghost m2 = m@;
    m.write_word(top - 16, user_stack_top);
    let ghost m3 = m@;
    m.write_word(top - 24, INITIAL_FLAGS);
    let ghost m4 = m@;
    m.write_word(top - 32, USER_CODE_SEL);
    let ghost m5 = m@;
    m.write_word(top - 40, entry);
    proof {
        bytes::lemma_le_bytes_len(USER_DATA_SEL as int, 8);
        bytes::lemma_le_bytes_len(user_stack_top as int, 8);
        bytes::lemma_le_bytes_len(INITIAL_FLAGS as int, 8);
        bytes::lemma_le_bytes_len(USER_CODE_SEL as int, 8);
        bytes::lemma_le_bytes_len(entry as int, 8);
        mem::lemma_word_written(m1, top - 8, USER_DATA_SEL);
        mem::lemma_word_elsewhere(m2, top - 16, user_stack_top, top - 8);
        mem::lemma_word_written(m2, top - 16, user_stack_top);
        mem::lemma_word_elsewhere(m3, top - 24, INITIAL_FLAGS, top - 8);
        mem::lemma_word_elsewhere(m3, top - 24, INITIAL_FLAGS, top - 16);
        mem::lemma_word_written(m3, top - 24, INITIAL_FLAGS);
        mem::lemma_word_elsewhere(m4, top - 32, USER_CODE_SEL, top - 8);
        mem::lemma_word_elsewhere(m4, top - 32, USER_CODE_SEL, top - 16);
        mem::lemma_word_elsewhere(m4, top - 32, USER_CODE_SEL, top - 24);
        mem::lemma_word_written(m4, top - 32, USER_CODE_SEL);
        mem::lemma_word_elsewhere(m5, top - 40, entry, top - 8);
        mem::lemma_word_elsewhere(m5, top - 40, entry, top - 16);
        mem::lemma_word_elsewhere(m5, top - 40, entry, top - 24);
        mem::lemma_word_elsewhere(m5, top - 40, entry, top - 32);
        mem::lemma_word_written(m5, top - 40, entry);
        assert forall|i: int| 6 <= i <= 20 implies #[trigger] mem::word(m@, top - 8 * i) == 0 by {
            mem::lemma_word_zero(m@, top - 8 * i);
        }
    }
}

/// Some frames of `free0` were taken, and a table or stack there lies in memory.
pub open spec fn stack_taken(bottom: u64, free0: Set<int>, size: int) -> bool {
    &&& bottom % 4096 == 0
    &&& frame_alloc::run(bottom as int / 4096, STACK_PAGES as int).subset_of(free0)
    &&& bottom + 4096 * STACK_PAGES <= size
}

/// A user task was started: it has a stack, a kernel stack with the frame that
/// enters user code, and page tables that open its own regions.
pub open spec fn user_started(
    s0: Scheduler,
    s1: Scheduler,
    m0: Seq<u8>,
    m1: Seq<u8>,
    free0: Set<int>,
    free1: Set<int>,
    k: KernelPages,
    entry: u64,
    extra: Seq<(u64, u64)>,
    user_stack: u64,
) -> bool {
    let id = s0.count as int;
    let t = s1.tasks@[id];
    let bottom = (t.kernel_stack_top - KERNEL_STACK_SIZE) as u64;
    &&& s1.count == s0.count + 1
    &&& s1.current == s0.current
    &&& s1.tasks@ == s0.tasks@.update(id, t)
    &&& t.state == State::Ready
    &&& t.rsp == t.kernel_stack_top - 160
    &&& stack_taken(user_stack, free0, m0.len() as int)
    &&& KERNEL_STACK_SIZE <= t.kernel_stack_top
    &&& stack_taken(bottom, free0, m0.len() as int)
    &&& user_stack + TASK_STACK_SIZE <= bottom || t.kernel_stack_top <= user_stack
    &&& first_frame(
        m1,
        t.kernel_stack_top,
        (user_stack + TASK_STACK_SIZE) as u64,
        entry,
    )
    &&& paging::user_map(m1, t.pml4_phys, m0, k, task_regions(user_stack, entry, extra))
    &&& free1.subset_of(free0)
    &&& k.wf(m1, free1)
    &&& paging::closed_to_users(m0, k) ==> paging::closed_to_users(m1, k)
    &&& paging::only_free(m0, m1, free0)
}

proof fn lemma_stack_in_memory(free: Set<int>, size: int, bottom: u64)
    requires
        paging::frames_in(free, size),
        bottom % 4096 == 0,
        frame_alloc::run(bottom as int / 4096, STACK_PAGES as int).subset_of(free),
    ensures
        stack_taken(bottom, free, size),
{
    let last = bottom as int / 4096 + 3;
    assert(frame_alloc::run(bottom as int / 4096, STACK_PAGES as int).contains(last));
    assert(free.contains(last));
}

proof fn lemma_nonempty_from(extra: Seq<(u64, u64)>, n: int)
    requires
        0 <= n <= extra.len(),
        forall|r: int| 0 <= r < extra.len() ==> (#[trigger] extra[r]).0 + extra[r].1 <= u64::MAX,
    ensures
        forall|r: int|
            0 <= r < nonempty(extra, n).len() ==> (#[trigger] nonempty(extra, n)[r]).0 + nonempty(
                extra,
                n,
            )[r].1 <= u64::MAX,
    decreases n,
{
    if n > 0 {
        lemma_nonempty_from(extra, n - 1);
        let before = nonempty(extra, n - 1);
        let all = nonempty(extra, n);
        assert forall|r: int| 0 <= r < all.len() implies (#[trigger] all[r]).0 + all[r].1
            <= u64::MAX by {
            if r < before.len() {
                assert(all[r] == before[r]);
            } else {
                assert(all[r] == extra[n - 1]);
            }
        }
    }
}

/// Starts a user task with page tables of its own. `extra_regions` (start and
/// size) are opened to it as well. None where the frames run out.
pub fn spawn_user(
    s: &mut Scheduler,
    m: &mut PhysMem,
    fa: &mut FrameAllocator,
    k: &KernelPages,
    entry: u64,
    extra_regions: &[(u64, u64)],
) -> (r: Option<usize>)
    requires
        old(s).wf(),
        old(s).count < MAX_TASKS,
        old(fa).wf(),
        paging::frames_in(old(fa)@, old(m)@.len() as int),
        old(m)@.len() <= 0x10_0000_0000_0000,
        k.wf(old(m)@, old(fa)@),
        entry + CODE_WINDOW <= u64::MAX,
        forall|r: int|
            0 <= r < extra_regions@.len() ==> (#[trigger] extra_regions@[r]).0 + extra_regions@[r].1 <= u64::MAX,
    ensures
        final(s).wf(),
        final(fa).wf(),
        match r {
            Some(id) => {
                &&& id == old(s).count
                &&& exists|user_stack: u64| #[trigger]
                    user_started(
                        *old(s),
                        *final(s),
                        old(m)@,
                        final(m)@,
                        old(fa)@,
                        final(fa)@,
                        *k,
                        entry,
                        extra_regions@,
                        user_stack,
                    )
            },
            None => {
                &&& final(s).tasks@ == old(s).tasks@
                &&& final(s).count == old(s).count
                &&& final(s).current == old(s).current
                &&& {
                    ||| old(fa)@.len() < 14
                    ||| forall|t: int| !#[trigger] frame_alloc::run(t, 4).subset_of(old(fa)@)
                    ||| exists|t: int| #[trigger]
                        frame_alloc::run(t, 4).subset_of(old(fa)@) && forall|u: int|
                            !#[trigger] frame_alloc::run(u, 4).subset_of(
                                old(fa)@.difference(frame_alloc::run(t, 4)),
                            )
                }
            },
        },
{
    let id: usize = s.count;
    let ghost m0 = m@;
    let ghost size = m@.len() as int;
    let ghost free0 = fa@;
    let ghost xs = extra_regions@;
    proof {
        m.lemma_size();
        frame_alloc::lemma_free_finite(*fa);
    }
    let user_stack: u64 = match frame_alloc::allocate_contiguous(fa, STACK_PAGES) {
        None => {
            return None;
        },
        Some(b) => b,
    };
    let ghost free1 = fa@;
    proof {
        lemma_stack_in_memory(free0, size, user_stack);
        assert(frame_alloc::run(user_stack as int / 4096, 4).subset_of(free0));
    }
    let bottom: u64 = match frame_alloc::allocate_contiguous(fa, STACK_PAGES) {
        None => {
            return None;
        },
        Some(b) => b,
    };
    let ghost free2 = fa@;
    let ghost runs = frame_alloc::run(bottom as int / 4096, 4);
    proof {
        assert(runs.subset_of(free0));
        lemma_stack_in_memory(free0, size, bottom);
        let u = user_stack as int / 4096;
        let b = bottom as int / 4096;
        assert(u + 4 <= b || b + 4 <= u) by {
            if b < u + 4 && u < b + 4 {
                let x = if u <= b {
                    b
                } else {
                    u
                };
                assert(runs.contains(x));
                assert(free1.contains(x));
                assert(frame_alloc::run(u, 4).contains(x));
            }
        }
    }
    let top: u64 = bottom + KERNEL_STACK_SIZE;
    write_frame(m, top, user_stack + TASK_STACK_SIZE, entry);
    let ghost m1 = m@;
    proof {
        assert(paging::only_free(m0, m1, runs)) by {
            assert forall|i: int| 0 <= i < m0.len() && !runs.contains(i / 4096) implies #[trigger] m1[i]
                == m0[i] by {
                if top - 160 <= i < top {
                    assert(i / 4096 == bottom as int / 4096 + 3);
                }
            }
        }
        let kpdpt = paging::address(paging::entry(m0, k.pml4, 0));
        paging::lemma_outside(m0, m1, runs, k.pml4);
        paging::lemma_outside(m0, m1, runs, kpdpt);
        assert(paging::entry(m1, k.pml4, 0) == paging::entry(m0, k.pml4, 0));
        assert(k.wf(m1, free2));
    }
    let regions: Vec<(u64, u64)> = collect_regions(user_stack, entry, extra_regions);
    proof {
        lemma_nonempty_from(xs, xs.len() as int);
        assert forall|r: int| 0 <= r < regions@.len() implies (#[trigger] regions@[r]).0
            + regions@[r].1 <= u64::MAX by {
            let more = nonempty(xs, xs.len() as int);
            if r >= 2 {
                assert(regions@[r] == more[r - 2]);
            }
        }
    }
    let pml4: u64 = match paging::create_user_page_table(m, fa, k, regions.as_slice()) {
        None => {
            proof {
                lemma_two_runs(free0, free1, free2, user_stack as int / 4096, bottom as int / 4096);
            }
            return None;
        },
        Some(t) => t,
    };
    let t: Task = Task {
        rsp: top - 160,
        kernel_stack_top: top,
        pml4_phys: pml4,
        state: State::Ready,
    };
    s.tasks[id] = t;
    s.count = id + 1;
    proof {
        let n = m@;
        let rs = task_regions(user_stack, entry, xs);
        let taken = free2.difference(fa@);
        let kpdpt = paging::address(paging::entry(m0, k.pml4, 0));
        assert(paging::only_free(m1, n, taken));
        assert forall|i: int| top - 160 <= i < top implies #[trigger] n[i] == m1[i] by {
            assert(runs.contains(i / 4096));
            assert(!free2.contains(i / 4096));
        }
        lemma_frame_kept(m1, n, top, (user_stack + TASK_STACK_SIZE) as u64, entry);
        assert forall|i: int| 0 <= i < m0.len() && !free0.contains(i / 4096) implies #[trigger] n[i]
            == m0[i] by {
            assert(!runs.contains(i / 4096));
            assert(m1[i] == m0[i]);
        }
        assert(paging::user_map(n, pml4, m1, *k, rs));
        paging::lemma_outside(m0, m1, runs, k.pml4);
        paging::lemma_outside(m0, m1, runs, kpdpt);
        lemma_user_map_of(n, pml4, m1, m0, *k, rs);
        assert(user_started(
            *old(s),
            *s,
            m0,
            n,
            free0,
            fa@,
            *k,
            entry,
            xs,
            user_stack,
        ));
    }
    Some(id)
}

proof fn lemma_two_runs(free0: Set<int>, free1: Set<int>, free2: Set<int>, a: int, b: int)
    requires
        free0.finite(),
        free1 == free0.difference(frame_alloc::run(a, 4)),
        free2 == free1.difference(frame_alloc::run(b, 4)),
        free2.len() < 6,
    ensures
        free0.len() < 14,
{
    let ra = vstd::set_lib::set_int_range(a, a + 4);
    let rb = vstd::set_lib::set_int_range(b, b + 4);
    vstd::set_lib::lemma_int_range(a, a + 4);
    vstd::set_lib::lemma_int_range(b, b + 4);
    assert(frame_alloc::run(a, 4) =~= ra);
    assert(frame_alloc::run(b, 4) =~= rb);
    assert(free0.subset_of(free2.union(rb).union(ra)));
    vstd::set_lib::lemma_len_union(free2, rb);
    vstd::set_lib::lemma_len_union(free2.union(rb), ra);
    vstd::set_lib::lemma_len_subset(free0, free2.union(rb).union(ra));
}

proof fn lemma_frame_kept(m: Seq<u8>, n: Seq<u8>, top: u64, user_stack_top: u64, entry: u64)
    requires
        160 <= top,
        first_frame(m, top, user_stack_top, entry),
        forall|i: int| top - 160 <= i < top ==> #[trigger] n[i] == m[i],
    ensures
        first_frame(n, top, user_stack_top, entry),
{
    assert forall|i: int| 1 <= i <= 20 implies #[trigger] mem::word(n, top - 8 * i) == mem::word(
        m,
        top - 8 * i,
    ) by {
        mem::lemma_word_same(n, m, top - 8 * i);
    }
    assert(mem::word(n, top - 8 * 1) == mem::word(m, top - 8 * 1));
    assert(mem::word(n, top - 8 * 2) == mem::word(m, top - 8 * 2));
    assert(mem::word(n, top - 8 * 3) == mem::word(m, top - 8 * 3));
    assert(mem::word(n, top - 8 * 4) == mem::word(m, top - 8 * 4));
    assert(mem::word(n, top - 8 * 5) == mem::word(m, top - 8 * 5));
}

/// Which of two memories with the same kernel tables a user map was made from
/// makes no difference.
proof fn lemma_user_map_of(
    n: Seq<u8>,
    pml4: u64,
    m1: Seq<u8>,
    m0: Seq<u8>,
    k: KernelPages,
    rs: Seq<(u64, u64)>,
)
    requires
        paging::user_map(n, pml4, m1, k, rs),
        forall|i: int|
            0 <= i < 512 ==> #[trigger] paging::entry(m1, k.pml4, i) == paging::entry(m0, k.pml4, i),
        forall|i: int|
            0 <= i < 512 ==> #[trigger] paging::entry(
                m1,
                paging::address(paging::entry(m0, k.pml4, 0)),
                i,
            ) == paging::entry(m0, paging::address(paging::entry(m0, k.pml4, 0)), i),
    ensures
        paging::user_map(n, pml4, m0, k, rs),
{
    assert(paging::entry(m1, k.pml4, 0) == paging::entry(m0, k.pml4, 0));
}

/// The next task is the nearest ready one, going round from the one that leaves.
pub proof fn law_nearest_ready(tasks: Seq<Task>, count: int, next: int, left: int, s: int)
    requires
        0 < count,
        0 <= next < count,
        0 <= s < left,
        tasks[(next + s) % count].state == State::Ready,
    ensures
        exists|t: int|
            0 <= t <= s && search(tasks, count, next, left) == #[trigger] ((next + t) % count)
                && tasks[(next + t) % count].state == State::Ready,
    decreases left,
{
    vstd::arithmetic::div_mod::lemma_small_mod(next as nat, count as nat);
    if tasks[next].state == State::Ready {
        assert((next + 0) % count == next);
    } else {
        let n = (next + 1) % count;
        assert(s > 0);
        assert forall|k: int| k >= 0 implies (#[trigger] ((n + k) % count)) == (next + (k + 1))
            % count by {
            vstd::arithmetic::div_mod::lemma_add_mod_noop(next + 1, k, count);
            vstd::arithmetic::div_mod::lemma_add_mod_noop(n, k, count);
            vstd::arithmetic::div_mod::lemma_mod_twice(next + 1, count);
        }
        assert((n + (s - 1)) % count == (next + s) % count);
        law_nearest_ready(tasks, count, n, left - 1, s - 1);
        let t = choose|t: int|
            0 <= t <= s - 1 && search(tasks, count, n, left - 1) == #[trigger] ((n + t) % count)
                && tasks[(n + t) % count].state == State::Ready;
        assert((n + t) % count == (next + (t + 1)) % count);
    }
}

/// The task that is interrupted keeps its stack pointer, and is ready unless it
/// blocked; no other task changes.
pub proof fn law_parked(tasks: Seq<Task>, cur: int, rsp: u64, i: int)
    requires
        0 <= cur < tasks.len(),
        0 <= i < tasks.len(),
        i != cur,
    ensures
        parked(tasks, cur, rsp)[cur].rsp == rsp,
        parked(tasks, cur, rsp)[cur].pml4_phys == tasks[cur].pml4_phys,
        tasks[cur].state == State::Running ==> parked(tasks, cur, rsp)[cur].state == State::Ready,
        tasks[cur].state != State::Running ==> parked(tasks, cur, rsp)[cur].state
            == tasks[cur].state,
        parked(tasks, cur, rsp)[i] == tasks[i],
{
}

/// A new task enters user code at its entry point, on top of its own stack, with
/// interrupts on, from a frame of 160 bytes.
pub proof fn law_first_frame(m: Seq<u8>, top: u64, user_stack_top: u64, entry: u64)
    requires
        first_frame(m, top, user_stack_top, entry),
    ensures
        mem::word(m, top - 160 + 120) == entry,
        mem::word(m, top - 160 + 128) == 0x23,
        mem::word(m, top - 160 + 136) == 0x202,
        mem::word(m, top - 160 + 144) == user_stack_top,
        mem::word(m, top - 160 + 152) == 0x1B,
        forall|i: int| 0 <= i < 15 ==> mem::word(m, #[trigger] (top - 160 + 8 * i)) == 0,
{
    assert forall|i: int| 0 <= i < 15 implies mem::word(m, #[trigger] (top - 160 + 8 * i)) == 0 by {
        assert(mem::word(m, top - 8 * (20 - i)) == 0);
    }
}

/// A task may use its own stack of 16 KiB and eight MiB of code around its entry
/// point, and then the regions that it was given, the empty ones left out.
pub proof fn law_task_regions(user_stack: u64, entry: u64, extra: Seq<(u64, u64)>)
    ensures
        ({
            let r = task_regions(user_stack, entry, extra);
            &&& 2 <= r.len() <= 8
            &&& r[0] == (user_stack, 0x4000u64)
            &&& r[1].0 <= entry < r[1].0 + r[1].1
            &&& r[1].0 % 0x20_0000 == 0
            &&& r[1].1 == 0x80_0000
            &&& forall|i: int| 2 <= i < r.len() ==> (#[trigger] r[i]).1 > 0 && extra.contains(r[i])
            &&& (forall|i: int| 0 <= i < extra.len() ==> (#[trigger] extra[i]).1 > 0) && extra.len()
                <= 6 ==> r.skip(2) == extra
        }),
{
    let r = task_regions(user_stack, entry, extra);
    lemma_nonempty(extra, extra.len() as int);
    let more = nonempty(extra, extra.len() as int);
    assert forall|i: int| 2 <= i < r.len() implies (#[trigger] r[i]).1 > 0 && extra.contains(r[i]) by {
        assert(r[i] == more[i - 2]);
    }
    if (forall|i: int| 0 <= i < extra.len() ==> (#[trigger] extra[i]).1 > 0) && extra.len() <= 6 {
        assert(extra.take(extra.len() as int) =~= extra);
        assert(r.skip(2) =~= extra);
    }
}

proof fn lemma_nonempty(extra: Seq<(u64, u64)>, n: int)
    requires
        0 <= n <= extra.len(),
    ensures
        nonempty(extra, n).len() <= n,
        forall|i: int|
            0 <= i < nonempty(extra, n).len() ==> (#[trigger] nonempty(extra, n)[i]).1 > 0
                && extra.contains(nonempty(extra, n)[i]),
        (forall|i: int| 0 <= i < n ==> (#[trigger] extra[i]).1 > 0) ==> nonempty(extra, n)
            == extra.take(n),
    decreases n,
{
    if n > 0 {
        lemma_nonempty(extra, n - 1);
        let before = nonempty(extra, n - 1);
        assert forall|i: int| 0 <= i < nonempty(extra, n).len() implies (#[trigger] nonempty(
            extra,
            n,
        )[i]).1 > 0 && extra.contains(nonempty(extra, n)[i]) by {
            if i < before.len() {
                assert(nonempty(extra, n)[i] == before[i]);
            } else {
                assert(nonempty(extra, n)[i] == extra[n - 1]);
            }
        }
        if forall|i: int| 0 <= i < n ==> (#[trigger] extra[i]).1 > 0 {
            assert(extra.take(n) =~= extra.take(n - 1).push(extra[n - 1]));
        }
    }
}

/// A task that was started is ready in the next slot, enters its code at the top of
/// its own stack, and reaches in the first four GiB exactly the pages of its own
/// regions; the other tasks are as before.
pub proof fn law_user_task_started(
    s0: Scheduler,
    s1: Scheduler,
    m0: Seq<u8>,
    m1: Seq<u8>,
    free0: Set<int>,
    free1: Set<int>,
    k: KernelPages,
    entry: u64,
    extra: Seq<(u64, u64)>,
    user_stack: u64,
    va: u64,
    i: int,
)
    requires
        user_started(s0, s1, m0, m1, free0, free1, k, entry, extra, user_stack),
        s0.tasks@.len() == 16,
        0 <= s0.count < 16,
        0 <= i < 16,
        i != s0.count,
        va < 0x1_0000_0000,
        m0.len() <= u64::MAX,
        k.wf(m0, free0),
        paging::closed_to_users(m0, k),
    ensures
        ({
            let t = s1.tasks@[s0.count as int];
            &&& s1.count == s0.count + 1
            &&& s1.tasks@[i] == s0.tasks@[i]
            &&& t.state == State::Ready
            &&& mem::word(m1, t.rsp + 120) == entry
            &&& mem::word(m1, t.rsp + 144) == user_stack + 0x4000
            &&& mem::word(m1, t.rsp as int) == 0
            &&& paging::user_reaches(m1, t.pml4_phys, va) <==> paging::in_regions(
                task_regions(user_stack, entry, extra),
                va as int / 0x20_0000,
            )
        }),
{
    let t = s1.tasks@[s0.count as int];
    let top = t.kernel_stack_top;
    assert(user_stack + 0x4000 <= u64::MAX) by {
        assert(stack_taken(user_stack, free0, m0.len() as int));
    }
    law_first_frame(m1, top, (user_stack + TASK_STACK_SIZE) as u64, entry);
    assert(mem::word(m1, top - 160 + 8 * 0) == 0);
    paging::law_user_reaches_its_regions(
        m1,
        t.pml4_phys,
        m0,
        k,
        free0,
        task_regions(user_stack, entry, extra),
        va,
    );
}

} // verus!
