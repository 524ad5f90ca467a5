//! The scheduler: preemptive round-robin with per-task address spaces.
//!
//! Every task has a kernel stack, which holds its saved register frame. A user
//! task also owns an address space; kernel tasks run on the kernel's table.
use vstd::prelude::*;

use crate::abi::{Error, Message, TaskRef};
use crate::addrspace;
use crate::addrspace::AddressSpace;
use crate::bytes;
use crate::handles::HandleTable;
use crate::ipc;
use crate::kernel;
use crate::kernel::Kernel;
use crate::mem;
use crate::wire::UserData;

verus! {

pub const MAX_TASKS: usize = 16;

pub const KERNEL_STACK_PAGES: usize = 8;

pub const KERNEL_STACK_SIZE: u64 = 0x8000;

/// The canary: the lowest bytes of every kernel stack.
pub const CANARY: u64 = 0x57AC_C0DE_57AC_C0DE;

pub const CANARY_WORDS: u64 = 8;

/// The rest of a new kernel stack is painted with this byte, so that the
/// deepest point it has reached can be read back.
pub const PAINT: u8 = 0xA5;

pub const PAINTED: u64 = 0xA5A5_A5A5_A5A5_A5A5;

/// The size of a saved register frame.
pub const SAVED_FRAME: u64 = 816;

#[derive(Clone, Copy, Debug, PartialEq, Eq, Structural)]
pub enum State {
    Free,
    /// Claimed by a spawn that is still building the task. The scheduler never
    /// runs it, and no other spawn can take it.
    Reserved,
    Ready,
    Running,
    Blocked,
}

/// A user task blocked in a receive: where its message goes, and when it gives
/// up (0 is never).
#[derive(Clone, Copy, Debug, PartialEq, Eq, Structural)]
pub struct UserWait {
    pub channel: u32,
    pub buf: u64,
    pub deadline_ns: u64,
}

pub struct Task {
    /// The saved frame, on the kernel stack.
    pub sp: u64,
    pub kernel_stack_bottom: u64,
    pub kernel_stack_pages: usize,
    /// The translation table to use while the task runs.
    pub ttbr0: u64,
    pub space: Option<AddressSpace>,
    pub handles: HandleTable,
    pub wait: Option<UserWait>,
    pub state: State,
}

/// A retired task's kernel stack, freed once nothing runs on it.
#[derive(Clone, Copy, Debug, PartialEq, Eq, Structural)]
pub struct PendingFree {
    pub kernel_stack_bottom: u64,
    pub kernel_stack_pages: usize,
    pub used: bool,
}

/// What to run next: the frame to restore and the table to use.
#[derive(Clone, Copy, Debug, PartialEq, Eq, Structural)]
pub struct Switch {
    pub frame: u64,
    pub ttbr0: u64,
}

#[derive(Clone, Copy, Debug, PartialEq, Eq)]
pub enum SpawnError {
    NoSlot,
    OutOfMemory,
    BadImage(&'static str),
}

pub struct Scheduler {
    pub tasks: Vec<Task>,
    pub pending: Vec<PendingFree>,
    pub current: usize,
    /// The last direct hand-off: who sent, and who was given the processor.
    pub hand_off: Option<(usize, usize)>,
    /// The task running init (0 until it is started).
    pub init_task: usize,
    /// Each slot's generation, counted up on every install.
    pub generations: Vec<u32>,
    /// The table for tasks without a space of their own.
    pub kernel_ttbr0: u64,
}

/// How many of the first `n` tasks have a kernel stack.
pub open spec fn stacks(tasks: Seq<Task>, n: int) -> int
    decreases n,
{
    if n <= 0 {
        0
    } else {
        stacks(tasks, n - 1) + if tasks[n - 1].kernel_stack_pages > 0 {
            1int
        } else {
            0
        }
    }
}

/// How many of the first `n` stacks wait to be freed.
pub open spec fn waiting(pending: Seq<PendingFree>, n: int) -> int
    decreases n,
{
    if n <= 0 {
        0
    } else {
        waiting(pending, n - 1) + if pending[n - 1].used {
            1int
        } else {
            0
        }
    }
}

impl Task {
    /// A slot that holds no task.
    pub open spec fn is_empty(&self) -> bool {
        &&& self.space is None
        &&& self.wait is None
        &&& self.kernel_stack_pages == 0
    }

    pub open spec fn shape(&self) -> bool {
        &&& self.handles.wf()
        &&& self.kernel_stack_pages == 0 || self.kernel_stack_pages == KERNEL_STACK_PAGES
        &&& self.wait is Some ==> self.space is Some
        &&& self.space is Some ==> self.kernel_stack_pages > 0
        &&& self.state == State::Free || self.state == State::Reserved ==> self.is_empty()
    }
}

impl Scheduler {
    pub open spec fn wf(&self) -> bool {
        &&& self.tasks@.len() == MAX_TASKS
        &&& self.pending@.len() == MAX_TASKS
        &&& self.generations@.len() == MAX_TASKS
        &&& self.current < MAX_TASKS
        &&& forall|i: int| 0 <= i < MAX_TASKS ==> (#[trigger] self.tasks@[i]).shape()
        &&& self.tasks@[0].is_empty()
        &&& self.tasks@[0].state != State::Free
        &&& self.tasks@[0].state != State::Reserved
        &&& forall|i: int|
            0 <= i < MAX_TASKS && (#[trigger] self.tasks@[i]).state == State::Running ==> i
                == self.current
        &&& stacks(self.tasks@, MAX_TASKS as int) + waiting(self.pending@, MAX_TASKS as int)
            <= MAX_TASKS - 1
    }

    /// Everything but the tasks is as in `o`.
    pub open spec fn same_but_tasks(&self, o: Scheduler) -> bool {
        &&& self.pending == o.pending
        &&& self.current == o.current
        &&& self.hand_off == o.hand_off
        &&& self.init_task == o.init_task
        &&& self.generations == o.generations
        &&& self.kernel_ttbr0 == o.kernel_ttbr0
    }
}

pub proof fn lemma_stacks_update(tasks: Seq<Task>, i: int, t: Task, n: int)
    requires
        0 <= i < tasks.len(),
        0 <= n <= tasks.len(),
    ensures
        stacks(tasks.update(i, t), n) == stacks(tasks, n) + if i < n {
            (if t.kernel_stack_pages > 0 {
                1int
            } else {
                0
            }) - (if tasks[i].kernel_stack_pages > 0 {
                1int
            } else {
                0
            })
        } else {
            0
        },
    decreases n,
{
    if n > 0 {
        lemma_stacks_update(tasks, i, t, n - 1);
    }
}

pub proof fn lemma_stacks_same(tasks: Seq<Task>, tasks2: Seq<Task>, n: int)
    requires
        tasks.len() == tasks2.len(),
        0 <= n <= tasks.len(),
        forall|i: int|
            0 <= i < tasks.len() ==> (#[trigger] tasks2[i]).kernel_stack_pages
                == tasks[i].kernel_stack_pages,
    ensures
        stacks(tasks2, n) == stacks(tasks, n),
    decreases n,
{
    if n > 0 {
        lemma_stacks_same(tasks, tasks2, n - 1);
        assert(tasks2[n - 1].kernel_stack_pages == tasks[n - 1].kernel_stack_pages);
    }
}

pub proof fn lemma_waiting_update(pending: Seq<PendingFree>, i: int, p: PendingFree, n: int)
    requires
        0 <= i < pending.len(),
        0 <= n <= pending.len(),
    ensures
        waiting(pending.update(i, p), n) == waiting(pending, n) + if i < n {
            (if p.used {
                1int
            } else {
                0
            }) - (if pending[i].used {
                1int
            } else {
                0
            })
        } else {
            0
        },
        0 <= waiting(pending, n) <= n,
    decreases n,
{
    if n > 0 {
        lemma_waiting_update(pending, i, p, n - 1);
    }
}

pub proof fn lemma_waiting_full(pending: Seq<PendingFree>, n: int)
    requires
        0 <= n <= pending.len(),
    ensures
        0 <= waiting(pending, n) <= n,
        (forall|i: int| 0 <= i < n ==> (#[trigger] pending[i]).used) ==> waiting(pending, n) == n,
        (forall|i: int| 0 <= i < n ==> !(#[trigger] pending[i]).used) ==> waiting(pending, n) == 0,
    decreases n,
{
    if n > 0 {
        lemma_waiting_full(pending, n - 1);
    }
}

pub proof fn lemma_stacks_bound(tasks: Seq<Task>, n: int)
    requires
        0 <= n <= tasks.len(),
    ensures
        0 <= stacks(tasks, n) <= n,
    decreases n,
{
    if n > 0 {
        lemma_stacks_bound(tasks, n - 1);
    }
}

/// The task in slot `id` now (or last, if the slot is free).
pub fn task_ref(s: &Scheduler, id: usize) -> (r: TaskRef)
    requires
        s.wf(),
    ensures
        r.id == id as u16,
        r.generation == if id < MAX_TASKS {
            s.generations@[id as int]
        } else {
            0
        },
{
    let generation: u32 = if id < MAX_TASKS { s.generations[id] } else { 0 };
    TaskRef { id: id as u16, generation }
}

pub fn set_init_task(s: &mut Scheduler, id: usize)
    requires
        old(s).wf(),
    ensures
        final(s).wf(),
        *final(s) == (Scheduler { init_task: id, ..*old(s) }),
{
    s.init_task = id;
}

pub fn init_task(s: &Scheduler) -> (id: usize)
    ensures
        id == s.init_task,
{
    s.init_task
}

pub fn current_task(s: &Scheduler) -> (id: usize)
    ensures
        id == s.current,
{
    s.current
}

pub open spec fn is_live(t: Task) -> bool {
    t.state != State::Free && t.state != State::Reserved
}

/// How many of the first `n` slots hold a task.
pub open spec fn live_count(tasks: Seq<Task>, n: int) -> int
    decreases n,
{
    if n <= 0 {
        0
    } else {
        live_count(tasks, n - 1) + if is_live(tasks[n - 1]) {
            1int
        } else {
            0
        }
    }
}

pub fn task_count(s: &Scheduler) -> (n: usize)
    requires
        s.wf(),
    ensures
        n == live_count(s.tasks@, MAX_TASKS as int),
        1 <= n <= MAX_TASKS,
{
    let mut n: usize = 0;
    let mut i: usize = 0;
    while i < MAX_TASKS
        invariant
            s.wf(),
            i <= MAX_TASKS,
            n <= i,
            n == live_count(s.tasks@, i as int),
            i > 0 ==> n >= 1,
        decreases MAX_TASKS - i,
    {
        let live: bool = match s.tasks[i].state {
            State::Free => false,
            State::Reserved => false,
            _ => true,
        };
        if live {
            n = n + 1;
        }
        i = i + 1;
    }
    n
}

/// Whether `task` is a user task waiting in a receive.
pub fn has_user_wait(s: &Scheduler, task: usize) -> (r: bool)
    requires
        s.wf(),
    ensures
        r == (task < MAX_TASKS && s.tasks@[task as int].wait is Some),
{
    task < MAX_TASKS && s.tasks[task].wait.is_some()
}

/// Task `t` has not overrun its kernel stack: the canary is whole.
pub open spec fn canary_ok(t: Task, m: Seq<u8>) -> bool {
    t.state == State::Free || t.kernel_stack_pages == 0 || forall|i: int|
        0 <= i < CANARY_WORDS ==> mem::word(m, #[trigger] (t.kernel_stack_bottom + 8 * i))
            == CANARY
}

/// The tasks with `cur`'s frame saved; a running task becomes ready.
pub open spec fn parked(tasks: Seq<Task>, cur: int, frame: u64) -> Seq<Task> {
    let t = tasks[cur];
    tasks.update(
        cur,
        Task {
            sp: if t.state != State::Free {
                frame
            } else {
                t.sp
            },
            state: if t.state == State::Running {
                State::Ready
            } else {
                t.state
            },
            ..t
        },
    )
}

/// The first ready task at least `step` places after `cur`, going round once;
/// 0 when there is none.
pub open spec fn next_ready(tasks: Seq<Task>, cur: int, step: int) -> int
    decreases MAX_TASKS + 1 - step,
{
    if step > MAX_TASKS {
        0
    } else if tasks[(cur + step) % (MAX_TASKS as int)].state == State::Ready {
        (cur + step) % (MAX_TASKS as int)
    } else {
        next_ready(tasks, cur, step + 1)
    }
}

/// `cur` was run by a hand-off, has blocked, and its sender is still ready.
pub open spec fn returning(
    tasks: Seq<Task>,
    cur: int,
    hand_off: Option<(usize, usize)>,
) -> bool {
    hand_off matches Some(h) && h.1 == cur && tasks[cur].state == State::Blocked && h.0 < MAX_TASKS
        && tasks[h.0 as int].state == State::Ready
}

/// Who runs after `cur`: its sender, if it returns to one, or else the next
/// ready task in turn.
pub open spec fn successor(
    tasks: Seq<Task>,
    cur: int,
    hand_off: Option<(usize, usize)>,
) -> int {
    if returning(tasks, cur, hand_off) {
        hand_off.unwrap().0 as int
    } else {
        next_ready(tasks, cur, 1)
    }
}

pub open spec fn set_running(tasks: Seq<Task>, next: int) -> Seq<Task> {
    tasks.update(next, Task { state: State::Running, ..tasks[next] })
}

/// A frame that the interrupted task may have saved: on its own kernel stack.
pub open spec fn frame_of_current(k: Kernel, frame: u64) -> bool {
    let t = k.sched.tasks@[k.sched.current as int];
    t.kernel_stack_pages > 0 ==> kernel::sp_ok(frame, t.kernel_stack_bottom)
}

/// The choice in turn is a ready task, or the idle task when none is ready.
pub proof fn law_round_robin(tasks: Seq<Task>, cur: int)
    requires
        tasks.len() == MAX_TASKS,
        0 <= cur < MAX_TASKS,
    ensures
        0 <= next_ready(tasks, cur, 1) < MAX_TASKS,
        tasks[next_ready(tasks, cur, 1)].state == State::Ready || (next_ready(tasks, cur, 1) == 0
            && forall|i: int| 0 <= i < MAX_TASKS ==> (#[trigger] tasks[i]).state != State::Ready),
        forall|step: int|
            1 <= step <= MAX_TASKS && (#[trigger] tasks[(cur + step) % (MAX_TASKS as int)]).state
                == State::Ready ==> exists|first: int|
                1 <= first <= step && next_ready(tasks, cur, 1) == #[trigger] ((cur + first) % (
                MAX_TASKS as int)),
{
    lemma_next_ready(tasks, cur, 1);
    if forall|step: int|
        1 <= step <= MAX_TASKS ==> (#[trigger] tasks[(cur + step) % (MAX_TASKS as int)]).state
            != State::Ready {
        assert forall|i: int| 0 <= i < MAX_TASKS implies (#[trigger] tasks[i]).state
            != State::Ready by {
            let step = if i > cur {
                i - cur
            } else {
                i - cur + MAX_TASKS
            };
            assert((cur + step) % (MAX_TASKS as int) == i);
            assert(tasks[(cur + step) % (MAX_TASKS as int)].state != State::Ready);
        }
    }
}

proof fn lemma_next_ready(tasks: Seq<Task>, cur: int, step: int)
    requires
        tasks.len() == MAX_TASKS,
        0 <= cur < MAX_TASKS,
        1 <= step <= MAX_TASKS + 1,
    ensures
        0 <= next_ready(tasks, cur, step) < MAX_TASKS,
        tasks[next_ready(tasks, cur, step)].state == State::Ready || (next_ready(tasks, cur, step)
            == 0 && forall|s: int|
            step <= s <= MAX_TASKS ==> (#[trigger] tasks[(cur + s) % (MAX_TASKS as int)]).state
                != State::Ready),
        forall|s: int|
            step <= s <= MAX_TASKS && (#[trigger] tasks[(cur + s) % (MAX_TASKS as int)]).state
                == State::Ready ==> exists|first: int|
                step <= first <= s && next_ready(tasks, cur, step) == #[trigger] ((cur + first) % (
                MAX_TASKS as int)),
    decreases MAX_TASKS + 1 - step,
{
    if step <= MAX_TASKS {
        if tasks[(cur + step) % (MAX_TASKS as int)].state != State::Ready {
            lemma_next_ready(tasks, cur, step + 1);
            assert forall|s: int|
                step <= s <= MAX_TASKS && (#[trigger] tasks[(cur + s) % (MAX_TASKS as int)]).state
                    == State::Ready implies exists|first: int|
                step <= first <= s && next_ready(tasks, cur, step) == #[trigger] ((cur + first) % (
                MAX_TASKS as int)) by {
                assert(step + 1 <= s);
                let first = choose|first: int|
                    step + 1 <= first <= s && next_ready(tasks, cur, step + 1) == #[trigger] ((cur
                        + first) % (MAX_TASKS as int));
                assert((cur + first) % (MAX_TASKS as int) == next_ready(tasks, cur, step));
            }
        } else {
            assert forall|s: int|
                step <= s <= MAX_TASKS && (#[trigger] tasks[(cur + s) % (MAX_TASKS as int)]).state
                    == State::Ready implies exists|first: int|
                step <= first <= s && next_ready(tasks, cur, step) == #[trigger] ((cur + first) % (
                MAX_TASKS as int)) by {
                assert((cur + step) % (MAX_TASKS as int) == next_ready(tasks, cur, step));
            }
        }
    }
}

/// Whether the task's canary is whole.
fn canary_intact(k: &Kernel, id: usize) -> (r: bool)
    requires
        k.wf(),
        id < MAX_TASKS,
    ensures
        r == canary_ok(k.sched.tasks@[id as int], k.mem@),
{
    let t: &Task = &k.sched.tasks[id];
    let free: bool = match t.state {
        State::Free => true,
        _ => false,
    };
    if free || t.kernel_stack_pages == 0 {
        return true;
    }
    proof {
        assert(kernel::task_mem_ok(k.sched.tasks@[id as int], k.mem@));
    }
    let mut i: u64 = 0;
    while i < CANARY_WORDS
        invariant
            i <= CANARY_WORDS,
            *t == k.sched.tasks@[id as int],
            t.kernel_stack_pages > 0,
            t.state != State::Free,
            kernel::stack_ok(t.kernel_stack_bottom, t.kernel_stack_pages, k.mem@.len() as int),
            forall|j: int|
                0 <= j < i ==> mem::word(k.mem@, #[trigger] (t.kernel_stack_bottom + 8 * j))
                    == CANARY,
        decreases CANARY_WORDS - i,
    {
        if k.mem.read_word(t.kernel_stack_bottom + 8 * i) != CANARY {
            assert(mem::word(k.mem@, t.kernel_stack_bottom + 8 * (i as int)) != CANARY);
            return false;
        }
        i = i + 1;
    }
    true
}

/// Saves the current task's frame; a running task becomes ready.
fn park(k: &mut Kernel, frame: u64)
    requires
        old(k).wf(),
        frame_of_current(*old(k), frame),
    ensures
        final(k).wf(),
        final(k).same_tables(*old(k)),
        final(k).mem == old(k).mem,
        final(k).ipc == old(k).ipc,
        final(k).metrics == old(k).metrics,
        final(k).sched.same_but_tasks(old(k).sched),
        final(k).sched.tasks@ == parked(old(k).sched.tasks@, old(k).sched.current as int, frame),
{
    let cur: usize = k.sched.current;
    let free: bool = match k.sched.tasks[cur].state {
        State::Free => true,
        _ => false,
    };
    let running: bool = match k.sched.tasks[cur].state {
        State::Running => true,
        _ => false,
    };
    proof {
        assert(k.sched.tasks@[cur as int].shape());
        assert(kernel::task_mem_ok(k.sched.tasks@[cur as int], k.mem@));
    }
    if !free {
        k.sched.tasks[cur].sp = frame;
    }
    if running {
        k.sched.tasks[cur].state = State::Ready;
    }
    proof {
        let t0 = old(k).sched.tasks@;
        let t1 = k.sched.tasks@;
        assert(t1 =~= parked(t0, cur as int, frame));
        lemma_stacks_same(t0, t1, MAX_TASKS as int);
        kernel::lemma_tasks_kept(k.mem@, k.frames, k.map, t0, t1, k.sched.pending@);
    }
}

/// Makes `next` the running task.
fn run(k: &mut Kernel, next: usize) -> (r: Switch)
    requires
        old(k).wf(),
        next < MAX_TASKS,
        is_live(old(k).sched.tasks@[next as int]),
        forall|i: int|
            0 <= i < MAX_TASKS ==> (#[trigger] old(k).sched.tasks@[i]).state != State::Running,
    ensures
        final(k).wf(),
        final(k).same_tables(*old(k)),
        final(k).mem == old(k).mem,
        final(k).ipc == old(k).ipc,
        final(k).metrics == old(k).metrics,
        final(k).sched.tasks@ == set_running(old(k).sched.tasks@, next as int),
        final(k).sched.current == next,
        final(k).sched.pending == old(k).sched.pending,
        final(k).sched.hand_off == old(k).sched.hand_off,
        final(k).sched.init_task == old(k).sched.init_task,
        final(k).sched.generations == old(k).sched.generations,
        final(k).sched.kernel_ttbr0 == old(k).sched.kernel_ttbr0,
        r.frame == old(k).sched.tasks@[next as int].sp,
        r.ttbr0 == old(k).sched.tasks@[next as int].ttbr0,
{
    proof {
        assert(k.sched.tasks@[next as int].shape());
        assert(kernel::task_mem_ok(k.sched.tasks@[next as int], k.mem@));
    }
    k.sched.tasks[next].state = State::Running;
    k.sched.current = next;
    proof {
        let t0 = old(k).sched.tasks@;
        let t1 = k.sched.tasks@;
        assert(t1 =~= set_running(t0, next as int));
        lemma_stacks_same(t0, t1, MAX_TASKS as int);
        assert forall|i: int|
            0 <= i < MAX_TASKS && (#[trigger] t1[i]).kernel_stack_pages > 0 implies kernel::sp_ok(
            t1[i].sp,
            t1[i].kernel_stack_bottom,
        ) by {
            assert(kernel::task_mem_ok(t0[i], k.mem@));
        }
        kernel::lemma_tasks_kept(k.mem@, k.frames, k.map, t0, t1, k.sched.pending@);
        assert forall|i: int| 0 <= i < MAX_TASKS implies (#[trigger] t1[i]).shape() by {
            assert(t0[i].shape());
        }
    }
    Switch { frame: k.sched.tasks[next].sp, ttbr0: k.sched.tasks[next].ttbr0 }
}

/// How the scheduler stands after `cur` has been parked with `frame` and
/// `next` made to run.
pub open spec fn switched(
    s0: Scheduler,
    s1: Scheduler,
    frame: u64,
    next: int,
    hand_off: Option<(usize, usize)>,
) -> bool {
    &&& s1.tasks@ == set_running(parked(s0.tasks@, s0.current as int, frame), next)
    &&& s1.current == next
    &&& s1.hand_off == hand_off
    &&& s1.pending == s0.pending
    &&& s1.init_task == s0.init_task
    &&& s1.generations == s0.generations
    &&& s1.kernel_ttbr0 == s0.kernel_ttbr0
}

/// What leaving the current task with `frame` saved changes, and what runs next.
pub open spec fn switched_away(
    k0: Kernel,
    k1: Kernel,
    frame: u64,
    r: Result<Switch, usize>,
) -> bool {
    let cur = k0.sched.current;
    let ready = parked(k0.sched.tasks@, cur as int, frame);
    let next = successor(ready, cur as int, k0.sched.hand_off);
    &&& k1.same_tables(k0)
    &&& k1.mem == k0.mem
    &&& k1.ipc == k0.ipc
    &&& k1.metrics == k0.metrics
    &&& r is Err <==> !canary_ok(k0.sched.tasks@[cur as int], k0.mem@)
    &&& match r {
        Err(id) => id == cur && k1 == k0,
        Ok(sw) => {
            &&& 0 <= next < MAX_TASKS
            &&& switched(k0.sched, k1.sched, frame, next, None)
            &&& sw.frame == ready[next].sp
            &&& sw.ttbr0 == ready[next].ttbr0
        },
    }
}

/// Saves the current task's frame and picks the next task to run.
///
/// If the current task was run by a hand-off and has now blocked, and its
/// sender is still ready, the sender runs next. Otherwise the choice is
/// round-robin. The error names a task that has overrun its kernel stack.
pub fn switch_away(k: &mut Kernel, frame: u64) -> (r: Result<Switch, usize>)
    requires
        old(k).wf(),
        frame_of_current(*old(k), frame),
    ensures
        final(k).wf(),
        switched_away(*old(k), *final(k), frame, r),
{
    let cur: usize = k.sched.current;
    if !canary_intact(k, cur) {
        return Err(cur);
    }
    park(k, frame);
    let ghost ready = k.sched.tasks@;
    let blocked: bool = match k.sched.tasks[cur].state {
        State::Blocked => true,
        _ => false,
    };
    let donor: Option<usize> = match k.sched.hand_off {
        None => None,
        Some(h) => if h.1 == cur && blocked && h.0 < MAX_TASKS && is_ready(&k.sched, h.0) {
            Some(h.0)
        } else {
            None
        },
    };
    k.sched.hand_off = None;
    proof {
        law_round_robin(ready, cur as int);
    }
    let next: usize = match donor {
        Some(d) => d,
        None => {
            let mut step: usize = 1;
            let mut found: usize = 0;
            let mut looking: bool = true;
            while looking && step <= MAX_TASKS
                invariant
                    k.sched.tasks@ == ready,
                    k.wf(),
                    cur < MAX_TASKS,
                    1 <= step <= MAX_TASKS + 1,
                    looking ==> found == 0 && next_ready(ready, cur as int, 1) == next_ready(
                        ready,
                        cur as int,
                        step as int,
                    ),
                    !looking ==> found < MAX_TASKS && found == next_ready(ready, cur as int, 1),
                decreases MAX_TASKS + 1 - step + (if looking { 1int } else { 0int }),
            {
                let candidate: usize = (cur + step) % MAX_TASKS;
                if is_ready(&k.sched, candidate) {
                    found = candidate;
                    looking = false;
                } else {
                    step = step + 1;
                }
            }
            found
        },
    };
    assert(k.sched.tasks@[0].state != State::Free && k.sched.tasks@[0].state != State::Reserved);
    Ok(run(k, next))
}

fn is_ready(s: &Scheduler, id: usize) -> (r: bool)
    requires
        id < s.tasks@.len(),
    ensures
        r == (s.tasks@[id as int].state == State::Ready),
{
    match s.tasks[id].state {
        State::Ready => true,
        _ => false,
    }
}

/// A direct hand-off of the processor to `target`; an ordinary switch where
/// `target` is not ready.
pub open spec fn handed_off(
    k0: Kernel,
    k1: Kernel,
    frame: u64,
    target: usize,
    r: Result<Switch, usize>,
) -> bool {
    let cur = k0.sched.current;
    let ready = parked(k0.sched.tasks@, cur as int, frame);
    if target < MAX_TASKS && k0.sched.tasks@[target as int].state == State::Ready {
        &&& k1.same_tables(k0)
        &&& k1.mem == k0.mem
        &&& k1.ipc == k0.ipc
        &&& k1.metrics == k0.metrics
        &&& r is Err <==> !canary_ok(k0.sched.tasks@[cur as int], k0.mem@)
        &&& match r {
            Err(id) => id == cur && k1 == k0,
            Ok(sw) => {
                &&& switched(k0.sched, k1.sched, frame, target as int, Some((cur, target)))
                &&& sw.frame == ready[target as int].sp
                &&& sw.ttbr0 == ready[target as int].ttbr0
            },
        }
    } else {
        switched_away(k0, k1, frame, r)
    }
}

/// Runs `target` next (direct hand-off); the current task stays ready. A
/// target that is not ready gets an ordinary switch instead.
pub fn hand_off(k: &mut Kernel, frame: u64, target: usize) -> (r: Result<Switch, usize>)
    requires
        old(k).wf(),
        frame_of_current(*old(k), frame),
    ensures
        final(k).wf(),
        handed_off(*old(k), *final(k), frame, target, r),
{
    if target >= MAX_TASKS || !is_ready(&k.sched, target) {
        return switch_away(k, frame);
    }
    let cur: usize = k.sched.current;
    if !canary_intact(k, cur) {
        return Err(cur);
    }
    park(k, frame);
    k.sched.hand_off = Some((cur, target));
    Ok(run(k, target))
}

/// Makes a blocked task ready; any other is left alone.
pub fn unblock(s: &mut Scheduler, task_id: usize)
    requires
        old(s).wf(),
    ensures
        final(s).wf(),
        final(s).same_but_tasks(*old(s)),
        final(s).tasks@ == unblocked(old(s).tasks@, task_id),
{
    if task_id < MAX_TASKS {
        let blocked: bool = match s.tasks[task_id].state {
            State::Blocked => true,
            _ => false,
        };
        if blocked {
            assert(s.tasks@[task_id as int].shape());
            s.tasks[task_id].state = State::Ready;
            proof {
                lemma_stacks_same(old(s).tasks@, s.tasks@, MAX_TASKS as int);
                assert(s.tasks@ =~= unblocked(old(s).tasks@, task_id));
            }
        }
    }
}

pub open spec fn unblocked(tasks: Seq<Task>, id: usize) -> Seq<Task> {
    if id < MAX_TASKS && tasks[id as int].state == State::Blocked {
        tasks.update(id as int, Task { state: State::Ready, ..tasks[id as int] })
    } else {
        tasks
    }
}

/// Blocks the current task; the caller then waits for the next tick.
pub fn block_current(s: &mut Scheduler)
    requires
        old(s).wf(),
        is_live(old(s).tasks@[old(s).current as int]),
    ensures
        final(s).wf(),
        final(s).same_but_tasks(*old(s)),
        final(s).tasks@ == old(s).tasks@.update(
            old(s).current as int,
            Task { state: State::Blocked, ..old(s).tasks@[old(s).current as int] },
        ),
{
    let cur: usize = s.current;
    assert(s.tasks@[cur as int].shape());
    s.tasks[cur].state = State::Blocked;
    proof {
        lemma_stacks_same(old(s).tasks@, s.tasks@, MAX_TASKS as int);
    }
}

/// Blocks the current user task in a receive: its message goes to `buf`.
pub fn set_user_wait(s: &mut Scheduler, channel: u32, buf: u64, deadline_ns: u64)
    requires
        old(s).wf(),
        old(s).tasks@[old(s).current as int].space is Some,
    ensures
        final(s).wf(),
        final(s).same_but_tasks(*old(s)),
        final(s).tasks@ == old(s).tasks@.update(
            old(s).current as int,
            Task {
                wait: Some(UserWait { channel, buf, deadline_ns }),
                state: State::Blocked,
                ..old(s).tasks@[old(s).current as int]
            },
        ),
{
    let cur: usize = s.current;
    assert(s.tasks@[cur as int].shape());
    s.tasks[cur].wait = Some(UserWait { channel, buf, deadline_ns });
    s.tasks[cur].state = State::Blocked;
    proof {
        lemma_stacks_same(old(s).tasks@, s.tasks@, MAX_TASKS as int);
        assert(s.tasks@ =~= old(s).tasks@.update(
            cur as int,
            Task {
                wait: Some(UserWait { channel, buf, deadline_ns }),
                state: State::Blocked,
                ..old(s).tasks@[cur as int]
            },
        ));
    }
}

/// Bytes inside one task's kernel stack belong to no table of any space.
pub proof fn lemma_stack_bytes_apart(k: Kernel, id: int, a: int, j: int, f: int)
    requires
        k.mem_ok(),
        0 <= id < k.sched.tasks@.len(),
        k.sched.tasks@[id].kernel_stack_pages > 0,
        k.sched.tasks@[id].kernel_stack_bottom <= a < k.sched.tasks@[id].kernel_stack_bottom
            + KERNEL_STACK_SIZE,
        0 <= j < k.sched.tasks@.len(),
        k.sched.tasks@[j].space is Some,
        k.sched.tasks@[j].space.unwrap().roles().dom().contains(f),
    ensures
        !(f <= a < f + 4096),
{
    let t = k.sched.tasks@[id];
    let s = k.sched.tasks@[j].space.unwrap();
    assert(kernel::task_mem_ok(t, k.mem@));
    assert(kernel::task_mem_ok(k.sched.tasks@[j], k.mem@));
    assert(AddressSpace::frame_ok(f, k.mem@.len() as int));
    if f <= a < f + 4096 {
        let n = f / 4096;
        assert(n * 4096 == f);
        assert(a / 4096 == n);
        assert(kernel::uses(k.map, k.sched.tasks@, k.sched.pending@, kernel::Owner::Space(j), n));
        assert(kernel::uses(k.map, k.sched.tasks@, k.sched.pending@, kernel::Owner::Stack(id), n));
    }
}

/// Writes one word into the kernel stack of task `id`.
pub(crate) fn write_stack_word(k: &mut Kernel, id: usize, at: u64, value: u64)
    requires
        old(k).wf(),
        id < MAX_TASKS,
        old(k).sched.tasks@[id as int].kernel_stack_pages > 0,
        kernel::sp_ok(at, old(k).sched.tasks@[id as int].kernel_stack_bottom),
    ensures
        final(k).wf(),
        final(k).same_tables(*old(k)),
        final(k).sched == old(k).sched,
        final(k).ipc == old(k).ipc,
        final(k).metrics == old(k).metrics,
        final(k).mem@ == mem::splice(old(k).mem@, at as int, bytes::le_bytes(value as int, 8)),
        kernel::translations_kept(old(k).sched.tasks@, old(k).mem@, final(k).mem@),
{
    proof {
        assert(kernel::task_mem_ok(k.sched.tasks@[id as int], k.mem@));
        bytes::lemma_le_bytes_len(value as int, 8);
    }
    k.mem.write_word(at, value);
    proof {
        let m = old(k).mem@;
        let n = k.mem@;
        let tasks = k.sched.tasks@;
        assert forall|j: int, f: int|
            0 <= j < tasks.len() && (#[trigger] tasks[j]).space is Some
                && #[trigger] tasks[j].space.unwrap().is_table(f) implies mem::same_page(
            m,
            n,
            f,
        ) by {
            assert forall|a: int| f <= a < f + 4096 implies #[trigger] m[a] == n[a] by {
                assert(kernel::task_mem_ok(tasks[j], m));
                assert(AddressSpace::frame_ok(f, m.len() as int));
                if at <= a < at + 8 {
                    lemma_stack_bytes_apart(*old(k), id as int, a, j, f);
                }
            }
        }
        kernel::lemma_memory_kept(m, n, k.frames, k.map, tasks, k.sched.pending@);
    }
}

/// Writes a waiting task's syscall result into the first word of its saved
/// frame, which lives on its kernel stack.
fn set_saved_x0(k: &mut Kernel, id: usize, value: i64)
    requires
        old(k).wf(),
        id < MAX_TASKS,
        old(k).sched.tasks@[id as int].kernel_stack_pages > 0,
    ensures
        final(k).wf(),
        final(k).same_tables(*old(k)),
        final(k).sched == old(k).sched,
        final(k).ipc == old(k).ipc,
        final(k).metrics == old(k).metrics,
        final(k).mem@ == mem::splice(
            old(k).mem@,
            old(k).sched.tasks@[id as int].sp as int,
            bytes::le_bytes((value as u64) as int, 8),
        ),
        kernel::translations_kept(old(k).sched.tasks@, old(k).mem@, final(k).mem@),
{
    let sp: u64 = k.sched.tasks[id].sp;
    proof {
        assert(kernel::task_mem_ok(k.sched.tasks@[id as int], k.mem@));
    }
    write_stack_word(k, id, sp, value as u64);
}

/// The result that a receive ends with when its message is delivered to `buf`.
pub open spec fn delivery_code(t: Task, m: Seq<u8>) -> i64 {
    if t.space is Some && addrspace::holds::<Message>(
        t.space.unwrap(),
        m,
        t.wait.unwrap().buf as int,
        true,
    ) {
        0
    } else if t.space is Some {
        Error::BadPointer.spec_code() as i64
    } else {
        Error::NotPermitted.spec_code() as i64
    }
}

/// Memory `n` is `m` with `msg` delivered to waiting task `t`: the message in
/// its buffer, where the buffer is good, and the result in its saved frame.
pub open spec fn delivered(t: Task, m: Seq<u8>, n: Seq<u8>, msg: Message) -> bool {
    let code = delivery_code(t, m);
    exists|mid: Seq<u8>|
        {
            &&& if code == 0 {
                t.space.unwrap().user_written(
                    m,
                    mid,
                    t.wait.unwrap().buf as int,
                    msg.spelled(),
                )
            } else {
                mid == m
            }
            &&& n == #[trigger] mem::splice(
                mid,
                t.sp as int,
                bytes::le_bytes((code as u64) as int, 8),
            )
        }
}

/// The tasks after `id`'s receive has ended.
pub open spec fn woken(tasks: Seq<Task>, id: int) -> Seq<Task> {
    tasks.update(id, Task { wait: None, state: State::Ready, ..tasks[id] })
}

/// Ends a task's wait: it is ready, with nothing waited for.
fn wake(s: &mut Scheduler, id: usize)
    requires
        old(s).wf(),
        id < MAX_TASKS,
        is_live(old(s).tasks@[id as int]),
    ensures
        final(s).wf(),
        final(s).same_but_tasks(*old(s)),
        final(s).tasks@ == woken(old(s).tasks@, id as int),
{
    assert(s.tasks@[id as int].shape());
    s.tasks[id].wait = None;
    s.tasks[id].state = State::Ready;
    proof {
        lemma_stacks_same(old(s).tasks@, s.tasks@, MAX_TASKS as int);
        assert(s.tasks@ =~= woken(old(s).tasks@, id as int));
    }
}

/// Waking a task leaves every space and stack where it was.
proof fn lemma_woken_mem_ok(k: Kernel, tasks2: Seq<Task>, id: int)
    requires
        k.mem_ok(),
        0 <= id < k.sched.tasks@.len(),
        tasks2 == woken(k.sched.tasks@, id),
    ensures
        kernel::memory_ok(k.mem@, k.frames, k.map, tasks2, k.sched.pending@),
{
    let tasks = k.sched.tasks@;
    assert forall|i: int|
        0 <= i < tasks.len() && (#[trigger] tasks2[i]).kernel_stack_pages > 0 implies kernel::sp_ok(
        tasks2[i].sp,
        tasks2[i].kernel_stack_bottom,
    ) by {
        assert(kernel::task_mem_ok(tasks[i], k.mem@));
    }
    kernel::lemma_tasks_kept(k.mem@, k.frames, k.map, tasks, tasks2, k.sched.pending@);
}

/// Copies `msg` into user memory of task `id`.
pub(crate) fn write_to_task(k: &mut Kernel, id: usize, buf: u64, msg: &Message) -> (code: i64)
    requires
        old(k).wf(),
        id < MAX_TASKS,
    ensures
        final(k).wf(),
        final(k).same_tables(*old(k)),
        final(k).sched == old(k).sched,
        final(k).ipc == old(k).ipc,
        final(k).metrics == old(k).metrics,
        ({
            let t = old(k).sched.tasks@[id as int];
            if t.space is Some && addrspace::holds::<Message>(
                t.space.unwrap(),
                old(k).mem@,
                buf as int,
                true,
            ) {
                code == 0 && t.space.unwrap().user_written(
                    old(k).mem@,
                    final(k).mem@,
                    buf as int,
                    msg.spelled(),
                )
            } else {
                final(k).mem@ == old(k).mem@ && code == if t.space is Some {
                    Error::BadPointer.spec_code()
                } else {
                    Error::NotPermitted.spec_code()
                }
            }
        }),
        kernel::translations_kept(old(k).sched.tasks@, old(k).mem@, final(k).mem@),
{
    proof {
        assert(kernel::task_mem_ok(k.sched.tasks@[id as int], k.mem@));
        crate::wire::lemma_message_width(*msg);
    }
    match &k.sched.tasks[id].space {
        None => Error::NotPermitted.code(),
        Some(space) => {
            let ghost m = k.mem@;
            let r: Result<(), Error> = addrspace::write_user(space, &mut k.mem, buf, msg);
            proof {
                let n = k.mem@;
                let tasks = k.sched.tasks@;
                let s = tasks[id as int].space.unwrap();
                assert forall|j: int, f: int|
                    0 <= j < tasks.len() && (#[trigger] tasks[j]).space is Some
                        && #[trigger] tasks[j].space.unwrap().is_table(f) implies mem::same_page(
                    m,
                    n,
                    f,
                ) by {
                    assert(kernel::task_mem_ok(tasks[j], m));
                    assert(AddressSpace::frame_ok(f, m.len() as int));
                    if r is Ok {
                        if j != id {
                            kernel::lemma_spaces_disjoint(
                                k.map,
                                tasks,
                                k.sched.pending@,
                                k.frames@,
                                m,
                                id as int,
                                j,
                            );
                            assert(tasks[j].space.unwrap().roles().dom().contains(f));
                            assert(!s.is_page(f));
                        }
                        addrspace::lemma_written_keeps_others(
                            s,
                            m,
                            n,
                            buf as int,
                            msg.spelled(),
                            f,
                        );
                    }
                }
                kernel::lemma_memory_kept(m, n, k.frames, k.map, tasks, k.sched.pending@);
            }
            match r {
                Ok(()) => 0,
                Err(e) => e.code(),
            }
        },
    }
}

/// Finishes `task`'s receive: copies `message` into its buffer through its own
/// address space, sets its result, and makes it ready. A task that does not
/// wait is left alone.
pub fn complete_user_recv(k: &mut Kernel, task: usize, message: &Message)
    requires
        old(k).wf(),
        task < MAX_TASKS,
    ensures
        final(k).wf(),
        final(k).same_tables(*old(k)),
        final(k).ipc == old(k).ipc,
        final(k).metrics == old(k).metrics,
        final(k).sched.same_but_tasks(old(k).sched),
        old(k).sched.tasks@[task as int].wait is None ==> final(k).sched == old(k).sched && final(k).mem == old(k).mem,
        old(k).sched.tasks@[task as int].wait is Some ==> {
            &&& final(k).sched.tasks@ == woken(old(k).sched.tasks@, task as int)
            &&& delivered(
                old(k).sched.tasks@[task as int],
                old(k).mem@,
                final(k).mem@,
                *message,
            )
        },
        kernel::translations_kept(old(k).sched.tasks@, old(k).mem@, final(k).mem@),
{
    let wait: UserWait = match k.sched.tasks[task].wait {
        None => {
            return ;
        },
        Some(wait) => wait,
    };
    let ghost t = k.sched.tasks@[task as int];
    assert(t.shape());
    let code: i64 = write_to_task(k, task, wait.buf, message);
    let ghost mid = k.mem@;
    set_saved_x0(k, task, code);
    proof {
        assert(code == delivery_code(t, old(k).mem@));
        assert(k.mem@ == mem::splice(mid, t.sp as int, bytes::le_bytes((code as u64) as int, 8)));
    }
    let ghost k1 = *k;
    wake(&mut k.sched, task);
    proof {
        lemma_woken_mem_ok(k1, k.sched.tasks@, task as int);
    }
}

/// A task whose receive has run past its deadline.
pub open spec fn expired(t: Task, now_ns: u64) -> bool {
    t.wait matches Some(w) && w.deadline_ns != 0 && now_ns >= w.deadline_ns
}

/// The channels after the waits of the expired ones among the first `n` tasks
/// are forgotten.
pub open spec fn expired_ipc(
    v: ipc::IpcView,
    tasks: Seq<Task>,
    now_ns: u64,
    n: int,
) -> ipc::IpcView
    decreases n,
{
    if n <= 1 {
        v
    } else {
        let before = expired_ipc(v, tasks, now_ns, n - 1);
        if expired(tasks[n - 1], now_ns) {
            before.cancelled(tasks[n - 1].wait.unwrap().channel, (n - 1) as usize)
        } else {
            before
        }
    }
}

/// The tasks after the expired ones among the first `n` have been woken.
pub open spec fn expired_tasks(tasks: Seq<Task>, now_ns: u64, n: int) -> Seq<Task> {
    Seq::new(
        tasks.len(),
        |i: int|
            if 1 <= i < n && expired(tasks[i], now_ns) {
                Task { wait: None, state: State::Ready, ..tasks[i] }
            } else {
                tasks[i]
            },
    )
}

/// Address `a` lies in the first word of an expired task's saved frame.
pub open spec fn expired_word(tasks: Seq<Task>, now_ns: u64, n: int, a: int) -> bool {
    exists|i: int|
        1 <= i < n && expired(#[trigger] tasks[i], now_ns) && tasks[i].sp <= a < tasks[i].sp + 8
}

/// Two stacks never overlap.
proof fn lemma_stacks_apart(k: Kernel, i: int, j: int, a: int)
    requires
        k.mem_ok(),
        0 <= i < k.sched.tasks@.len(),
        0 <= j < k.sched.tasks@.len(),
        i != j,
        k.sched.tasks@[i].kernel_stack_pages > 0,
        k.sched.tasks@[j].kernel_stack_pages > 0,
        k.sched.tasks@[i].kernel_stack_bottom <= a < k.sched.tasks@[i].kernel_stack_bottom
            + KERNEL_STACK_SIZE,
    ensures
        !(k.sched.tasks@[j].kernel_stack_bottom <= a < k.sched.tasks@[j].kernel_stack_bottom
            + KERNEL_STACK_SIZE),
{
    let tasks = k.sched.tasks@;
    assert(kernel::task_mem_ok(tasks[i], k.mem@));
    assert(kernel::task_mem_ok(tasks[j], k.mem@));
    if tasks[j].kernel_stack_bottom <= a < tasks[j].kernel_stack_bottom + KERNEL_STACK_SIZE {
        let f = a / 4096;
        assert(kernel::uses(k.map, tasks, k.sched.pending@, kernel::Owner::Stack(i), f));
        assert(kernel::uses(k.map, tasks, k.sched.pending@, kernel::Owner::Stack(j), f));
    }
}

/// What waking the tasks whose deadline has passed changes: they are ready,
/// wait for nothing, and find `Timeout` as their result.
pub open spec fn waits_expired(k0: Kernel, k1: Kernel, now_ns: u64) -> bool {
    let tasks = k0.sched.tasks@;
    &&& k1.same_tables(k0)
    &&& k1.metrics == k0.metrics
    &&& k1.sched.same_but_tasks(k0.sched)
    &&& k1.sched.tasks@ == expired_tasks(tasks, now_ns, MAX_TASKS as int)
    &&& k1.ipc@ == expired_ipc(k0.ipc@, tasks, now_ns, MAX_TASKS as int)
    &&& k1.mem@.len() == k0.mem@.len()
    &&& forall|i: int|
        1 <= i < MAX_TASKS && expired(#[trigger] tasks[i], now_ns) ==> mem::word(
            k1.mem@,
            tasks[i].sp as int,
        ) == (Error::Timeout.spec_code() as i64) as u64
    &&& forall|a: int|
        0 <= a < k0.mem@.len() && !expired_word(tasks, now_ns, MAX_TASKS as int, a)
            ==> #[trigger] k1.mem@[a] == k0.mem@[a]
}

/// Wakes every task whose receive deadline has passed, with `Timeout`.
pub fn expire_waits(k: &mut Kernel, now_ns: u64)
    requires
        old(k).wf(),
    ensures
        final(k).wf(),
        waits_expired(*old(k), *final(k), now_ns),
{
    let ghost tasks = old(k).sched.tasks@;
    let ghost m = old(k).mem@;
    let timeout: i64 = Error::Timeout.code();
    let mut id: usize = 1;
    assert(expired_tasks(tasks, now_ns, 1) =~= tasks);
    while id < MAX_TASKS
        invariant
            1 <= id <= MAX_TASKS,
            tasks == old(k).sched.tasks@,
            m == old(k).mem@,
            timeout == Error::Timeout.spec_code(),
            old(k).wf(),
            k.wf(),
            k.same_tables(*old(k)),
            k.metrics == old(k).metrics,
            k.sched.same_but_tasks(old(k).sched),
            k.sched.tasks@ == expired_tasks(tasks, now_ns, id as int),
            k.ipc@ == expired_ipc(old(k).ipc@, tasks, now_ns, id as int),
            k.mem@.len() == m.len(),
            forall|i: int|
                1 <= i < id && expired(#[trigger] tasks[i], now_ns) ==> mem::word(
                    k.mem@,
                    tasks[i].sp as int,
                ) == timeout as u64,
            forall|a: int|
                0 <= a < m.len() && !expired_word(tasks, now_ns, id as int, a)
                    ==> #[trigger] k.mem@[a] == m[a],
        decreases MAX_TASKS - id,
    {
        assert(k.sched.tasks@[id as int] == tasks[id as int]);
        assert(tasks[id as int].shape());
        assert(kernel::task_mem_ok(tasks[id as int], m));
        let ghost m1 = k.mem@;
        let late: Option<u32> = match k.sched.tasks[id].wait {
            None => None,
            Some(wait) => if wait.deadline_ns != 0 && now_ns >= wait.deadline_ns {
                Some(wait.channel)
            } else {
                None
            },
        };
        match late {
            None => {
                proof {
                    assert(!expired(tasks[id as int], now_ns));
                    assert(expired_tasks(tasks, now_ns, id + 1) =~= expired_tasks(
                        tasks,
                        now_ns,
                        id as int,
                    ));
                    assert forall|a: int|
                        0 <= a < m.len() && !expired_word(
                            tasks,
                            now_ns,
                            id + 1,
                            a,
                        ) implies #[trigger] k.mem@[a] == m[a] by {
                        if expired_word(tasks, now_ns, id as int, a) {
                            let i = choose|i: int|
                                1 <= i < id && expired(#[trigger] tasks[i], now_ns) && tasks[i].sp
                                    <= a < tasks[i].sp + 8;
                            assert(expired(tasks[i], now_ns));
                        }
                    }
                }
            },
            Some(channel) => {
                assert(expired(tasks[id as int], now_ns));
                ipc::cancel_waiter(&mut k.ipc, channel, id);
                set_saved_x0(k, id, timeout);
                let ghost k1 = *k;
                wake(&mut k.sched, id);
                proof {
                    lemma_woken_mem_ok(k1, k.sched.tasks@, id as int);
                    assert(expired_tasks(tasks, now_ns, id + 1) =~= woken(
                        expired_tasks(tasks, now_ns, id as int),
                        id as int,
                    ));
                    bytes::lemma_le_bytes_len((timeout as u64) as int, 8);
                    mem::lemma_word_written(m1, tasks[id as int].sp as int, timeout as u64);
                    assert forall|i: int|
                        1 <= i < id + 1 && expired(#[trigger] tasks[i], now_ns) implies mem::word(
                        k.mem@,
                        tasks[i].sp as int,
                    ) == timeout as u64 by {
                        if i < id {
                            assert(tasks[i].shape());
                            assert(kernel::task_mem_ok(tasks[i], m));
                            assert forall|a: int|
                                tasks[i].sp <= a < tasks[i].sp + 8 implies #[trigger] k.mem@[a]
                                == m1[a] by {
                                lemma_stacks_apart(*old(k), i, id as int, a);
                            }
                            mem::lemma_word_same(k.mem@, m1, tasks[i].sp as int);
                        }
                    }
                    assert forall|a: int|
                        0 <= a < m.len() && !expired_word(
                            tasks,
                            now_ns,
                            id + 1,
                            a,
                        ) implies #[trigger] k.mem@[a] == m[a] by {
                        assert(expired(tasks[id as int], now_ns));
                        assert(!(tasks[id as int].sp <= a < tasks[id as int].sp + 8));
                        if expired_word(tasks, now_ns, id as int, a) {
                            let i = choose|i: int|
                                1 <= i < id && expired(#[trigger] tasks[i], now_ns) && tasks[i].sp
                                    <= a < tasks[i].sp + 8;
                            assert(expired(tasks[i], now_ns));
                        }
                        assert(k.mem@[a] == m1[a]);
                    }
                }
            },
        }
        id = id + 1;
    }
}

/// A task that was run by a hand-off and has blocked gives the processor back to
/// its sender, where that is ready.
pub proof fn law_blocked_receiver_returns_to_sender(
    k0: Kernel,
    k1: Kernel,
    frame: u64,
    donor: usize,
    r: Result<Switch, usize>,
)
    requires
        k0.sched.wf(),
        switched_away(k0, k1, frame, r),
        r is Ok,
        k0.sched.hand_off == Some((donor, k0.sched.current)),
        k0.sched.tasks@[k0.sched.current as int].state == State::Blocked,
        donor < MAX_TASKS,
        k0.sched.tasks@[donor as int].state == State::Ready,
    ensures
        k1.sched.current == donor,
{
}

/// Leaving a task saves its frame, and the task that runs next is a ready one,
/// restored from its own frame under its own table. Unless the task gives the
/// processor back to one that handed it over, no ready task is passed over: none
/// stands nearer, going round from the one that leaves.
pub proof fn law_switch(k0: Kernel, k1: Kernel, frame: u64, sw: Switch, i: int)
    requires
        k0.wf(),
        switched_away(k0, k1, frame, Ok(sw)),
        0 <= i < 16,
        k0.sched.tasks@[i].state == State::Ready,
        i != k0.sched.current,
    ensures
        ({
            let cur = k0.sched.current as int;
            let next = k1.sched.current as int;
            let t0 = k0.sched.tasks@[cur];
            let back = t0.state == State::Blocked && k0.sched.hand_off is Some
                && k0.sched.hand_off.unwrap().1 == cur;
            &&& k1.sched.tasks@[next].state == State::Running
            &&& next != cur ==> k0.sched.tasks@[next].state == State::Ready
            &&& sw.frame == k1.sched.tasks@[next].sp
            &&& sw.ttbr0 == k1.sched.tasks@[next].ttbr0
            &&& next != cur && t0.state != State::Free ==> k1.sched.tasks@[cur].sp == frame
            &&& next != cur && t0.state == State::Running ==> k1.sched.tasks@[cur].state
                == State::Ready
            &&& next != cur && t0.state == State::Blocked ==> k1.sched.tasks@[cur].state
                == State::Blocked
            &&& !back ==> (next - cur + 15) % 16 <= (i - cur + 15) % 16
        }),
{
    let cur = k0.sched.current as int;
    let ready = parked(k0.sched.tasks@, cur, frame);
    assert(ready[i].state == State::Ready);
    lemma_nearest(ready, cur, i);
}

/// The next in turn is ready, and no ready task stands nearer.
proof fn lemma_nearest(ready: Seq<Task>, cur: int, i: int)
    requires
        ready.len() == 16,
        0 <= cur < 16,
        0 <= i < 16,
        ready[i].state == State::Ready,
    ensures
        0 <= next_ready(ready, cur, 1) < 16,
        ready[next_ready(ready, cur, 1)].state == State::Ready,
        (next_ready(ready, cur, 1) - cur + 15) % 16 <= (i - cur + 15) % 16,
{
    law_round_robin(ready, cur);
    let step = if i > cur {
        i - cur
    } else {
        i - cur + 16
    };
    lemma_turn(cur, step);
    assert((cur + step) % 16 == i);
    assert(ready[(cur + step) % (MAX_TASKS as int)].state == State::Ready);
    let first = choose|first: int|
        1 <= first <= step && next_ready(ready, cur, 1) == #[trigger] ((cur + first) % (
        MAX_TASKS as int));
    lemma_turn(cur, first);
}

/// Going round sixteen places, `step` places on from `cur`.
proof fn lemma_turn(cur: int, step: int)
    requires
        0 <= cur < 16,
        1 <= step <= 16,
    ensures
        (cur + step) % 16 == if cur + step < 16 {
            cur + step
        } else {
            cur + step - 16
        },
        ((cur + step) % 16 - cur + 15) % 16 == step - 1,
{
    let next = (cur + step) % 16;
    if cur + step < 16 {
        assert(next - cur + 15 == 16 + (step - 1));
    } else {
        assert(next - cur + 15 == step - 1);
    }
}

/// A task whose kernel stack is whole is left without complaint, and one that has
/// overwritten any of the eight words at its end is reported.
pub proof fn law_overrun(k0: Kernel, k1: Kernel, frame: u64, r: Result<Switch, usize>, i: int)
    requires
        k0.wf(),
        switched_away(k0, k1, frame, r),
        0 <= i < 8,
    ensures
        ({
            let t = k0.sched.tasks@[k0.sched.current as int];
            let bottom = t.kernel_stack_bottom as int;
            &&& t.kernel_stack_pages > 0 && mem::word(k0.mem@, bottom + 8 * i)
                != 0x57AC_C0DE_57AC_C0DE ==> r == Err::<Switch, usize>(k0.sched.current)
            &&& (forall|j: int|
                0 <= j < 8 ==> mem::word(k0.mem@, #[trigger] (bottom + 8 * j))
                    == 0x57AC_C0DE_57AC_C0DE) ==> r is Ok
            &&& t.kernel_stack_pages == 0 ==> r is Ok
        }),
{
    let t = k0.sched.tasks@[k0.sched.current as int];
    assert(t.shape());
    assert(t.kernel_stack_bottom + 8 * i == t.kernel_stack_bottom as int + 8 * i);
}

/// A hand-off to a ready task runs that task next, from its own frame under its own
/// table, and the one that handed over stays ready.
pub proof fn law_hand_off(k0: Kernel, k1: Kernel, frame: u64, target: usize, sw: Switch)
    requires
        k0.wf(),
        handed_off(k0, k1, frame, target, Ok(sw)),
        target < 16,
        target != k0.sched.current,
        k0.sched.tasks@[target as int].state == State::Ready,
        k0.sched.tasks@[k0.sched.current as int].state == State::Running,
    ensures
        k1.sched.current == target,
        k1.sched.tasks@[target as int].state == State::Running,
        sw.frame == k0.sched.tasks@[target as int].sp,
        sw.ttbr0 == k0.sched.tasks@[target as int].ttbr0,
        k1.sched.tasks@[k0.sched.current as int].state == State::Ready,
        k1.sched.tasks@[k0.sched.current as int].sp == frame,
        k1.sched.hand_off == Some((k0.sched.current, target)),
{
}

/// What the tick finds of a channel's waiter once the deadlines have been looked at.
proof fn lemma_expired_waiters(v: ipc::IpcView, tasks: Seq<Task>, now_ns: u64, n: int, c: int)
    requires
        0 <= c < 32,
        v.chans[c].active,
        v.chans.len() == 32,
        0 <= n <= 16,
    ensures
        expired_ipc(v, tasks, now_ns, n).chans.len() == 32,
        expired_ipc(v, tasks, now_ns, n).chans[c].active,
        expired_ipc(v, tasks, now_ns, n).chans[c].queue == v.chans[c].queue,
        expired_ipc(v, tasks, now_ns, n).chans[c].waiter == match v.chans[c].waiter {
            Some(w) => if 1 <= w < n && expired(tasks[w as int], now_ns)
                && tasks[w as int].wait.unwrap().channel == c {
                None
            } else {
                Some(w)
            },
            None => None,
        },
    decreases n,
{
    if n > 1 {
        lemma_expired_waiters(v, tasks, now_ns, n - 1, c);
        let before = expired_ipc(v, tasks, now_ns, n - 1);
        let t = tasks[n - 1];
        if expired(t, now_ns) {
            let id = t.wait.unwrap().channel;
            let last = (n - 1) as usize;
            assert(expired_ipc(v, tasks, now_ns, n) == before.cancelled(id, last));
            if id == c {
                assert(before.live(id));
                if before.chans[c].waiter == Some(last) {
                    assert(tasks[last as int] == t);
                }
            }
        }
    }
}

/// Once its deadline has passed, a waiting task is ready, waits for nothing, finds
/// -6 as the result of its receive, and is not woken by a later message. A task
/// without a deadline, or before it, waits on. No message is touched.
pub proof fn law_deadlines(k0: Kernel, k1: Kernel, now_ns: u64, i: usize, c: int)
    requires
        k0.wf(),
        waits_expired(k0, k1, now_ns),
        1 <= i < 16,
        k0.sched.tasks@[i as int].wait is Some,
        c == k0.sched.tasks@[i as int].wait.unwrap().channel,
        c < k0.ipc@.next_id,
    ensures
        ({
            let t0 = k0.sched.tasks@[i as int];
            let t1 = k1.sched.tasks@[i as int];
            let deadline = t0.wait.unwrap().deadline_ns;
            let waiter = k0.ipc@.chans[c].waiter;
            &&& deadline != 0 && deadline <= now_ns ==> {
                &&& t1.state == State::Ready
                &&& t1.wait is None
                &&& t1.sp == t0.sp
                &&& mem::word(k1.mem@, t0.sp as int) == (-6) as i64 as u64
                &&& k1.ipc@.chans[c].waiter != Some(i)
            }
            &&& deadline == 0 || now_ns < deadline ==> t1 == t0 && (waiter == Some(i)
                ==> k1.ipc@.chans[c].waiter == Some(i))
            &&& k1.ipc@.chans[c].queue == k0.ipc@.chans[c].queue
        }),
{
    ipc::law_bounds(k0.ipc);
    lemma_expired_waiters(k0.ipc@, k0.sched.tasks@, now_ns, 16, c);
}

/// The tasks that are counted are those in slots that are neither free nor reserved.
pub proof fn law_live_count(tasks: Seq<Task>, n: int)
    requires
        0 <= n < tasks.len(),
    ensures
        live_count(tasks, 0) == 0,
        tasks[n].state == State::Free || tasks[n].state == State::Reserved ==> live_count(
            tasks,
            n + 1,
        ) == live_count(tasks, n),
        tasks[n].state == State::Ready || tasks[n].state == State::Running || tasks[n].state
            == State::Blocked ==> live_count(tasks, n + 1) == live_count(tasks, n) + 1,
{
}

} // verus!
