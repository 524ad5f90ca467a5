//! Kernel-owned task identity: a small table from task id to display name.
//! Tasks register themselves on entry, so a name follows the task whatever id
//! the scheduler gives it.
use vstd::prelude::*;

verus! {

pub const MAX: usize = 16;

pub struct TaskNames {
    names: Vec<&'static str>,
}

impl TaskNames {
    pub closed spec fn view(&self) -> Seq<&'static str> {
        self.names@
    }

    pub open spec fn wf(&self) -> bool {
        self@.len() == MAX
    }

    pub fn new() -> (t: TaskNames)
        ensures
            t.wf(),
            t@ == Seq::new(MAX as nat, |i: int| ""),
    {
        let mut names: Vec<&'static str> = Vec::new();
        while names.len() < MAX
            invariant
                names@.len() <= MAX,
                forall|i: int| 0 <= i < names@.len() ==> #[trigger] names@[i] == "",
            decreases MAX - names@.len(),
        {
            names.push("");
        }
        let t = TaskNames { names };
        assert(t@ =~= Seq::new(MAX as nat, |i: int| ""));
        t
    }
}

/// Registers a display name for task `id`.
pub fn register_current(t: &mut TaskNames, id: usize, name: &'static str)
    requires
        old(t).wf(),
    ensures
        final(t).wf(),
        final(t)@ == if id < MAX {
            old(t)@.update(id as int, name)
        } else {
            old(t)@
        },
{
    if id < MAX {
        t.names[id] = name;
    }
}

/// The name registered for a task id, or the empty string if none.
pub fn name(t: &TaskNames, id: usize) -> (r: &'static str)
    requires
        t.wf(),
    ensures
        r == if id < MAX {
            t@[id as int]
        } else {
            ""
        },
{
    if id < MAX {
        t.names[id]
    } else {
        ""
    }
}

} // verus!
