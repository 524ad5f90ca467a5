//! The task registry: the kernel's first-hand record of every task and every
//! service by name. The kernel keeps the facts; init keeps the policy.
use vstd::prelude::*;

use crate::abi::{ExitReason, NAME_LEN};
use crate::text;

verus! {

pub const MAX_SERVICES: usize = 32;

pub const MAX_TASKS: usize = 16;

/// A short name, cut to `NAME_LEN` bytes.
#[derive(Clone, Copy, Debug, PartialEq, Eq)]
pub struct Name {
    bytes: [u8; NAME_LEN],
    len: u8,
}

/// The first `NAME_LEN` bytes of `s`.
pub open spec fn cut(s: Seq<u8>) -> Seq<u8> {
    if s.len() > NAME_LEN {
        s.subrange(0, NAME_LEN as int)
    } else {
        s
    }
}

/// What a name shows: its bytes, or `?` where they are not text.
pub open spec fn shown(s: Seq<u8>) -> Seq<u8> {
    if vstd::utf8::valid_utf8(s) {
        s
    } else {
        seq![0x3Fu8]
    }
}

impl Name {
    /// The bytes of the name.
    pub closed spec fn view(&self) -> Seq<u8> {
        self.bytes@.subrange(0, self.len as int)
    }

    pub closed spec fn wf(&self) -> bool {
        self.len <= NAME_LEN
    }

    /// The name of nobody.
    pub fn empty() -> (n: Name)
        ensures
            n.wf(),
            n@ == Seq::<u8>::empty(),
    {
        let n = Name { bytes: [0;NAME_LEN], len: 0 };
        assert(n@ =~= Seq::<u8>::empty());
        n
    }

    pub fn new(name: &[u8]) -> (n: Name)
        ensures
            n.wf(),
            n@ == cut(name@),
    {
        let len: usize = if name.len() < NAME_LEN { name.len() } else { NAME_LEN };
        let mut bytes: [u8; NAME_LEN] = [0;NAME_LEN];
        let mut i: usize = 0;
        while i < len
            invariant
                i <= len <= NAME_LEN,
                len <= name@.len(),
                forall|j: int| 0 <= j < i ==> bytes@[j] == name@[j],
            decreases len - i,
        {
            bytes[i] = name[i];
            i = i + 1;
        }
        let n = Name { bytes, len: len as u8 };
        assert(n@ =~= cut(name@));
        n
    }

    /// The bytes of the name.
    pub fn to_vec(&self) -> (v: Vec<u8>)
        requires
            self.wf(),
        ensures
            v@ == self@,
    {
        let mut v: Vec<u8> = Vec::new();
        let mut i: usize = 0;
        while i < self.len as usize
            invariant
                self.wf(),
                i <= self.len,
                v@ =~= self.bytes@.subrange(0, i as int),
            decreases self.len - i,
        {
            v.push(self.bytes[i]);
            i = i + 1;
        }
        v
    }

    /// The name as text; `?` when its bytes are not UTF-8.
    pub fn as_str(&self) -> (v: Vec<u8>)
        requires
            self.wf(),
        ensures
            v@ == shown(self@),
    {
        let v: Vec<u8> = self.to_vec();
        if text::utf8_text(v.as_slice()).is_some() {
            v
        } else {
            vec![0x3Fu8]
        }
    }

    pub fn is_empty(&self) -> (r: bool)
        requires
            self.wf(),
        ensures
            r == (self@.len() == 0),
    {
        self.len == 0
    }
}

/// What the kernel knows of one service.
#[derive(Clone, Copy, Debug, PartialEq, Eq)]
pub struct ServiceRecord {
    pub name: Name,
    pub task: Option<u16>,
    pub starts: u64,
    pub exits: u64,
    pub last_exit: Option<ExitReason>,
}

impl ServiceRecord {
    pub open spec fn started(self, task: usize) -> ServiceRecord {
        ServiceRecord { task: Some(task as u16), starts: self.starts.wrapping_add(1), ..self }
    }

    pub open spec fn ended(self, task: usize, reason: ExitReason) -> ServiceRecord {
        if self.task == Some(task as u16) {
            ServiceRecord {
                task: None,
                exits: self.exits.wrapping_add(1),
                last_exit: Some(reason),
                ..self
            }
        } else {
            self
        }
    }
}

pub struct Registry {
    task_names: Vec<Name>,
    services: Vec<Option<ServiceRecord>>,
}

/// The record at `i` belongs to a service that shows as `name`.
pub open spec fn named(services: Seq<Option<ServiceRecord>>, i: int, name: Seq<u8>) -> bool {
    services[i] matches Some(r) && shown(r.name@) == shown(name)
}

/// No two records show the same name.
pub open spec fn distinct(services: Seq<Option<ServiceRecord>>) -> bool {
    forall|i: int, j: int|
        #![trigger services[i], services[j]]
        0 <= i < j < services.len() && services[i] is Some && services[j] is Some ==> shown(
            services[i].unwrap().name@,
        ) != shown(services[j].unwrap().name@)
}

impl Registry {
    pub closed spec fn names(&self) -> Seq<Name> {
        self.task_names@
    }

    pub closed spec fn records(&self) -> Seq<Option<ServiceRecord>> {
        self.services@
    }

    pub open spec fn wf(&self) -> bool {
        &&& self.names().len() == MAX_TASKS
        &&& self.records().len() == MAX_SERVICES
        &&& forall|i: int| 0 <= i < MAX_TASKS ==> (#[trigger] self.names()[i]).wf()
        &&& forall|i: int|
            0 <= i < MAX_SERVICES && (#[trigger] self.records()[i]) is Some
                ==> self.records()[i].unwrap().name.wf()
        &&& distinct(self.records())
    }

    /// A registry that has seen no task.
    pub fn new() -> (r: Registry)
        ensures
            r.wf(),
            forall|i: int| 0 <= i < MAX_TASKS ==> (#[trigger] r.names()[i])@ == Seq::<u8>::empty(),
            r.records() == Seq::new(MAX_SERVICES as nat, |i: int| None::<ServiceRecord>),
    {
        let mut task_names: Vec<Name> = Vec::new();
        while task_names.len() < MAX_TASKS
            invariant
                task_names@.len() <= MAX_TASKS,
                forall|i: int|
                    0 <= i < task_names@.len() ==> (#[trigger] task_names@[i]).wf()
                        && task_names@[i]@ == Seq::<u8>::empty(),
            decreases MAX_TASKS - task_names@.len(),
        {
            task_names.push(Name::empty());
        }
        let mut services: Vec<Option<ServiceRecord>> = Vec::new();
        while services.len() < MAX_SERVICES
            invariant
                services@.len() <= MAX_SERVICES,
                forall|i: int| 0 <= i < services@.len() ==> #[trigger] services@[i] is None,
            decreases MAX_SERVICES - services@.len(),
        {
            services.push(None);
        }
        let r = Registry { task_names, services };
        assert(r.records() =~= Seq::new(MAX_SERVICES as nat, |i: int| None::<ServiceRecord>));
        r
    }
}

/// The slot for a service that shows as `name`: the first of that name, or
/// else the first empty one.
fn slot_for(r: &Registry, name: &Name) -> (slot: Option<usize>)
    requires
        r.wf(),
        name.wf(),
    ensures
        match slot {
            Some(i) => {
                &&& i < MAX_SERVICES
                &&& named(r.records(), i as int, name@) || r.records()[i as int] is None
                &&& named(r.records(), i as int, name@) ==> forall|j: int|
                    0 <= j < i ==> !named(r.records(), j, name@)
                &&& r.records()[i as int] is None ==> {
                    &&& forall|j: int| 0 <= j < MAX_SERVICES ==> !named(r.records(), j, name@)
                    &&& forall|j: int| 0 <= j < i ==> #[trigger] r.records()[j] is Some
                }
            },
            None => forall|j: int|
                0 <= j < MAX_SERVICES ==> !named(r.records(), j, name@)
                    && #[trigger] r.records()[j] is Some,
        },
{
    let wanted: Vec<u8> = name.as_str();
    let mut i: usize = 0;
    let mut empty: Option<usize> = None;
    while i < MAX_SERVICES
        invariant
            r.wf(),
            i <= MAX_SERVICES,
            wanted@ == shown(name@),
            forall|j: int| 0 <= j < i ==> !named(r.records(), j, name@),
            match empty {
                Some(k) => k < i && r.records()[k as int] is None && forall|j: int|
                    0 <= j < k ==> #[trigger] r.records()[j] is Some,
                None => forall|j: int| 0 <= j < i ==> #[trigger] r.records()[j] is Some,
            },
        decreases MAX_SERVICES - i,
    {
        match r.services[i] {
            Some(record) => {
                let own: Vec<u8> = record.name.as_str();
                if text::same_bytes(own.as_slice(), wanted.as_slice()) {
                    return Some(i);
                }
            },
            None => {
                if empty.is_none() {
                    empty = Some(i);
                }
            },
        }
        i = i + 1;
    }
    empty
}

/// A task started as the service `name`.
pub fn on_spawn(r: &mut Registry, task: usize, name: &[u8])
    requires
        old(r).wf(),
    ensures
        final(r).wf(),
        spawn_named(*old(r), *final(r), task, cut(name@)),
{
    let name: Name = Name::new(name);
    if task < MAX_TASKS {
        r.task_names[task] = name;
    }
    match slot_for(r, &name) {
        None => {},
        Some(i) => {
            let record: ServiceRecord = match r.services[i] {
                Some(record) => record,
                None => ServiceRecord { name, task: None, starts: 0, exits: 0, last_exit: None },
            };
            r.services[i] = Some(
                ServiceRecord {
                    name: record.name,
                    task: Some(task as u16),
                    starts: record.starts.wrapping_add(1),
                    exits: record.exits,
                    last_exit: record.last_exit,
                },
            );
            proof {
                let a = old(r).records();
                let b = r.records();
                assert(b =~= a.update(i as int, b[i as int]));
                assert forall|x: int, y: int|
                    #![trigger b[x], b[y]]
                    0 <= x < y < b.len() && b[x] is Some && b[y] is Some implies shown(
                    b[x].unwrap().name@,
                ) != shown(b[y].unwrap().name@) by {
                    if a[i as int] is None {
                        assert(!named(a, x, name@));
                        assert(!named(a, y, name@));
                    } else {
                        assert(a[x] is Some && a[y] is Some);
                    }
                }
            }
        },
    }
}

/// How the registry changes when `task` starts as `name`.
pub open spec fn spawn_named(
    before: Registry,
    after: Registry,
    task: usize,
    name: Seq<u8>,
) -> bool {
    &&& forall|i: int|
        0 <= i < MAX_TASKS ==> (#[trigger] after.names()[i])@ == if i == task {
            name
        } else {
            before.names()[i]@
        }
    &&& spawn_recorded(before.records(), after.records(), task, name)
}

/// How the records change when `task` starts as `name`: the record of that
/// name counts one more start, or a new one is made in the first empty slot,
/// or, when all slots hold other services, nothing is recorded.
pub open spec fn spawn_recorded(
    before: Seq<Option<ServiceRecord>>,
    after: Seq<Option<ServiceRecord>>,
    task: usize,
    name: Seq<u8>,
) -> bool {
    &&& forall|i: int|
        0 <= i < MAX_SERVICES && named(before, i, name) && (forall|j: int|
            0 <= j < i ==> !#[trigger] named(before, j, name)) ==> after == before.update(
            i,
            Some((#[trigger] before[i]).unwrap().started(task)),
        )
    &&& forall|i: int|
        0 <= i < MAX_SERVICES && (forall|j: int|
            0 <= j < MAX_SERVICES ==> !#[trigger] named(before, j, name)) && before[i] is None && (
        forall|j: int| 0 <= j < i ==> #[trigger] before[j] is Some) ==> {
            &&& (#[trigger] after[i]) is Some
            &&& after[i].unwrap().name@ == name
            &&& after[i].unwrap().task == Some(task as u16)
            &&& after[i].unwrap().starts == 1
            &&& after[i].unwrap().exits == 0
            &&& after[i].unwrap().last_exit is None
            &&& after == before.update(i, after[i])
        }
    &&& (forall|j: int|
        0 <= j < MAX_SERVICES ==> !named(before, j, name) && #[trigger] before[j] is Some) ==> after
        == before
}

/// How the registry changes when `task` ends: the service it ran counts one
/// more exit and runs no more, and the task's name is gone.
pub open spec fn exit_recorded(
    before: Registry,
    after: Registry,
    task: usize,
    reason: ExitReason,
) -> bool {
    &&& forall|i: int|
        0 <= i < MAX_TASKS ==> (#[trigger] after.names()[i])@ == if i == task {
            Seq::<u8>::empty()
        } else {
            before.names()[i]@
        }
    &&& forall|i: int|
        0 <= i < MAX_SERVICES ==> #[trigger] after.records()[i] == match before.records()[i] {
            Some(record) => Some(record.ended(task, reason)),
            None => None,
        }
}

/// A task ended.
pub fn on_exit(r: &mut Registry, task: usize, reason: ExitReason)
    requires
        old(r).wf(),
    ensures
        final(r).wf(),
        exit_recorded(*old(r), *final(r), task, reason),
{
    let mut i: usize = 0;
    while i < MAX_SERVICES
        invariant
            r.wf(),
            old(r).wf(),
            i <= MAX_SERVICES,
            r.names() == old(r).names(),
            forall|j: int|
                0 <= j < MAX_SERVICES ==> #[trigger] r.records()[j] == match old(r).records()[j] {
                    Some(record) => Some(
                        if j < i {
                            record.ended(task, reason)
                        } else {
                            record
                        },
                    ),
                    None => None,
                },
        decreases MAX_SERVICES - i,
    {
        match r.services[i] {
            Some(record) => {
                let hit: bool = match record.task {
                    Some(t) => t == task as u16,
                    None => false,
                };
                if hit {
                    r.services[i] = Some(
                        ServiceRecord {
                            name: record.name,
                            task: None,
                            starts: record.starts,
                            exits: record.exits.wrapping_add(1),
                            last_exit: Some(reason),
                        },
                    );
                }
            },
            None => {},
        }
        i = i + 1;
    }
    if task < MAX_TASKS {
        r.task_names[task] = Name::empty();
    }
}

/// The name a task was started as (empty for tasks never named).
pub fn name(r: &Registry, task: usize) -> (n: Name)
    requires
        r.wf(),
    ensures
        n.wf(),
        n@ == if task < MAX_TASKS {
            r.names()[task as int]@
        } else {
            Seq::<u8>::empty()
        },
{
    if task < MAX_TASKS {
        r.task_names[task]
    } else {
        Name::empty()
    }
}

/// A snapshot of every service record.
pub fn services(r: &Registry) -> (v: Vec<Option<ServiceRecord>>)
    requires
        r.wf(),
    ensures
        v@ == r.records(),
{
    let mut v: Vec<Option<ServiceRecord>> = Vec::new();
    let mut i: usize = 0;
    while i < MAX_SERVICES
        invariant
            r.wf(),
            i <= MAX_SERVICES,
            v@ =~= r.records().subrange(0, i as int),
        decreases MAX_SERVICES - i,
    {
        v.push(r.services[i]);
        i = i + 1;
    }
    assert(v@ =~= r.records());
    v
}

/// The start of `task` as `name` is recorded at `i`, and nowhere else.
pub open spec fn recorded_at(
    a: Seq<Option<ServiceRecord>>,
    b: Seq<Option<ServiceRecord>>,
    task: usize,
    name: Seq<u8>,
    i: int,
) -> bool {
    &&& 0 <= i < MAX_SERVICES
    &&& named(b, i, name)
    &&& b[i].unwrap().task == Some(task as u16)
    &&& match a[i] {
        Some(r) => named(a, i, name) && b[i] == Some(r.started(task)),
        None => b[i].unwrap().name@ == name && b[i].unwrap().starts == 1 && b[i].unwrap().exits == 0
            && b[i].unwrap().last_exit is None,
    }
    &&& b == a.update(i, b[i])
    &&& forall|j: int| 0 <= j < MAX_SERVICES && j != i ==> !#[trigger] named(b, j, name)
}

/// A start is recorded once: the task has its name, exactly one record shows that
/// name, with one more start and its exits kept, and every other record is as it
/// was.
pub proof fn law_start_is_recorded_once(
    before: Registry,
    after: Registry,
    task: usize,
    name: Seq<u8>,
    slot: int,
)
    requires
        before.wf(),
        after.wf(),
        spawn_named(before, after, task, cut(name)),
        0 <= slot < MAX_SERVICES,
        named(before.records(), slot, cut(name)) || before.records()[slot] is None,
    ensures
        task < MAX_TASKS ==> after.names()[task as int]@ == cut(name),
        exists|i: int| #[trigger]
            recorded_at(before.records(), after.records(), task, cut(name), i),
{
    let n = cut(name);
    let a = before.records();
    let b = after.records();
    let i = if exists|j: int| 0 <= j < MAX_SERVICES && #[trigger] named(a, j, n) {
        let j = choose|j: int| 0 <= j < MAX_SERVICES && #[trigger] named(a, j, n);
        assert forall|x: int| 0 <= x < j implies !#[trigger] named(a, x, n) by {
            assert(a[x] is Some && a[j] is Some ==> shown(a[x].unwrap().name@) != shown(
                a[j].unwrap().name@,
            ));
        }
        assert(b == a.update(j, Some(a[j].unwrap().started(task))));
        j
    } else {
        lemma_first_empty(a, slot);
        let j = choose|j: int|
            0 <= j <= slot && a[j] is None && forall|x: int|
                0 <= x < j ==> #[trigger] a[x] is Some;
        assert(b[j] is Some);
        j
    };
    assert(named(b, i, n));
    assert forall|j: int| 0 <= j < MAX_SERVICES && j != i implies !#[trigger] named(b, j, n) by {
        if b[j] is Some {
            if j < i {
                assert(shown(b[j].unwrap().name@) != shown(b[i].unwrap().name@));
            } else {
                assert(shown(b[i].unwrap().name@) != shown(b[j].unwrap().name@));
            }
        }
    }
    assert(recorded_at(a, b, task, n, i));
}

proof fn lemma_first_empty(a: Seq<Option<ServiceRecord>>, slot: int)
    requires
        0 <= slot < a.len(),
        a[slot] is None,
    ensures
        exists|j: int|
            0 <= j <= slot && a[j] is None && forall|x: int|
                0 <= x < j ==> #[trigger] a[x] is Some,
    decreases slot,
{
    if forall|x: int| 0 <= x < slot ==> #[trigger] a[x] is Some {
        assert(a[slot] is None);
    } else {
        let x = choose|x: int| 0 <= x < slot && !(#[trigger] a[x] is Some);
        lemma_first_empty(a, x);
    }
}

/// A start and an end in a record: a start counts one more and names the task; the
/// end of that task counts one more exit, says why, and leaves nobody running; the
/// end of any other task changes nothing. The name and the other count stay.
pub proof fn law_record(r: ServiceRecord, task: usize, other: usize, reason: ExitReason)
    requires
        task < 16,
        other < 16,
        r.starts < u64::MAX,
        r.exits < u64::MAX,
    ensures
        r.started(task).task == Some(task as u16),
        r.started(task).starts == r.starts + 1,
        r.started(task).exits == r.exits,
        r.started(task).last_exit == r.last_exit,
        r.started(task).name == r.name,
        ({
            let e = r.started(task).ended(task, reason);
            &&& e.task is None
            &&& e.starts == r.starts + 1
            &&& e.exits == r.exits + 1
            &&& e.last_exit == Some(reason)
            &&& e.name == r.name
        }),
        other != task ==> r.started(task).ended(other, reason) == r.started(task),
        r.task is None ==> r.ended(other, reason) == r,
{
}

/// A name keeps its first sixteen bytes.
pub proof fn law_name_is_cut(s: Seq<u8>, i: int)
    requires
        0 <= i < cut(s).len(),
    ensures
        cut(s).len() == if s.len() < 16 {
            s.len() as int
        } else {
            16
        },
        cut(s)[i] == s[i],
{
}

} // verus!
