//! Per-task handle tables. A handle is a slot index; the slot names a channel
//! and what the task may do with it. Tasks never see raw channel numbers.
use vstd::prelude::*;

use crate::abi::{Error, Handle, Rights, MAX_HANDLES};

verus! {

#[derive(Clone, Copy, Debug, PartialEq, Eq, Structural)]
pub struct Slot {
    pub channel: u32,
    pub rights: Rights,
}

pub struct HandleTable {
    slots: Vec<Option<Slot>>,
}

pub open spec fn allows(have: Rights, need: Rights) -> bool {
    have.0 & need.0 == need.0
}

/// The occupied slots among the first `n`, in order, with their indices.
pub open spec fn occupied(s: Seq<Option<Slot>>, n: int) -> Seq<(u32, Slot)>
    decreases n,
{
    if n <= 0 {
        Seq::empty()
    } else {
        match s[n - 1] {
            Some(slot) => occupied(s, n - 1).push(((n - 1) as u32, slot)),
            None => occupied(s, n - 1),
        }
    }
}

impl HandleTable {
    pub closed spec fn view(&self) -> Seq<Option<Slot>> {
        self.slots@
    }

    pub open spec fn wf(&self) -> bool {
        self@.len() == MAX_HANDLES
    }

    /// What a lookup of `handle` gives a task that needs `need`.
    pub open spec fn spec_lookup(&self, handle: Handle, need: Rights) -> Result<u32, Error> {
        if handle.0 >= MAX_HANDLES || self@[handle.0 as int] is None {
            Err(Error::NoSuchHandle)
        } else {
            let slot = self@[handle.0 as int].unwrap();
            if allows(slot.rights, need) {
                Ok(slot.channel)
            } else {
                Err(Error::NoRight)
            }
        }
    }

    /// A table without any handle.
    pub fn empty() -> (t: HandleTable)
        ensures
            t.wf(),
            t@ == Seq::new(MAX_HANDLES as nat, |i: int| None::<Slot>),
    {
        let mut slots: Vec<Option<Slot>> = Vec::new();
        while slots.len() < MAX_HANDLES
            invariant
                slots@.len() <= MAX_HANDLES,
                forall|i: int| 0 <= i < slots@.len() ==> #[trigger] slots@[i] is None,
            decreases MAX_HANDLES - slots@.len(),
        {
            slots.push(None);
        }
        let t = HandleTable { slots };
        assert(t@ =~= Seq::new(MAX_HANDLES as nat, |i: int| None::<Slot>));
        t
    }

    /// A table with the same handles.
    pub fn copy(&self) -> (t: HandleTable)
        requires
            self.wf(),
        ensures
            t.wf(),
            t@ == self@,
    {
        let mut slots: Vec<Option<Slot>> = Vec::new();
        while slots.len() < MAX_HANDLES
            invariant
                self.wf(),
                slots@.len() <= MAX_HANDLES,
                slots@ =~= self@.subrange(0, slots@.len() as int),
            decreases MAX_HANDLES - slots@.len(),
        {
            let i: usize = slots.len();
            slots.push(self.slots[i]);
        }
        let t = HandleTable { slots };
        assert(t@ =~= self@);
        t
    }

    /// The channel behind `handle`, if it carries `need`.
    pub fn lookup(&self, handle: Handle, need: Rights) -> (r: Result<u32, Error>)
        requires
            self.wf(),
        ensures
            r == self.spec_lookup(handle, need),
    {
        if handle.0 as usize >= self.slots.len() {
            return Err(Error::NoSuchHandle);
        }
        match self.slots[handle.0 as usize] {
            None => Err(Error::NoSuchHandle),
            Some(slot) => if slot.rights.contains(need) {
                Ok(slot.channel)
            } else {
                Err(Error::NoRight)
            },
        }
    }

    /// Puts `slot` into the lowest empty place and returns its handle.
    pub fn insert(&mut self, slot: Slot) -> (r: Result<Handle, Error>)
        requires
            old(self).wf(),
        ensures
            final(self).wf(),
            match r {
                Ok(h) => {
                    &&& h.0 < MAX_HANDLES
                    &&& old(self)@[h.0 as int] is None
                    &&& forall|i: int| 0 <= i < h.0 ==> #[trigger] old(self)@[i] is Some
                    &&& final(self)@ == old(self)@.update(h.0 as int, Some(slot))
                },
                Err(e) => {
                    &&& e == Error::TableFull
                    &&& forall|i: int| 0 <= i < MAX_HANDLES ==> #[trigger] old(self)@[i] is Some
                    &&& final(self)@ == old(self)@
                },
            },
    {
        let mut i: usize = 0;
        while i < MAX_HANDLES
            invariant
                i <= MAX_HANDLES,
                self@ == old(self)@,
                self.wf(),
                forall|j: int| 0 <= j < i ==> #[trigger] old(self)@[j] is Some,
            decreases MAX_HANDLES - i,
        {
            if self.slots[i].is_none() {
                self.slots[i] = Some(slot);
                return Ok(Handle(i as u32));
            }
            i = i + 1;
        }
        Err(Error::TableFull)
    }

    /// Whether no slot is empty.
    pub fn is_full(&self) -> (r: bool)
        requires
            self.wf(),
        ensures
            r == forall|i: int| 0 <= i < MAX_HANDLES ==> #[trigger] self@[i] is Some,
    {
        let mut i: usize = 0;
        while i < MAX_HANDLES
            invariant
                i <= MAX_HANDLES,
                self.wf(),
                forall|j: int| 0 <= j < i ==> #[trigger] self@[j] is Some,
            decreases MAX_HANDLES - i,
        {
            if self.slots[i].is_none() {
                assert(self@[i as int] is None);
                return false;
            }
            i = i + 1;
        }
        true
    }

    /// The slot behind `handle`.
    pub fn get(&self, handle: Handle) -> (r: Option<Slot>)
        requires
            self.wf(),
        ensures
            r == if handle.0 < MAX_HANDLES {
                self@[handle.0 as int]
            } else {
                None
            },
    {
        if (handle.0 as usize) < self.slots.len() {
            self.slots[handle.0 as usize]
        } else {
            None
        }
    }

    /// The slot behind `handle`, to be changed in place.
    pub fn get_mut(&mut self, handle: Handle) -> (r: Option<&mut Slot>)
        requires
            old(self).wf(),
        ensures
            final(self).wf(),
            match r {
                Some(slot) => {
                    &&& handle.0 < MAX_HANDLES
                    &&& old(self)@[handle.0 as int] == Some(*slot)
                    &&& final(self)@ == old(self)@.update(handle.0 as int, Some(*final(slot)))
                },
                None => {
                    &&& handle.0 >= MAX_HANDLES || old(self)@[handle.0 as int] is None
                    &&& final(self)@ == old(self)@
                },
            },
    {
        let i: usize = handle.0 as usize;
        if i < self.slots.len() {
            self.slots[i].as_mut()
        } else {
            None
        }
    }

    /// Every occupied slot, as (slot index, slot).
    pub fn slots(&self) -> (r: Vec<(u32, Slot)>)
        requires
            self.wf(),
        ensures
            r@ == occupied(self@, MAX_HANDLES as int),
    {
        let mut out: Vec<(u32, Slot)> = Vec::new();
        let mut i: usize = 0;
        while i < MAX_HANDLES
            invariant
                i <= MAX_HANDLES,
                self.wf(),
                out@ == occupied(self@, i as int),
            decreases MAX_HANDLES - i,
        {
            match self.slots[i] {
                Some(slot) => {
                    out.push((i as u32, slot));
                },
                None => {},
            }
            i = i + 1;
        }
        out
    }
}

/// Right after an insert, a lookup of the new handle finds its channel for
/// exactly the rights that went in.
pub proof fn law_insert_lookup(before: HandleTable, after: HandleTable, h: Handle, slot: Slot, need: Rights)
    requires
        before.wf(),
        h.0 < MAX_HANDLES,
        after@ == before@.update(h.0 as int, Some(slot)),
    ensures
        after.spec_lookup(h, need) == if allows(slot.rights, need) {
            Ok::<u32, Error>(slot.channel)
        } else {
            Err(Error::NoRight)
        },
        forall|g: Handle|
            g.0 != h.0 ==> #[trigger] after.spec_lookup(g, need) == before.spec_lookup(g, need),
{
}

/// A lookup finds the channel exactly where the slot is taken and carries every
/// right that is needed; a handle past the sixteen, or an empty slot, is no handle,
/// and a slot that lacks a right is told apart from that.
pub proof fn law_lookup(t: HandleTable, h: Handle, need: Rights)
    requires
        t.wf(),
        need.0 == 1 || need.0 == 2,
    ensures
        ({
            let taken = h.0 < 16 && t@[h.0 as int] is Some;
            let slot = t@[h.0 as int].unwrap();
            &&& !taken ==> t.spec_lookup(h, need) == Err::<u32, Error>(Error::NoSuchHandle)
            &&& taken && slot.rights.0 & need.0 == 0 ==> t.spec_lookup(h, need) == Err::<
                u32,
                Error,
            >(Error::NoRight)
            &&& taken && slot.rights.0 & need.0 != 0 ==> t.spec_lookup(h, need) == Ok::<
                u32,
                Error,
            >(slot.channel)
        }),
{
    if h.0 < 16 && t@[h.0 as int] is Some {
        let r: u32 = t@[h.0 as int].unwrap().rights.0;
        let n: u32 = need.0;
        assert(n == 1 || n == 2 ==> (r & n == 0 || r & n == n)) by (bit_vector);
    }
}

/// Every slot that is taken is listed once, under its own index, and in order.
pub proof fn law_listed(s: Seq<Option<Slot>>, n: int, i: int)
    requires
        0 <= n <= s.len() <= 16,
        0 <= i < occupied(s, n).len(),
    ensures
        occupied(s, n)[i].0 < n,
        s[occupied(s, n)[i].0 as int] == Some(occupied(s, n)[i].1),
        i > 0 ==> occupied(s, n)[i - 1].0 < occupied(s, n)[i].0,
    decreases n,
{
    if n > 0 {
        if i < occupied(s, n - 1).len() {
            law_listed(s, n - 1, i);
        } else if i > 0 {
            law_listed(s, n - 1, i - 1);
        }
    }
}

/// A slot that is taken is among those that are listed.
pub proof fn law_all_are_listed(s: Seq<Option<Slot>>, n: int, h: int)
    requires
        0 <= h < n <= s.len(),
        s.len() <= 16,
        s[h] is Some,
    ensures
        occupied(s, n).contains((h as u32, s[h].unwrap())),
    decreases n,
{
    let o = occupied(s, n);
    if h == n - 1 {
        assert(o[o.len() - 1] == (h as u32, s[h].unwrap()));
    } else {
        law_all_are_listed(s, n - 1, h);
        let p = occupied(s, n - 1);
        let j = choose|j: int| 0 <= j < p.len() && p[j] == (h as u32, s[h].unwrap());
        assert(o[j] == p[j]);
    }
}

} // verus!
