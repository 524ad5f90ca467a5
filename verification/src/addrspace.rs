//! Per-task address spaces.
//!
//! Every task's top-level table copies the kernel's top-level entries, so the
//! kernel looks the same in every address space. Slot 16, the 1 GiB window at
//! `USER_BASE`, is private to the task: its code, data and stack live there,
//! open to the task and not global.
//!
//! The kernel never follows a user address by itself. `copy_from_user` and
//! `copy_to_user` translate through the task's own tables and copy through the
//! kernel's view of physical memory.
use vstd::prelude::*;

use crate::abi::{Error, USER_BASE, USER_SIZE};
use crate::frame_alloc;
use crate::frame_alloc::FrameAllocator;
use crate::mem;
use crate::mem::PhysMem;
use crate::wire::UserData;

verus! {

pub const VALID: u64 = 0x1;

pub const TABLE_OR_PAGE: u64 = 0x2;

pub const AP_EL0_RW: u64 = 0x40;

pub const AP_EL0_RO: u64 = 0xC0;

pub const AP_MASK: u64 = 0xC0;

pub const AF: u64 = 0x400;

pub const NG: u64 = 0x800;

pub const PXN: u64 = 0x20_0000_0000_0000;

pub const UXN: u64 = 0x40_0000_0000_0000;

pub const ADDR_MASK: u64 = 0x0000_FFFF_FFFF_F000;

/// The attribute index (bits 4:2) and the shareability (bits 9:8): the memory type.
pub const MEMORY_TYPE_MASK: u64 = 0x31C;

pub const PAGE: u64 = 4096;

pub const USER_L1_INDEX: usize = 16;

/// What the task may do with a page.
#[derive(Clone, Copy, Debug, PartialEq, Eq, Structural)]
pub enum Perm {
    ReadOnly,
    ReadWrite,
    ReadExec,
}

#[derive(Clone, Copy, Debug, PartialEq, Eq, Structural)]
pub enum SpaceError {
    OutOfMemory,
    OutsideWindow,
    AlreadyMapped,
}

/// Entry `i` of the table at `table`.
pub open spec fn entry(m: Seq<u8>, table: int, i: int) -> u64 {
    mem::word(m, table + 8 * i)
}

pub open spec fn valid(e: u64) -> bool {
    e & VALID != 0
}

/// The address that an entry holds.
pub open spec fn target(e: u64) -> int {
    (e & ADDR_MASK) as int
}

pub open spec fn l2_index(va: int) -> int {
    (va / 0x20_0000) % 512
}

pub open spec fn l3_index(va: int) -> int {
    (va / 4096) % 512
}

/// `[va, va + len)` lies entirely inside the user window.
pub open spec fn window(va: int, len: int) -> bool {
    USER_BASE <= va && va + len <= USER_BASE + USER_SIZE
}

/// The access bits of a page with permission `perm`.
pub open spec fn perm_bits(perm: Perm) -> u64 {
    match perm {
        Perm::ReadOnly => AP_EL0_RO | PXN | UXN,
        Perm::ReadWrite => AP_EL0_RW | PXN | UXN,
        Perm::ReadExec => AP_EL0_RO | PXN,
    }
}

/// The leaf entry that maps the page at `pa`.
pub open spec fn page_entry(pa: u64, memory_type: u64, perm: Perm) -> u64 {
    pa | VALID | TABLE_OR_PAGE | AF | NG | memory_type | perm_bits(perm)
}

/// The leaf entry allows a read (or a write, when `write`) from the task.
pub open spec fn allows(e: u64, write: bool) -> bool {
    if write {
        e & AP_MASK == AP_EL0_RW
    } else {
        e & AP_MASK == AP_EL0_RW || e & AP_MASK == AP_EL0_RO
    }
}

/// The leaf entry for window slot `(i, j)` below the top-level table `l1`, or
/// 0 where a table on the way is missing.
pub open spec fn leaf(m: Seq<u8>, l1: int, i: int, j: int) -> u64 {
    let e1 = entry(m, l1, USER_L1_INDEX as int);
    if !valid(e1) {
        0
    } else {
        let e2 = entry(m, target(e1), i);
        if !valid(e2) {
            0
        } else {
            entry(m, target(e2), j)
        }
    }
}

/// What a frame of an address space is used for.
pub enum Role {
    Root,
    Middle,
    Leaf(int),
    Page(int, int),
}

/// Every free frame lies in memory.
pub open spec fn pool_ok(free: Set<int>, size: int) -> bool {
    forall|f: int| #[trigger] free.contains(f) ==> 0 < f && (f + 1) * 4096 <= size
}

/// One task's page tables and the frames they use.
pub struct AddressSpace {
    l1: u64,
    asid: u16,
    frames: Vec<u64>,
    roles: Ghost<Map<int, Role>>,
}

/// What the kernel's own page tables tell every address space.
#[derive(Clone, Copy, Debug, PartialEq, Eq)]
pub struct KernelMap {
    pub l1: u64,
    pub l1_entries: usize,
    pub ram_memory_type: u64,
}

impl KernelMap {
    /// The kernel's top-level table lies in memory and in no free frame.
    pub open spec fn wf(self, size: int, free: Set<int>) -> bool {
        &&& USER_L1_INDEX < self.l1_entries <= 512
        &&& self.l1 + 8 * self.l1_entries <= size
        &&& self.ram_memory_type & !MEMORY_TYPE_MASK == 0
        &&& forall|f: int|
            #![trigger free.contains(f)]
            self.l1 as int / 4096 <= f && f * 4096 < self.l1 + 8 * self.l1_entries
                ==> !free.contains(f)
    }
}

impl AddressSpace {
    pub closed spec fn root(self) -> int {
        self.l1 as int
    }

    pub closed spec fn spec_asid(self) -> u16 {
        self.asid
    }

    /// The frames of the space, by address, and what each is used for.
    pub closed spec fn roles(self) -> Map<int, Role> {
        self.roles@
    }

    pub closed spec fn frame_list(self) -> Seq<u64> {
        self.frames@
    }

    pub open spec fn owns(self, frame: int, role: Role) -> bool {
        self.roles().dom().contains(frame) && self.roles()[frame] == role
    }

    pub open spec fn is_page(self, frame: int) -> bool {
        self.roles().dom().contains(frame) && self.roles()[frame] is Page
    }

    /// A frame of the space that holds a table.
    pub open spec fn is_table(self, frame: int) -> bool {
        self.roles().dom().contains(frame) && !(self.roles()[frame] is Page)
    }

    pub open spec fn frame_ok(frame: int, size: int) -> bool {
        &&& frame % 4096 == 0
        &&& 0 < frame
        &&& frame + 4096 <= size
        &&& frame < 0x1_0000_0000
    }

    pub open spec fn frames_ok(self, size: int) -> bool {
        &&& self.frame_list().no_duplicates()
        &&& forall|k: int|
            0 <= k < self.frame_list().len() ==> self.roles().dom().contains(
                (#[trigger] self.frame_list()[k]) as int,
            )
        &&& forall|f: int| #[trigger]
            self.roles().dom().contains(f) ==> 0 <= f <= u64::MAX && self.frame_list().contains(
                f as u64,
            )
        &&& forall|f: int| #[trigger]
            self.roles().dom().contains(f) ==> Self::frame_ok(f, size)
    }

    /// Every table that a walk reaches and every page that it ends in is a frame
    /// of the space, and each frame has one place in the tree.
    pub open spec fn tree_ok(self, m: Seq<u8>) -> bool {
        let e1 = entry(m, self.root(), USER_L1_INDEX as int);
        &&& self.owns(self.root(), Role::Root)
        &&& valid(e1) ==> {
            &&& self.owns(target(e1), Role::Middle)
            &&& forall|i: int|
                0 <= i < 512 && valid(#[trigger] entry(m, target(e1), i)) ==> self.owns(
                    target(entry(m, target(e1), i)),
                    Role::Leaf(i),
                )
        }
        &&& forall|i: int, j: int|
            0 <= i < 512 && 0 <= j < 512 && valid(#[trigger] leaf(m, self.root(), i, j))
                ==> self.owns(target(leaf(m, self.root(), i, j)), Role::Page(i, j))
    }

    pub open spec fn wf(self, m: Seq<u8>) -> bool {
        self.frames_ok(m.len() as int) && self.tree_ok(m)
    }

    /// No frame of the space is free.
    pub open spec fn apart(self, free: Set<int>) -> bool {
        forall|f: int| #[trigger] self.roles().dom().contains(f) ==> !free.contains(f / 4096)
    }

    pub open spec fn spec_leaf(self, m: Seq<u8>, va: int) -> u64 {
        leaf(m, self.root(), l2_index(va), l3_index(va))
    }

    /// Some page is mapped at `va`.
    pub open spec fn mapped(self, m: Seq<u8>, va: int) -> bool {
        valid(self.spec_leaf(m, va))
    }

    /// The physical address behind `va`, if the task may read it (or write it,
    /// when `write`).
    pub open spec fn spec_translate(self, m: Seq<u8>, va: int, write: bool) -> Option<int> {
        let e = self.spec_leaf(m, va);
        if window(va, 1) && valid(e) && allows(e, write) {
            Some(target(e) + va % 4096)
        } else {
            None
        }
    }

    /// How many tables a page at `va` still needs.
    pub open spec fn tables_missing(self, m: Seq<u8>, va: int) -> int {
        self.tables_missing_at(m, l2_index(va))
    }
}

proof fn lemma_table_entry(child: u64)
    by (bit_vector)
    requires
        child % 4096 == 0,
        child < 0x1_0000_0000,
    ensures
        (child | 0x1 | 0x2) & 0x1 != 0,
        (child | 0x1 | 0x2) & 0x0000_FFFF_FFFF_F000 == child,
{
}

proof fn lemma_page_entry_bits(pa: u64, mt: u64, access: u64)
    by (bit_vector)
    requires
        pa % 4096 == 0,
        pa < 0x1_0000_0000,
        mt & !0x31Cu64 == 0,
        access == 0xC0u64 | 0x20_0000_0000_0000 | 0x40_0000_0000_0000 || access == 0x40u64
            | 0x20_0000_0000_0000 | 0x40_0000_0000_0000 || access == 0xC0u64
            | 0x20_0000_0000_0000,
    ensures
        (pa | 0x1 | 0x2 | 0x400 | 0x800 | mt | access) & 0x1 != 0,
        (pa | 0x1 | 0x2 | 0x400 | 0x800 | mt | access) & 0x0000_FFFF_FFFF_F000 == pa,
        (pa | 0x1 | 0x2 | 0x400 | 0x800 | mt | access) & 0xC0 == access & 0xC0,
{
}

proof fn lemma_perm_bits()
    by (bit_vector)
    ensures
        (0xC0u64 | 0x20_0000_0000_0000 | 0x40_0000_0000_0000) & 0xC0 == 0xC0,
        (0x40u64 | 0x20_0000_0000_0000 | 0x40_0000_0000_0000) & 0xC0 == 0x40,
        (0xC0u64 | 0x20_0000_0000_0000) & 0xC0 == 0xC0,
        0u64 & 0x1 == 0,
{
}

/// A mapped page's entry is valid, names the page, and allows a write exactly
/// when the permission is read-write.
pub proof fn lemma_page_entry(pa: u64, memory_type: u64, perm: Perm)
    requires
        pa % 4096 == 0,
        pa < 0x1_0000_0000,
        memory_type & !MEMORY_TYPE_MASK == 0,
    ensures
        valid(page_entry(pa, memory_type, perm)),
        target(page_entry(pa, memory_type, perm)) == pa,
        allows(page_entry(pa, memory_type, perm), false),
        allows(page_entry(pa, memory_type, perm), true) == (perm == Perm::ReadWrite),
{
    lemma_page_entry_bits(pa, memory_type, perm_bits(perm));
    lemma_perm_bits();
}

/// Entries of different frames, or at different places of one frame, do not overlap.
proof fn lemma_entry_same(m: Seq<u8>, n: Seq<u8>, table: int, i: int)
    requires
        0 <= i < 512,
        forall|a: int| table + 8 * i <= a < table + 8 * i + 8 ==> #[trigger] m[a] == n[a],
    ensures
        entry(m, table, i) == entry(n, table, i),
{
    mem::lemma_word_same(m, n, table + 8 * i);
}

/// Memory that keeps the tables of a space keeps its translations.
pub proof fn lemma_tables_kept(s: AddressSpace, m: Seq<u8>, n: Seq<u8>)
    requires
        s.wf(m),
        m.len() == n.len(),
        forall|f: int| #[trigger] s.is_table(f) ==> mem::same_page(m, n, f),
    ensures
        s.wf(n),
        forall|i: int, j: int|
            0 <= i < 512 && 0 <= j < 512 ==> #[trigger] leaf(n, s.root(), i, j) == leaf(
                m,
                s.root(),
                i,
                j,
            ),
        entry(n, s.root(), USER_L1_INDEX as int) == entry(m, s.root(), USER_L1_INDEX as int),
        forall|va: int, w: bool| #[trigger]
            s.spec_translate(n, va, w) == s.spec_translate(m, va, w),
{
    let l1 = s.root();
    assert(s.is_table(l1));
    lemma_entry_same(m, n, l1, USER_L1_INDEX as int);
    let e1 = entry(m, l1, USER_L1_INDEX as int);
    if valid(e1) {
        let l2 = target(e1);
        assert(s.is_table(l2));
        assert forall|i: int| 0 <= i < 512 implies #[trigger] entry(n, l2, i) == entry(m, l2, i) by {
            lemma_entry_same(m, n, l2, i);
        }
        assert forall|i: int, j: int| 0 <= i < 512 && 0 <= j < 512 implies #[trigger] leaf(
            n,
            l1,
            i,
            j,
        ) == leaf(m, l1, i, j) by {
            let e2 = entry(m, l2, i);
            if valid(e2) {
                assert(s.is_table(target(e2)));
                lemma_entry_same(m, n, target(e2), j);
            }
        }
    }
    assert forall|i: int, j: int|
        0 <= i < 512 && 0 <= j < 512 && valid(#[trigger] leaf(n, l1, i, j)) implies s.owns(
        target(leaf(n, l1, i, j)),
        Role::Page(i, j),
    ) by {
        assert(leaf(n, l1, i, j) == leaf(m, l1, i, j));
    }
}

/// Hanging an empty table into the tree changes no leaf.
proof fn lemma_add_table(
    s: AddressSpace,
    t: AddressSpace,
    m: Seq<u8>,
    n: Seq<u8>,
    table: int,
    index: int,
    child: u64,
    role: Role,
)
    requires
        s.wf(m),
        t.root() == s.root(),
        t.frame_list() == s.frame_list().push(child),
        t.roles() == s.roles().insert(child as int, role),
        !s.roles().dom().contains(child as int),
        AddressSpace::frame_ok(child as int, m.len() as int),
        m.len() == n.len(),
        forall|a: int| child <= a < child + 4096 ==> #[trigger] n[a] == 0,
        forall|a: int|
            0 <= a < m.len() && !(child <= a < child + 4096) && !(table + 8 * index <= a < table + 8
                * index + 8) ==> #[trigger] n[a] == m[a],
        entry(n, table, index) == child | VALID | TABLE_OR_PAGE,
        !valid(entry(m, table, index)),
        ({
            let e1 = entry(m, s.root(), USER_L1_INDEX as int);
            ||| table == s.root() && index == USER_L1_INDEX && role == Role::Middle
            ||| valid(e1) && table == target(e1) && 0 <= index < 512 && role == Role::Leaf(index)
        }),
    ensures
        t.wf(n),
        forall|i: int, j: int|
            0 <= i < 512 && 0 <= j < 512 ==> #[trigger] leaf(n, s.root(), i, j) == leaf(
                m,
                s.root(),
                i,
                j,
            ),
{
    let l1 = s.root();
    let e1 = entry(m, l1, USER_L1_INDEX as int);
    lemma_table_entry(child);
    lemma_perm_bits();
    assert(s.roles().dom().contains(table));
    assert forall|f: int, k: int|
        s.roles().dom().contains(f) && 0 <= k < 512 && !(f == table && k == index) implies entry(
        n,
        f,
        k,
    ) == #[trigger] entry(m, f, k) by {
        assert forall|a: int| f + 8 * k <= a < f + 8 * k + 8 implies #[trigger] m[a] == n[a] by {
            assert(f != child);
            assert(AddressSpace::frame_ok(f, m.len() as int));
            assert(AddressSpace::frame_ok(table, m.len() as int));
        }
        lemma_entry_same(m, n, f, k);
    }
    assert forall|k: int| 0 <= k < 512 implies #[trigger] entry(n, child as int, k) == 0 by {
        mem::lemma_word_zero(n, child + 8 * k);
    }
    lemma_frames_pushed(s, t, child, role, m.len() as int);
    if valid(e1) {
        let l2 = target(e1);
        assert(s.owns(l2, Role::Middle));
        assert(table == l2);
        assert(l2 != l1);
        assert(entry(n, l1, USER_L1_INDEX as int) == e1);
        assert forall|i: int, j: int| 0 <= i < 512 && 0 <= j < 512 implies #[trigger] leaf(
            n,
            l1,
            i,
            j,
        ) == leaf(m, l1, i, j) by {
            if i != index {
                assert(entry(n, l2, i) == entry(m, l2, i));
                let e2 = entry(m, l2, i);
                if valid(e2) {
                    assert(s.owns(target(e2), Role::Leaf(i)));
                    assert(entry(n, target(e2), j) == entry(m, target(e2), j));
                }
            } else {
                assert(entry(n, child as int, j) == 0);
            }
        }
        assert forall|i: int|
            0 <= i < 512 && valid(#[trigger] entry(n, l2, i)) implies t.owns(
            target(entry(n, l2, i)),
            Role::Leaf(i),
        ) by {
            if i != index {
                assert(entry(n, l2, i) == entry(m, l2, i));
                assert(s.owns(target(entry(m, l2, i)), Role::Leaf(i)));
            }
        }
    } else {
        assert forall|i: int, j: int| 0 <= i < 512 && 0 <= j < 512 implies #[trigger] leaf(
            n,
            l1,
            i,
            j,
        ) == leaf(m, l1, i, j) by {
            assert(entry(n, child as int, i) == 0);
        }
    }
    assert forall|i: int, j: int|
        0 <= i < 512 && 0 <= j < 512 && valid(#[trigger] leaf(n, l1, i, j)) implies t.owns(
        target(leaf(n, l1, i, j)),
        Role::Page(i, j),
    ) by {
        assert(leaf(n, l1, i, j) == leaf(m, l1, i, j));
        assert(s.owns(target(leaf(m, l1, i, j)), Role::Page(i, j)));
    }
}

/// Writing one leaf entry changes that leaf and no other.
proof fn lemma_add_page(
    s: AddressSpace,
    t: AddressSpace,
    m: Seq<u8>,
    n: Seq<u8>,
    i0: int,
    j0: int,
    pa: u64,
    e: u64,
)
    requires
        s.wf(m),
        0 <= i0 < 512,
        0 <= j0 < 512,
        t.root() == s.root(),
        t.frame_list() == s.frame_list().push(pa),
        t.roles() == s.roles().insert(pa as int, Role::Page(i0, j0)),
        !s.roles().dom().contains(pa as int),
        AddressSpace::frame_ok(pa as int, m.len() as int),
        m.len() == n.len(),
        s.tables_missing_at(m, i0) == 0,
        valid(e),
        target(e) == pa,
        ({
            let l3 = target(entry(m, target(entry(m, s.root(), USER_L1_INDEX as int)), i0));
            &&& entry(n, l3, j0) == e
            &&& forall|a: int|
                0 <= a < m.len() && !(pa <= a < pa + 4096) && !(l3 + 8 * j0 <= a < l3 + 8 * j0 + 8)
                    ==> #[trigger] n[a] == m[a]
        }),
    ensures
        t.wf(n),
        leaf(n, s.root(), i0, j0) == e,
        forall|i: int, j: int|
            0 <= i < 512 && 0 <= j < 512 && !(i == i0 && j == j0) ==> #[trigger] leaf(
                n,
                s.root(),
                i,
                j,
            ) == leaf(m, s.root(), i, j),
{
    let l1 = s.root();
    let l2 = target(entry(m, l1, USER_L1_INDEX as int));
    let l3 = target(entry(m, l2, i0));
    assert(s.owns(l2, Role::Middle));
    assert(s.owns(l3, Role::Leaf(i0)));
    assert forall|f: int, k: int|
        s.roles().dom().contains(f) && 0 <= k < 512 && !(f == l3 && k == j0) implies entry(n, f, k)
        == #[trigger] entry(m, f, k) by {
        assert forall|a: int| f + 8 * k <= a < f + 8 * k + 8 implies #[trigger] m[a] == n[a] by {
            assert(f != pa);
            assert(AddressSpace::frame_ok(f, m.len() as int));
            assert(AddressSpace::frame_ok(l3, m.len() as int));
        }
        lemma_entry_same(m, n, f, k);
    }
    lemma_frames_pushed(s, t, pa, Role::Page(i0, j0), m.len() as int);
    assert(entry(n, l1, USER_L1_INDEX as int) == entry(m, l1, USER_L1_INDEX as int));
    assert(entry(n, l2, i0) == entry(m, l2, i0));
    assert forall|i: int, j: int|
        0 <= i < 512 && 0 <= j < 512 && !(i == i0 && j == j0) implies #[trigger] leaf(n, l1, i, j)
        == leaf(m, l1, i, j) by {
        assert(entry(n, l2, i) == entry(m, l2, i));
        let e2 = entry(m, l2, i);
        if valid(e2) {
            assert(s.owns(target(e2), Role::Leaf(i)));
            assert(entry(n, target(e2), j) == entry(m, target(e2), j));
        }
    }
    assert forall|i: int| 0 <= i < 512 && valid(#[trigger] entry(n, l2, i)) implies t.owns(
        target(entry(n, l2, i)),
        Role::Leaf(i),
    ) by {
        assert(entry(n, l2, i) == entry(m, l2, i));
        assert(s.owns(target(entry(m, l2, i)), Role::Leaf(i)));
    }
    assert forall|i: int, j: int|
        0 <= i < 512 && 0 <= j < 512 && valid(#[trigger] leaf(n, l1, i, j)) implies t.owns(
        target(leaf(n, l1, i, j)),
        Role::Page(i, j),
    ) by {
        if !(i == i0 && j == j0) {
            assert(leaf(n, l1, i, j) == leaf(m, l1, i, j));
            assert(s.owns(target(leaf(m, l1, i, j)), Role::Page(i, j)));
        }
    }
}

proof fn lemma_frames_pushed(s: AddressSpace, t: AddressSpace, frame: u64, role: Role, size: int)
    requires
        s.frames_ok(size),
        t.frame_list() == s.frame_list().push(frame),
        t.roles() == s.roles().insert(frame as int, role),
        !s.roles().dom().contains(frame as int),
        AddressSpace::frame_ok(frame as int, size),
    ensures
        t.frames_ok(size),
{
    assert forall|f: int| #[trigger] t.roles().dom().contains(f) implies 0 <= f <= u64::MAX
        && t.frame_list().contains(f as u64) by {
        if f == frame {
            assert(t.frame_list()[s.frame_list().len() as int] == frame);
        } else {
            assert(s.roles().dom().contains(f));
            let k = choose|k: int| 0 <= k < s.frame_list().len() && s.frame_list()[k] == f as u64;
            assert(t.frame_list()[k] == f as u64);
        }
    }
    assert forall|k: int| 0 <= k < t.frame_list().len() implies t.roles().dom().contains(
        (#[trigger] t.frame_list()[k]) as int,
    ) by {
        if k < s.frame_list().len() {
            assert(t.frame_list()[k] == s.frame_list()[k]);
            assert(s.roles().dom().contains(s.frame_list()[k] as int));
        }
    }
    assert forall|a: int, b: int|
        0 <= a < t.frame_list().len() && 0 <= b < t.frame_list().len() && a
            != b implies t.frame_list()[a] != t.frame_list()[b] by {
        if a < s.frame_list().len() {
            assert(s.roles().dom().contains(s.frame_list()[a] as int));
        }
        if b < s.frame_list().len() {
            assert(s.roles().dom().contains(s.frame_list()[b] as int));
        }
    }
}

/// Reads entry `index` of the table at `table`.
fn read_entry(m: &PhysMem, table: u64, index: usize) -> (e: u64)
    requires
        index < 512,
        table + 8 * index + 8 <= m@.len(),
    ensures
        e == entry(m@, table as int, index as int),
{
    proof {
        m.lemma_size();
    }
    m.read_word(table + 8 * (index as u64))
}

/// Writes entry `index` of the table at `table`.
fn write_entry(m: &mut PhysMem, table: u64, index: usize, value: u64)
    requires
        index < 512,
        table + 8 * index + 8 <= old(m)@.len(),
    ensures
        final(m)@.len() == old(m)@.len(),
        entry(final(m)@, table as int, index as int) == value,
        forall|a: int|
            0 <= a < old(m)@.len() && !(table + 8 * index <= a < table + 8 * index + 8)
                ==> #[trigger] final(m)@[a] == old(m)@[a],
{
    proof {
        m.lemma_size();
    }
    m.write_word(table + 8 * (index as u64), value);
}

/// Whether `[va, va + len)` lies entirely inside the user window.
pub fn in_window(va: u64, len: u64) -> (r: bool)
    ensures
        r == window(va as int, len as int),
{
    va >= USER_BASE && len <= USER_SIZE && va - USER_BASE <= USER_SIZE - len
}

proof fn lemma_va_bits(va: u64)
    by (bit_vector)
    ensures
        (va >> 30) & 0x1FF == (va / 0x4000_0000) % 512,
        (va >> 21) & 0x1FF == (va / 0x20_0000) % 512,
        (va >> 12) & 0x1FF == (va / 4096) % 512,
        va & 0xFFF == va % 4096,
        va & !0xFFFu64 == va - va % 4096,
{
}

proof fn lemma_join(e: u64, va: u64)
    by (bit_vector)
    ensures
        (e & 0x0000_FFFF_FFFF_F000) | (va & 0xFFF) == (e & 0x0000_FFFF_FFFF_F000) + va % 4096,
        (e & 0x0000_FFFF_FFFF_F000) % 4096 == 0,
{
}

impl AddressSpace {
    pub open spec fn tables_missing_at(self, m: Seq<u8>, i: int) -> int {
        let e1 = entry(m, self.root(), USER_L1_INDEX as int);
        if !valid(e1) {
            2
        } else if !valid(entry(m, target(e1), i)) {
            1
        } else {
            0
        }
    }

    /// Takes a frame for the space and fills it with zeros.
    fn alloc_zeroed(&mut self, fa: &mut FrameAllocator, m: &mut PhysMem) -> (r: Result<
        u64,
        SpaceError,
    >)
        requires
            old(fa).wf(),
            pool_ok(old(fa)@, old(m)@.len() as int),
        ensures
            final(fa).wf(),
            final(self).l1 == old(self).l1,
            final(self).asid == old(self).asid,
            final(self).roles == old(self).roles,
            final(m)@.len() == old(m)@.len(),
            match r {
                Ok(frame) => {
                    &&& old(fa)@.contains(frame as int / 4096)
                    &&& AddressSpace::frame_ok(frame as int, old(m)@.len() as int)
                    &&& final(fa)@ == old(fa)@.remove(frame as int / 4096)
                    &&& final(fa).count() == old(fa).count() - 1
                    &&& final(self).frames@ == old(self).frames@.push(frame)
                    &&& forall|a: int| frame <= a < frame + 4096 ==> #[trigger] final(m)@[a] == 0
                    &&& forall|a: int|
                        0 <= a < old(m)@.len() && !(frame <= a < frame + 4096)
                            ==> #[trigger] final(m)@[a] == old(m)@[a]
                },
                Err(e) => {
                    &&& e == SpaceError::OutOfMemory
                    &&& old(fa)@ == Set::<int>::empty()
                    &&& *final(fa) == *old(fa)
                    &&& *final(self) == *old(self)
                    &&& *final(m) == *old(m)
                },
            },
    {
        match frame_alloc::allocate(fa) {
            None => Err(SpaceError::OutOfMemory),
            Some(frame) => {
                proof {
                    frame_alloc::law_free_frames_in_range(*old(fa), frame as int / 4096);
                }
                m.zero(frame, PAGE);
                self.frames.push(frame);
                Ok(frame)
            },
        }
    }

    /// The table that entry `index` of `table` names. A missing one is made,
    /// empty, and hung in.
    fn child_table(
        &mut self,
        fa: &mut FrameAllocator,
        m: &mut PhysMem,
        table: u64,
        index: usize,
    ) -> (r: Result<u64, SpaceError>)
        requires
            old(self).wf(old(m)@),
            old(self).apart(old(fa)@),
            old(fa).wf(),
            pool_ok(old(fa)@, old(m)@.len() as int),
            ({
                let e1 = entry(old(m)@, old(self).root(), USER_L1_INDEX as int);
                ||| table == old(self).root() && index == USER_L1_INDEX
                ||| valid(e1) && table == target(e1) && index < 512
            }),
        ensures
            final(self).grown(*old(self), old(m)@, final(m)@, *old(fa), *final(fa)),
            forall|i: int, j: int|
                0 <= i < 512 && 0 <= j < 512 ==> #[trigger] leaf(
                    final(m)@,
                    final(self).root(),
                    i,
                    j,
                ) == leaf(old(m)@, old(self).root(), i, j),
            match r {
                Ok(child) => {
                    &&& valid(entry(final(m)@, table as int, index as int))
                    &&& child == target(entry(final(m)@, table as int, index as int))
                    &&& forall|f: int, k: int|
                        old(self).roles().dom().contains(f) && 0 <= k < 512 && !(f == table && k
                            == index) ==> #[trigger] entry(final(m)@, f, k) == entry(
                            old(m)@,
                            f,
                            k,
                        )
                    &&& valid(entry(old(m)@, table as int, index as int)) ==> *final(fa)
                        == *old(fa) && final(m)@ == old(m)@ && *final(self) == *old(self)
                    &&& !valid(entry(old(m)@, table as int, index as int)) ==> old(fa)@.len()
                        == final(fa)@.len() + 1 && forall|k: int|
                        0 <= k < 512 ==> !valid(#[trigger] entry(final(m)@, child as int, k))
                },
                Err(e) => {
                    &&& e == SpaceError::OutOfMemory
                    &&& !valid(entry(old(m)@, table as int, index as int))
                    &&& old(fa)@ == Set::<int>::empty()
                    &&& *final(fa) == *old(fa)
                    &&& final(m)@ == old(m)@
                    &&& *final(self) == *old(self)
                },
            },
    {
        proof {
            assert(self.roles().dom().contains(table as int));
            assert(AddressSpace::frame_ok(table as int, m@.len() as int));
        }
        let e: u64 = read_entry(m, table, index);
        if e & VALID != 0 {
            return Ok(e & ADDR_MASK);
        }
        let ghost role = if table == self.root() {
            Role::Middle
        } else {
            Role::Leaf(index as int)
        };
        match self.alloc_zeroed(fa, m) {
            Err(err) => Err(err),
            Ok(child) => {
                let ghost zeroed = m@;
                let ghost s0 = *old(self);
                let ghost m0 = old(m)@;
                proof {
                    assert(!s0.roles().dom().contains(child as int));
                    frame_alloc::lemma_free_finite(*old(fa));
                }
                write_entry(m, table, index, child | VALID | TABLE_OR_PAGE);
                self.roles = Ghost(self.roles@.insert(child as int, role));
                proof {
                    lemma_table_entry(child);
                    assert forall|a: int| child <= a < child + 4096 implies #[trigger] m@[a]
                        == 0 by {
                        assert(zeroed[a] == 0);
                    }
                    assert forall|a: int|
                        0 <= a < m0.len() && !(child <= a < child + 4096) && !(table + 8 * index
                            <= a < table + 8 * index + 8) implies #[trigger] m@[a] == m0[a] by {
                        assert(zeroed[a] == m0[a]);
                    }
                    let e1 = entry(m0, s0.root(), USER_L1_INDEX as int);
                    if valid(e1) && table == target(e1) {
                        assert(s0.owns(table as int, Role::Middle));
                        assert(s0.owns(s0.root(), Role::Root));
                        assert(table != s0.root());
                    }
                    lemma_add_table(
                        s0,
                        *self,
                        m0,
                        m@,
                        table as int,
                        index as int,
                        child,
                        role,
                    );
                    assert forall|f: int, k: int|
                        s0.roles().dom().contains(f) && 0 <= k < 512 && !(f == table && k
                            == index) implies #[trigger] entry(m@, f, k) == entry(m0, f, k) by {
                        assert forall|a: int| f + 8 * k <= a < f + 8 * k + 8 implies #[trigger] m0[a]
                            == m@[a] by {
                            assert(f != child);
                            assert(AddressSpace::frame_ok(f, m0.len() as int));
                        }
                        lemma_entry_same(m0, m@, f, k);
                    }
                    assert forall|k: int| 0 <= k < 512 implies !valid(
                        #[trigger] entry(m@, child as int, k),
                    ) by {
                        mem::lemma_word_zero(m@, child + 8 * k);
                        lemma_perm_bits();
                    }
                    assert forall|f: int| #[trigger] s0.is_page(f) implies mem::same_page(
                        m0,
                        m@,
                        f,
                    ) by {
                        assert(AddressSpace::frame_ok(f, m0.len() as int));
                        assert(f != table);
                    }
                }
                Ok(child)
            },
        }
    }

    /// What every step that adds frames to a space keeps: the space stays well
    /// formed, new frames come out of the pool, pages keep their contents, and
    /// memory outside the space is not touched.
    pub open spec fn grown(
        self,
        before: AddressSpace,
        m: Seq<u8>,
        n: Seq<u8>,
        fa: FrameAllocator,
        fb: FrameAllocator,
    ) -> bool {
        &&& fb.wf()
        &&& fa.count() - fb.count() == fa@.len() - fb@.len()
        &&& self.wf(n)
        &&& self.apart(fb@)
        &&& self.root() == before.root()
        &&& self.spec_asid() == before.spec_asid()
        &&& n.len() == m.len()
        &&& pool_ok(fb@, n.len() as int)
        &&& forall|f: int| #[trigger] fb@.contains(f) ==> fa@.contains(f)
        &&& forall|f: int| #[trigger]
            before.roles().dom().contains(f) ==> self.roles().dom().contains(f) && self.roles()[f]
                == before.roles()[f]
        &&& forall|f: int|
            #[trigger] self.roles().dom().contains(f) && !before.roles().dom().contains(f)
                ==> fa@.contains(f / 4096) && !fb@.contains(f / 4096)
        &&& forall|f: int| #[trigger]
            fa@.contains(f) && !fb@.contains(f) ==> self.roles().dom().contains(f * 4096)
        &&& forall|f: int| #[trigger] before.is_page(f) ==> mem::same_page(m, n, f)
        &&& forall|a: int|
            #![trigger n[a]]
            0 <= a < m.len() && !self.roles().dom().contains(a - a % 4096) ==> n[a] == m[a]
    }
}

/// Growing twice is growing.
pub proof fn lemma_grown_trans(
    s: AddressSpace,
    t: AddressSpace,
    u: AddressSpace,
    m: Seq<u8>,
    n: Seq<u8>,
    o: Seq<u8>,
    fa: FrameAllocator,
    fb: FrameAllocator,
    fc: FrameAllocator,
)
    requires
        t.grown(s, m, n, fa, fb),
        u.grown(t, n, o, fb, fc),
    ensures
        u.grown(s, m, o, fa, fc),
{
    assert forall|f: int| #[trigger] s.is_page(f) implies mem::same_page(m, o, f) by {
        assert(s.roles().dom().contains(f));
        assert(t.roles().dom().contains(f));
        assert(t.is_page(f));
        assert(mem::same_page(m, n, f));
        assert(mem::same_page(n, o, f));
        assert forall|i: int| f <= i < f + 4096 implies #[trigger] m[i] == o[i] by {
            assert(m[i] == n[i]);
            assert(n[i] == o[i]);
        }
    }
    assert forall|a: int|
        #![trigger o[a]]
        0 <= a < m.len() && !u.roles().dom().contains(a - a % 4096) implies o[a] == m[a] by {
        assert(!t.roles().dom().contains(a - a % 4096));
        assert(o[a] == n[a]);
        assert(n[a] == m[a]);
    }
    assert forall|f: int|
        #[trigger] u.roles().dom().contains(f) && !s.roles().dom().contains(f) implies fa@.contains(
        f / 4096,
    ) && !fc@.contains(f / 4096) by {
        if t.roles().dom().contains(f) {
            assert(fa@.contains(f / 4096));
            assert(!fb@.contains(f / 4096));
        } else {
            assert(fb@.contains(f / 4096));
        }
    }
    assert forall|f: int|
        #[trigger] fa@.contains(f) && !fc@.contains(f) implies u.roles().dom().contains(
        f * 4096,
    ) by {
        if fb@.contains(f) {
        } else {
            assert(t.roles().dom().contains(f * 4096));
        }
    }
}

/// Filling a page that a space has just taken disturbs nothing else.
pub proof fn lemma_grown_fill(
    s: AddressSpace,
    t: AddressSpace,
    m: Seq<u8>,
    n: Seq<u8>,
    o: Seq<u8>,
    fa: FrameAllocator,
    fb: FrameAllocator,
    pa: int,
)
    requires
        t.grown(s, m, n, fa, fb),
        t.is_page(pa),
        !s.roles().dom().contains(pa),
        o.len() == n.len(),
        forall|a: int| 0 <= a < n.len() && !(pa <= a < pa + 4096) ==> #[trigger] o[a] == n[a],
    ensures
        t.grown(s, m, o, fa, fb),
        forall|i: int, j: int|
            0 <= i < 512 && 0 <= j < 512 ==> #[trigger] leaf(o, t.root(), i, j) == leaf(
                n,
                t.root(),
                i,
                j,
            ),
{
    assert(AddressSpace::frame_ok(pa, n.len() as int));
    assert forall|f: int| #[trigger] t.is_table(f) implies mem::same_page(n, o, f) by {
        assert(AddressSpace::frame_ok(f, n.len() as int));
    }
    lemma_tables_kept(t, n, o);
    assert forall|f: int| #[trigger] s.is_page(f) implies mem::same_page(m, o, f) by {
        assert(mem::same_page(m, n, f));
        assert(s.roles().dom().contains(f));
        assert(t.roles().dom().contains(f));
        assert(AddressSpace::frame_ok(f, n.len() as int));
        assert forall|a: int| f <= a < f + 4096 implies #[trigger] m[a] == o[a] by {
            assert(m[a] == n[a]);
        }
    }
    assert forall|a: int|
        #![trigger o[a]]
        0 <= a < m.len() && !t.roles().dom().contains(a - a % 4096) implies o[a] == m[a] by {
        assert(n[a] == m[a]);
        if pa <= a < pa + 4096 {
            assert(a - a % 4096 == pa);
        }
    }
}

/// A space that takes nothing has grown by nothing.
pub proof fn lemma_grown_refl(s: AddressSpace, m: Seq<u8>, fa: FrameAllocator)
    requires
        s.wf(m),
        s.apart(fa@),
        fa.wf(),
        pool_ok(fa@, m.len() as int),
    ensures
        s.grown(s, m, m, fa, fa),
{
}

impl AddressSpace {
    /// A space that maps nothing in the window and everything of the kernel.
    /// It takes one frame, for the top-level table.
    pub fn new(asid: u16, kernel: &KernelMap, fa: &mut FrameAllocator, m: &mut PhysMem) -> (r: Result<
        AddressSpace,
        SpaceError,
    >)
        requires
            old(fa).wf(),
            pool_ok(old(fa)@, old(m)@.len() as int),
            kernel.wf(old(m)@.len() as int, old(fa)@),
        ensures
            final(fa).wf(),
            final(m)@.len() == old(m)@.len(),
            pool_ok(final(fa)@, final(m)@.len() as int),
            match r {
                Ok(space) => {
                    &&& space.wf(final(m)@)
                    &&& space.spec_asid() == asid
                    &&& space.apart(final(fa)@)
                    &&& space.roles() == Map::<int, Role>::empty().insert(space.root(), Role::Root)
                    &&& old(fa)@.contains(space.root() / 4096)
                    &&& final(fa)@ == old(fa)@.remove(space.root() / 4096)
                    &&& final(fa).count() == old(fa).count() - 1
                    &&& forall|i: int|
                        0 <= i < 512 ==> #[trigger] entry(final(m)@, space.root(), i) == if i
                            < kernel.l1_entries && i != USER_L1_INDEX {
                            entry(old(m)@, kernel.l1 as int, i)
                        } else {
                            0
                        }
                    &&& forall|i: int, j: int| #[trigger]
                        leaf(final(m)@, space.root(), i, j) == 0
                    &&& forall|a: int|
                        0 <= a < old(m)@.len() && a - a % 4096 != space.root()
                            ==> #[trigger] final(m)@[a] == old(m)@[a]
                },
                Err(e) => {
                    &&& e == SpaceError::OutOfMemory
                    &&& old(fa)@ == Set::<int>::empty()
                    &&& *final(fa) == *old(fa)
                    &&& *final(m) == *old(m)
                },
            },
    {
        let mut space: AddressSpace = AddressSpace {
            l1: 0,
            asid,
            frames: Vec::new(),
            roles: Ghost(Map::empty()),
        };
        let l1: u64 = match space.alloc_zeroed(fa, m) {
            Err(e) => {
                return Err(e);
            },
            Ok(frame) => frame,
        };
        space.l1 = l1;
        space.roles = Ghost(Map::empty().insert(l1 as int, Role::Root));
        let ghost m0 = old(m)@;
        let ghost size = m0.len() as int;
        let mut index: usize = 0;
        proof {
            assert forall|i: int| 0 <= i < 512 implies #[trigger] entry(m@, l1 as int, i) == 0 by {
                mem::lemma_word_zero(m@, l1 + 8 * i);
            }
        }
        while index < kernel.l1_entries
            invariant
                index <= kernel.l1_entries <= 512,
                size == m0.len(),
                m@.len() == size,
                kernel.wf(size, old(fa)@),
                old(fa)@.contains(l1 as int / 4096),
                AddressSpace::frame_ok(l1 as int, size),
                space.l1 == l1,
                forall|a: int|
                    0 <= a < size && !(l1 <= a < l1 + 4096) ==> #[trigger] m@[a] == m0[a],
                forall|i: int|
                    0 <= i < 512 ==> #[trigger] entry(m@, l1 as int, i) == if i < index && i
                        != USER_L1_INDEX {
                        entry(m0, kernel.l1 as int, i)
                    } else {
                        0
                    },
            decreases kernel.l1_entries - index,
        {
            if index != USER_L1_INDEX {
                let ghost before = m@;
                let e: u64 = read_entry(m, kernel.l1, index);
                proof {
                    assert forall|a: int|
                        kernel.l1 + 8 * index <= a < kernel.l1 + 8 * index + 8 implies #[trigger] m0[a]
                        == before[a] by {
                        assert(!old(fa)@.contains(a / 4096));
                        assert(a / 4096 != l1 as int / 4096);
                    }
                    lemma_entry_same(m0, before, kernel.l1 as int, index as int);
                }
                write_entry(m, l1, index, e);
                proof {
                    assert forall|i: int| 0 <= i < 512 && i != index implies #[trigger] entry(
                        m@,
                        l1 as int,
                        i,
                    ) == entry(before, l1 as int, i) by {
                        lemma_entry_same(m@, before, l1 as int, i);
                    }
                }
            }
            index = index + 1;
        }
        proof {
            lemma_perm_bits();
            assert(space.roles().dom().contains(l1 as int));
            assert(space.frame_list() == Seq::<u64>::empty().push(l1));
            assert(space.frame_list()[0] == l1);
            assert(!valid(entry(m@, l1 as int, USER_L1_INDEX as int)));
            assert forall|a: int| 0 <= a < m0.len() && a - a % 4096 != l1 implies #[trigger] m@[a]
                == m0[a] by {
                if l1 <= a < l1 + 4096 {
                    assert(a - a % 4096 == l1);
                }
            }
        }
        Ok(space)
    }

    /// The translation-table register value for this space: the table address,
    /// and the address-space number in bits 63:48.
    pub fn ttbr0(&self) -> (r: u64)
        requires
            self.root() < 0x1_0000_0000_0000,
        ensures
            r == self.root() + self.spec_asid() * 0x1_0000_0000_0000,
    {
        let l1: u64 = self.l1;
        let n: u64 = self.asid as u64;
        assert(l1 | (n << 48) == l1 + n * 0x1_0000_0000_0000) by (bit_vector)
            requires
                l1 < 0x1_0000_0000_0000,
                n < 0x1_0000,
        ;
        self.l1 | ((self.asid as u64) << 48)
    }

    /// The leaf table for `va`; tables that are missing on the way are made.
    fn l3_table_for(&mut self, fa: &mut FrameAllocator, m: &mut PhysMem, va: u64) -> (r: Result<
        u64,
        SpaceError,
    >)
        requires
            old(self).wf(old(m)@),
            old(self).apart(old(fa)@),
            old(fa).wf(),
            pool_ok(old(fa)@, old(m)@.len() as int),
        ensures
            final(self).grown(*old(self), old(m)@, final(m)@, *old(fa), *final(fa)),
            forall|i: int, j: int|
                0 <= i < 512 && 0 <= j < 512 ==> #[trigger] leaf(
                    final(m)@,
                    final(self).root(),
                    i,
                    j,
                ) == leaf(old(m)@, old(self).root(), i, j),
            match r {
                Ok(l3) => {
                    &&& final(self).tables_missing(final(m)@, va as int) == 0
                    &&& l3 == target(
                        entry(
                            final(m)@,
                            target(entry(final(m)@, final(self).root(), USER_L1_INDEX as int)),
                            l2_index(va as int),
                        ),
                    )
                    &&& old(fa)@.len() == final(fa)@.len() + old(self).tables_missing(
                        old(m)@,
                        va as int,
                    )
                    &&& old(self).tables_missing(old(m)@, va as int) == 0 ==> *final(self) == *old(
                        self,
                    ) && final(m)@ == old(m)@ && *final(fa) == *old(fa)
                },
                Err(e) => {
                    &&& e == SpaceError::OutOfMemory
                    &&& old(fa)@.len() < old(self).tables_missing(old(m)@, va as int)
                    &&& final(fa)@ == Set::<int>::empty()
                },
            },
    {
        let ghost s0 = *old(self);
        let ghost m0 = old(m)@;
        proof {
            lemma_va_bits(va);
            frame_alloc::lemma_free_finite(*old(fa));
            assert(self.owns(self.root(), Role::Root));
        }
        let root: u64 = self.l1;
        match self.child_table(fa, m, root, USER_L1_INDEX) {
            Err(e) => Err(e),
            Ok(l2) => {
                let ghost s1 = *self;
                let ghost m1 = m@;
                let ghost fa1 = *fa;
                proof {
                    frame_alloc::lemma_free_finite(fa1);
                    let e1 = entry(m0, s0.root(), USER_L1_INDEX as int);
                    if !valid(e1) {
                        assert(!valid(entry(m1, l2 as int, l2_index(va as int))));
                    }
                }
                let index: usize = ((va >> 21) & 0x1FF) as usize;
                let r: Result<u64, SpaceError> = self.child_table(fa, m, l2, index);
                proof {
                    frame_alloc::lemma_free_finite(*fa);
                    assert(s1.owns(s1.root(), Role::Root));
                    assert(s1.owns(l2 as int, Role::Middle));
                    lemma_grown_trans(s0, s1, *self, m0, m1, m@, *old(fa), fa1, *fa);
                    if r is Ok {
                        assert(entry(m@, s1.root(), USER_L1_INDEX as int) == entry(
                            m1,
                            s1.root(),
                            USER_L1_INDEX as int,
                        ));
                    }
                    assert forall|i: int, j: int| 0 <= i < 512 && 0 <= j < 512 implies #[trigger] leaf(
                        m@,
                        self.root(),
                        i,
                        j,
                    ) == leaf(m0, s0.root(), i, j) by {
                        assert(leaf(m1, s1.root(), i, j) == leaf(m0, s0.root(), i, j));
                    }
                }
                r
            },
        }
    }

    /// Takes a page for slot `(i, j)` of the window, whose leaf table `l3` exists.
    #[verifier::spinoff_prover]
    #[verifier::rlimit(30)]
    fn put_page(
        &mut self,
        kernel: &KernelMap,
        fa: &mut FrameAllocator,
        m: &mut PhysMem,
        l3: u64,
        i: usize,
        j: usize,
        perm: Perm,
    ) -> (r: Result<u64, SpaceError>)
        requires
            old(self).wf(old(m)@),
            old(self).apart(old(fa)@),
            old(fa).wf(),
            pool_ok(old(fa)@, old(m)@.len() as int),
            kernel.ram_memory_type & !MEMORY_TYPE_MASK == 0,
            i < 512,
            j < 512,
            old(self).tables_missing_at(old(m)@, i as int) == 0,
            l3 == target(
                entry(
                    old(m)@,
                    target(entry(old(m)@, old(self).root(), USER_L1_INDEX as int)),
                    i as int,
                ),
            ),
        ensures
            final(self).grown(*old(self), old(m)@, final(m)@, *old(fa), *final(fa)),
            match r {
                Ok(pa) => {
                    &&& old(fa)@.contains(pa as int / 4096)
                    &&& old(fa)@.len() == final(fa)@.len() + 1
                    &&& final(self).owns(pa as int, Role::Page(i as int, j as int))
                    &&& forall|a: int| pa <= a < pa + 4096 ==> #[trigger] final(m)@[a] == 0
                    &&& leaf(final(m)@, final(self).root(), i as int, j as int) == page_entry(
                        pa,
                        kernel.ram_memory_type,
                        perm,
                    )
                    &&& forall|x: int, y: int|
                        0 <= x < 512 && 0 <= y < 512 && !(x == i && y == j) ==> #[trigger] leaf(
                            final(m)@,
                            final(self).root(),
                            x,
                            y,
                        ) == leaf(old(m)@, old(self).root(), x, y)
                },
                Err(e) => {
                    &&& e == SpaceError::OutOfMemory
                    &&& old(fa)@ == Set::<int>::empty()
                    &&& *final(self) == *old(self)
                    &&& *final(m) == *old(m)
                    &&& *final(fa) == *old(fa)
                },
            },
    {
        let ghost s1 = *old(self);
        let ghost m1 = old(m)@;
        let ghost fa1 = *old(fa);
        proof {
            frame_alloc::lemma_free_finite(fa1);
            assert(s1.owns(l3 as int, Role::Leaf(i as int)));
            assert(AddressSpace::frame_ok(l3 as int, m1.len() as int));
        }
        let pa: u64 = match self.alloc_zeroed(fa, m) {
            Err(e) => {
                return Err(e);
            },
            Ok(pa) => pa,
        };
        let ghost zeroed = m@;
        let access: u64 = match perm {
            Perm::ReadOnly => AP_EL0_RO | PXN | UXN,
            Perm::ReadWrite => AP_EL0_RW | PXN | UXN,
            Perm::ReadExec => AP_EL0_RO | PXN,
        };
        let e: u64 = pa | VALID | TABLE_OR_PAGE | AF | NG | kernel.ram_memory_type | access;
        write_entry(m, l3, j, e);
        self.roles = Ghost(self.roles@.insert(pa as int, Role::Page(i as int, j as int)));
        proof {
            frame_alloc::lemma_free_finite(*fa);
            assert(e == page_entry(pa, kernel.ram_memory_type, perm));
            lemma_page_entry(pa, kernel.ram_memory_type, perm);
            assert(!s1.roles().dom().contains(pa as int));
            assert(l3 != pa);
            assert forall|a: int|
                0 <= a < m1.len() && !(pa <= a < pa + 4096) && !(l3 + 8 * j <= a < l3 + 8 * j
                    + 8) implies #[trigger] m@[a] == m1[a] by {
                assert(zeroed[a] == m1[a]);
            }
            lemma_add_page(s1, *self, m1, m@, i as int, j as int, pa, e);
            assert forall|a: int| pa <= a < pa + 4096 implies #[trigger] m@[a] == 0 by {
                assert(zeroed[a] == 0);
            }
            assert forall|f: int| #[trigger] s1.is_page(f) implies mem::same_page(m1, m@, f) by {
                assert(AddressSpace::frame_ok(f, m1.len() as int));
                assert(f != l3);
                assert(f != pa);
            }
            assert forall|a: int|
                #![trigger m@[a]]
                0 <= a < m1.len() && !self.roles().dom().contains(a - a % 4096) implies m@[a]
                == m1[a] by {
                assert(s1.roles().dom().contains(l3 as int));
                if l3 <= a < l3 + 4096 {
                    assert(a - a % 4096 == l3);
                }
                if pa <= a < pa + 4096 {
                    assert(a - a % 4096 == pa);
                }
            }
        }
        Ok(pa)
    }

    /// Maps a fresh, zeroed page at `va` with `perm`. Returns its physical address.
    pub fn map_new_page(
        &mut self,
        kernel: &KernelMap,
        fa: &mut FrameAllocator,
        m: &mut PhysMem,
        va: u64,
        perm: Perm,
    ) -> (r: Result<u64, SpaceError>)
        requires
            old(self).wf(old(m)@),
            old(self).apart(old(fa)@),
            old(fa).wf(),
            pool_ok(old(fa)@, old(m)@.len() as int),
            kernel.ram_memory_type & !MEMORY_TYPE_MASK == 0,
        ensures
            final(self).grown(*old(self), old(m)@, final(m)@, *old(fa), *final(fa)),
            r == Err::<u64, SpaceError>(SpaceError::OutsideWindow) <==> !(va % 4096 == 0 && window(
                va as int,
                4096,
            )),
            r == Err::<u64, SpaceError>(SpaceError::AlreadyMapped) <==> va % 4096 == 0 && window(
                va as int,
                4096,
            ) && old(self).mapped(old(m)@, va as int),
            r == Err::<u64, SpaceError>(SpaceError::OutOfMemory) <==> va % 4096 == 0 && window(
                va as int,
                4096,
            ) && !old(self).mapped(old(m)@, va as int) && old(fa)@.len() <= old(
                self,
            ).tables_missing(old(m)@, va as int),
            forall|i: int, j: int|
                0 <= i < 512 && 0 <= j < 512 && !(r is Ok && i == l2_index(va as int) && j
                    == l3_index(va as int)) ==> #[trigger] leaf(
                    final(m)@,
                    final(self).root(),
                    i,
                    j,
                ) == leaf(old(m)@, old(self).root(), i, j),
            match r {
                Ok(pa) => {
                    &&& old(fa)@.contains(pa as int / 4096)
                    &&& final(self).owns(
                        pa as int,
                        Role::Page(l2_index(va as int), l3_index(va as int)),
                    )
                    &&& final(self).spec_leaf(final(m)@, va as int) == page_entry(
                        pa,
                        kernel.ram_memory_type,
                        perm,
                    )
                    &&& forall|a: int| pa <= a < pa + 4096 ==> #[trigger] final(m)@[a] == 0
                    &&& old(fa)@.len() == final(fa)@.len() + old(self).tables_missing(
                        old(m)@,
                        va as int,
                    ) + 1
                },
                Err(SpaceError::OutOfMemory) => final(fa)@ == Set::<int>::empty(),
                Err(_) => {
                    &&& *final(self) == *old(self)
                    &&& final(m)@ == old(m)@
                    &&& *final(fa) == *old(fa)
                },
            },
    {
        let ghost s0 = *old(self);
        let ghost m0 = old(m)@;
        proof {
            lemma_va_bits(va);
            frame_alloc::lemma_free_finite(*old(fa));
        }
        if va % PAGE != 0 || !in_window(va, PAGE) {
            return Err(SpaceError::OutsideWindow);
        }
        let l3: u64 = match self.l3_table_for(fa, m, va) {
            Err(e) => {
                proof {
                    lemma_perm_bits();
                    assert(!s0.mapped(m0, va as int));
                }
                return Err(e);
            },
            Ok(l3) => l3,
        };
        let ghost s1 = *self;
        let ghost m1 = m@;
        let ghost fa1 = *fa;
        let ghost i0 = l2_index(va as int);
        let ghost j0 = l3_index(va as int);
        let index: usize = ((va >> 12) & 0x1FF) as usize;
        proof {
            frame_alloc::lemma_free_finite(fa1);
            assert(s1.tree_ok(m1));
            assert(s1.owns(l3 as int, Role::Leaf(i0)));
            assert(leaf(m1, s1.root(), i0, j0) == entry(m1, l3 as int, j0));
            assert(leaf(m1, s1.root(), i0, j0) == leaf(m0, s0.root(), i0, j0));
            if s0.tables_missing(m0, va as int) != 0 {
                lemma_perm_bits();
                assert(leaf(m0, s0.root(), i0, j0) == 0);
            }
        }
        if read_entry(m, l3, index) & VALID != 0 {
            return Err(SpaceError::AlreadyMapped);
        }
        let i: usize = ((va >> 21) & 0x1FF) as usize;
        let r: Result<u64, SpaceError> = self.put_page(kernel, fa, m, l3, i, index, perm);
        proof {
            lemma_grown_trans(s0, s1, *self, m0, m1, m@, *old(fa), fa1, *fa);
            assert forall|i: int, j: int|
                0 <= i < 512 && 0 <= j < 512 && !(r is Ok && i == i0 && j == j0) implies #[trigger] leaf(
                m@,
                self.root(),
                i,
                j,
            ) == leaf(m0, s0.root(), i, j) by {
                assert(leaf(m1, s1.root(), i, j) == leaf(m0, s0.root(), i, j));
            }
        }
        r
    }

    /// The physical address behind `va`, if the task may read it (or write it,
    /// when `write`). This is the check every user pointer passes through.
    pub fn translate(&self, m: &PhysMem, va: u64, write: bool) -> (r: Option<u64>)
        requires
            self.wf(m@),
        ensures
            match r {
                Some(pa) => self.spec_translate(m@, va as int, write) == Some(pa as int),
                None => self.spec_translate(m@, va as int, write) is None,
            },
    {
        if !in_window(va, 1) {
            return None;
        }
        proof {
            lemma_va_bits(va);
            lemma_perm_bits();
            assert(self.owns(self.root(), Role::Root));
            assert(AddressSpace::frame_ok(self.root(), m@.len() as int));
        }
        let e1: u64 = read_entry(m, self.l1, USER_L1_INDEX);
        if e1 & VALID == 0 {
            return None;
        }
        proof {
            assert(self.owns(target(e1), Role::Middle));
            assert(AddressSpace::frame_ok(target(e1), m@.len() as int));
        }
        let e2: u64 = read_entry(m, e1 & ADDR_MASK, ((va >> 21) & 0x1FF) as usize);
        if e2 & VALID == 0 {
            return None;
        }
        proof {
            assert(self.owns(target(e2), Role::Leaf(l2_index(va as int))));
            assert(AddressSpace::frame_ok(target(e2), m@.len() as int));
        }
        let e: u64 = read_entry(m, e2 & ADDR_MASK, ((va >> 12) & 0x1FF) as usize);
        if e & VALID == 0 {
            return None;
        }
        let ap: u64 = e & AP_MASK;
        let allowed: bool = if write {
            ap == AP_EL0_RW
        } else {
            ap == AP_EL0_RW || ap == AP_EL0_RO
        };
        proof {
            lemma_join(e, va);
        }
        if allowed {
            Some((e & ADDR_MASK) | (va & (PAGE - 1)))
        } else {
            None
        }
    }

    /// Gives every frame of the space back to the pool.
    pub fn release(self, fa: &mut FrameAllocator, m: &PhysMem)
        requires
            self.wf(m@),
            self.apart(old(fa)@),
            old(fa).wf(),
            old(fa).count() + self.frame_list().len() <= usize::MAX,
        ensures
            final(fa).wf(),
            forall|f: int| #[trigger]
                final(fa)@.contains(f) <==> old(fa)@.contains(f) || self.roles().dom().contains(
                    f * 4096,
                ),
            final(fa).count() == old(fa).count() + self.frame_list().len(),
    {
        let mut i: usize = 0;
        while i < self.frames.len()
            invariant
                i <= self.frames@.len(),
                self.wf(m@),
                self.apart(old(fa)@),
                fa.wf(),
                fa.count() == old(fa).count() + i,
                old(fa).count() + self.frame_list().len() <= usize::MAX,
                forall|f: int| #[trigger]
                    fa@.contains(f) <==> old(fa)@.contains(f) || (exists|k: int|
                        0 <= k < i && #[trigger] self.frames@[k] == f * 4096),
            decreases self.frames@.len() - i,
        {
            let frame: u64 = self.frames[i];
            let ghost before = *fa;
            proof {
                assert(self.frame_list()[i as int] == frame);
                assert(self.roles().dom().contains(frame as int));
                assert(AddressSpace::frame_ok(frame as int, m@.len() as int));
                if fa@.contains(frame as int / 4096) {
                    assert(!old(fa)@.contains(frame as int / 4096));
                    let k = choose|k: int|
                        0 <= k < i && #[trigger] self.frames@[k] == frame as int / 4096 * 4096;
                    assert(self.frame_list()[k] == self.frame_list()[i as int]);
                }
            }
            frame_alloc::deallocate(fa, frame);
            proof {
                assert forall|f: int| #[trigger] fa@.contains(f) <==> old(fa)@.contains(f) || (
                exists|k: int| 0 <= k < i + 1 && #[trigger] self.frames@[k] == f * 4096) by {
                    if f == frame as int / 4096 {
                        assert(self.frames@[i as int] == f * 4096);
                    }
                    if before@.contains(f) && !old(fa)@.contains(f) {
                        let k = choose|k: int| 0 <= k < i && #[trigger] self.frames@[k] == f * 4096;
                        assert(self.frames@[k] == f * 4096);
                    }
                }
            }
            i = i + 1;
        }
        proof {
            assert forall|f: int| #[trigger] fa@.contains(f) <==> old(fa)@.contains(f)
                || self.roles().dom().contains(f * 4096) by {
                if self.roles().dom().contains(f * 4096) {
                    assert(self.frame_list().contains((f * 4096) as u64));
                    let k = choose|k: int|
                        0 <= k < self.frame_list().len() && self.frame_list()[k] == (f
                            * 4096) as u64;
                    assert(self.frames@[k] == f * 4096);
                }
                if fa@.contains(f) && !old(fa)@.contains(f) {
                    let k = choose|k: int|
                        0 <= k < self.frames@.len() && #[trigger] self.frames@[k] == f * 4096;
                    assert(self.roles().dom().contains(self.frame_list()[k] as int));
                }
            }
        }
    }
}

/// The leaf or block entry that maps `va` below the top-level table `l1`.
pub open spec fn spec_kernel_leaf(m: Seq<u8>, l1: int, va: int) -> Option<u64> {
    let e1 = entry(m, l1, (va / 0x4000_0000) % 512);
    if !valid(e1) {
        None
    } else if e1 & TABLE_OR_PAGE == 0 {
        Some(e1)
    } else {
        let e2 = entry(m, target(e1), l2_index(va));
        if !valid(e2) {
            None
        } else if e2 & TABLE_OR_PAGE == 0 {
            Some(e2)
        } else {
            let e3 = entry(m, target(e2), l3_index(va));
            if valid(e3) {
                Some(e3)
            } else {
                None
            }
        }
    }
}

/// Every table that the walk to `va` reads lies in memory.
pub open spec fn walkable(m: Seq<u8>, l1: int, va: int) -> bool {
    let e1 = entry(m, l1, (va / 0x4000_0000) % 512);
    &&& 0 <= l1 && l1 + 4096 <= m.len()
    &&& valid(e1) && e1 & TABLE_OR_PAGE != 0 ==> {
        let e2 = entry(m, target(e1), l2_index(va));
        &&& target(e1) + 4096 <= m.len()
        &&& valid(e2) && e2 & TABLE_OR_PAGE != 0 ==> target(e2) + 4096 <= m.len()
    }
}

fn kernel_leaf(m: &PhysMem, l1: u64, va: u64) -> (r: Option<u64>)
    requires
        walkable(m@, l1 as int, va as int),
    ensures
        r == spec_kernel_leaf(m@, l1 as int, va as int),
{
    proof {
        lemma_va_bits(va);
    }
    let e1: u64 = read_entry(m, l1, ((va >> 30) & 0x1FF) as usize);
    if e1 & VALID == 0 {
        return None;
    }
    if e1 & TABLE_OR_PAGE == 0 {
        return Some(e1);
    }
    let e2: u64 = read_entry(m, e1 & ADDR_MASK, ((va >> 21) & 0x1FF) as usize);
    if e2 & VALID == 0 {
        return None;
    }
    if e2 & TABLE_OR_PAGE == 0 {
        return Some(e2);
    }
    let e3: u64 = read_entry(m, e2 & ADDR_MASK, ((va >> 12) & 0x1FF) as usize);
    if e3 & VALID == 0 {
        return None;
    }
    Some(e3)
}

/// How many top-level entries a table has for each accepted size field.
pub open spec fn spec_l1_entries(t0sz: u32) -> int {
    if t0sz == 25 {
        512
    } else if t0sz == 26 {
        256
    } else if t0sz == 27 {
        128
    } else if t0sz == 28 {
        64
    } else {
        32
    }
}

/// Records the kernel's top-level table and the firmware's memory type for RAM,
/// sampled from the mapping of `ram_va`. Refuses geometries this module does
/// not handle, and a firmware map that already uses slot 16.
pub fn init(m: &PhysMem, kernel_l1: u64, t0sz: u32, ram_va: u64) -> (r: Result<
    KernelMap,
    &'static str,
>)
    requires
        25 <= t0sz <= 29 ==> walkable(m@, kernel_l1 as int, ram_va as int),
    ensures
        match r {
            Ok(map) => {
                &&& 25 <= t0sz <= 29
                &&& !valid(entry(m@, kernel_l1 as int, USER_L1_INDEX as int))
                &&& map.l1 == kernel_l1
                &&& map.l1_entries == spec_l1_entries(t0sz)
                &&& spec_kernel_leaf(m@, kernel_l1 as int, ram_va as int) matches Some(e)
                    && map.ram_memory_type == e & MEMORY_TYPE_MASK
                &&& map.ram_memory_type & !MEMORY_TYPE_MASK == 0
            },
            Err(text) => {
                ||| !(25 <= t0sz <= 29) && text@ == "unsupported firmware page-table geometry"@
                ||| 25 <= t0sz <= 29 && valid(
                    entry(m@, kernel_l1 as int, USER_L1_INDEX as int),
                ) && text@ == "firmware map already uses the user window (slot 16)"@
                ||| 25 <= t0sz <= 29 && !valid(
                    entry(m@, kernel_l1 as int, USER_L1_INDEX as int),
                ) && spec_kernel_leaf(m@, kernel_l1 as int, ram_va as int) is None && text@
                    == "kernel RAM is not mapped"@
            },
        },
{
    if t0sz < 25 || t0sz > 29 {
        return Err("unsupported firmware page-table geometry");
    }
    if read_entry(m, kernel_l1, USER_L1_INDEX) & VALID != 0 {
        return Err("firmware map already uses the user window (slot 16)");
    }
    let e: u64 = match kernel_leaf(m, kernel_l1, ram_va) {
        None => {
            return Err("kernel RAM is not mapped");
        },
        Some(e) => e,
    };
    let l1_entries: usize = match t0sz {
        25 => 512,
        26 => 256,
        27 => 128,
        28 => 64,
        _ => 32,
    };
    assert((e & 0x31C) & !0x31Cu64 == 0) by (bit_vector);
    Ok(KernelMap { l1: kernel_l1, l1_entries, ram_memory_type: e & MEMORY_TYPE_MASK })
}

impl AddressSpace {
    /// The task may read (or write) every byte of `[va, va + len)`, and all of
    /// it lies in the window.
    pub open spec fn accessible(self, m: Seq<u8>, va: int, len: int, write: bool) -> bool {
        &&& window(va, len)
        &&& forall|a: int|
            va <= a < va + len ==> (#[trigger] self.spec_translate(m, a, write)) is Some
    }

    /// The physical address behind `va`, where there is one.
    pub open spec fn at(self, m: Seq<u8>, va: int, write: bool) -> int {
        self.spec_translate(m, va, write).unwrap()
    }

    /// The bytes that the task sees at `[va, va + len)`.
    pub open spec fn user_bytes(self, m: Seq<u8>, va: int, len: int) -> Seq<u8> {
        Seq::new(len as nat, |i: int| m[self.at(m, va + i, false)])
    }

    /// Memory `n` is `m` with `data` written where the task sees `va`.
    pub open spec fn user_written(self, m: Seq<u8>, n: Seq<u8>, va: int, data: Seq<u8>) -> bool {
        &&& n.len() == m.len()
        &&& forall|i: int|
            #![trigger self.at(m, va + i, true)]
            0 <= i < data.len() ==> n[self.at(m, va + i, true)] == data[i]
        &&& forall|a: int|
            0 <= a < m.len() && (forall|i: int|
                0 <= i < data.len() ==> a != #[trigger] self.at(m, va + i, true))
                ==> #[trigger] n[a] == m[a]
    }
}

/// Addresses of one page translate together.
proof fn lemma_same_page_translates(s: AddressSpace, m: Seq<u8>, a: int, b: int, write: bool)
    requires
        a / 4096 == b / 4096,
        window(a, 1),
    ensures
        window(b, 1),
        s.spec_translate(m, a, write) is Some == s.spec_translate(m, b, write) is Some,
        s.spec_translate(m, a, write) is Some ==> s.at(m, b, write) - s.at(m, a, write) == b - a,
{
    assert(a / 0x20_0000 == (a / 4096) / 512);
    assert(b / 0x20_0000 == (b / 4096) / 512);
}

/// A translation ends in a page of the space, one page per page of the window.
pub proof fn lemma_translation_in_page(s: AddressSpace, m: Seq<u8>, va: int, write: bool)
    requires
        s.wf(m),
        s.spec_translate(m, va, write) is Some,
    ensures
        s.owns(s.at(m, va, write) - va % 4096, Role::Page(l2_index(va), l3_index(va))),
        s.at(m, va, write) % 4096 == va % 4096,
        s.at(m, va, write) - s.at(m, va, write) % 4096 == s.at(m, va, write) - va % 4096,
        0 <= s.at(m, va, write) < m.len(),
        s.is_page(s.at(m, va, write) - s.at(m, va, write) % 4096),
{
    let e = s.spec_leaf(m, va);
    assert(0 <= l2_index(va) < 512 && 0 <= l3_index(va) < 512);
    assert(s.owns(target(e), Role::Page(l2_index(va), l3_index(va))));
    assert(AddressSpace::frame_ok(target(e), m.len() as int));
}

/// Two different addresses of the window never share a byte of memory.
pub proof fn law_translation_injective(s: AddressSpace, m: Seq<u8>, a: int, b: int, v: bool, w: bool)
    requires
        s.wf(m),
        s.spec_translate(m, a, v) is Some,
        s.spec_translate(m, b, w) is Some,
        s.at(m, a, v) == s.at(m, b, w),
    ensures
        a == b,
{
    lemma_translation_in_page(s, m, a, v);
    lemma_translation_in_page(s, m, b, w);
    assert(Role::Page(l2_index(a), l3_index(a)) == Role::Page(l2_index(b), l3_index(b)));
    assert(a % 4096 == b % 4096);
    let x = a - USER_BASE;
    let y = b - USER_BASE;
    assert(a / 4096 == (a / 0x20_0000) * 512 + l3_index(a));
    assert(b / 4096 == (b / 0x20_0000) * 512 + l3_index(b));
    assert(a / 0x20_0000 == 0x2000 + x / 0x20_0000);
    assert(b / 0x20_0000 == 0x2000 + y / 0x20_0000);
    assert(x / 0x20_0000 < 512 && y / 0x20_0000 < 512);
}

/// Two spaces without a common frame show their tasks different memory.
pub proof fn law_spaces_isolated(
    s: AddressSpace,
    t: AddressSpace,
    m: Seq<u8>,
    a: int,
    b: int,
    v: bool,
    w: bool,
)
    requires
        s.wf(m),
        t.wf(m),
        s.roles().dom().disjoint(t.roles().dom()),
        s.spec_translate(m, a, v) is Some,
        t.spec_translate(m, b, w) is Some,
    ensures
        s.at(m, a, v) != t.at(m, b, w),
{
    lemma_translation_in_page(s, m, a, v);
    lemma_translation_in_page(t, m, b, w);
}

/// A page that the task may write it may also read, at the same place.
pub proof fn law_writable_is_readable(s: AddressSpace, m: Seq<u8>, va: int)
    requires
        s.spec_translate(m, va, true) is Some,
    ensures
        s.spec_translate(m, va, false) == s.spec_translate(m, va, true),
{
}

/// A page mapped with `perm` reads back at once, and takes writes exactly when
/// it was mapped read-write.
pub proof fn law_mapped_page_translates(
    s: AddressSpace,
    m: Seq<u8>,
    page: int,
    va: int,
    pa: u64,
    memory_type: u64,
    perm: Perm,
)
    requires
        page % 4096 == 0,
        window(page, 4096),
        page <= va < page + 4096,
        pa % 4096 == 0,
        pa < 0x1_0000_0000,
        memory_type & !MEMORY_TYPE_MASK == 0,
        s.spec_leaf(m, page) == page_entry(pa, memory_type, perm),
    ensures
        s.spec_translate(m, va, false) == Some(pa + (va - page)),
        s.spec_translate(m, va, true) == if perm == Perm::ReadWrite {
            Some(pa + (va - page))
        } else {
            None::<int>
        },
{
    lemma_page_entry(pa, memory_type, perm);
    assert(va / 4096 == page / 4096);
    assert(va / 0x20_0000 == (va / 4096) / 512);
    assert(page / 0x20_0000 == (page / 4096) / 512);
}

/// What `copy_to_user` puts somewhere `copy_from_user` reads back.
pub proof fn law_user_copy_round_trip(
    s: AddressSpace,
    m: Seq<u8>,
    n: Seq<u8>,
    va: int,
    data: Seq<u8>,
)
    requires
        s.wf(m),
        s.accessible(m, va, data.len() as int, true),
        s.user_written(m, n, va, data),
    ensures
        s.wf(n),
        s.accessible(n, va, data.len() as int, false),
        s.user_bytes(n, va, data.len() as int) == data,
{
    lemma_written_keeps_tables(s, m, n, va, data);
    assert forall|a: int| va <= a < va + data.len() implies (#[trigger] s.spec_translate(
        n,
        a,
        false,
    )) is Some by {
        assert(s.spec_translate(m, a, true) is Some);
    }
    assert forall|i: int| 0 <= i < data.len() implies #[trigger] n[s.at(n, va + i, false)]
        == data[i] by {
        assert(s.spec_translate(m, va + i, true) is Some);
        assert(s.at(n, va + i, false) == s.at(m, va + i, true));
    }
    assert(s.user_bytes(n, va, data.len() as int) =~= data);
}

/// A copy into a task's memory touches no table of any space that is apart
/// from that task's pages.
pub proof fn lemma_written_keeps_others(
    s: AddressSpace,
    m: Seq<u8>,
    n: Seq<u8>,
    va: int,
    data: Seq<u8>,
    frame: int,
)
    requires
        s.wf(m),
        s.accessible(m, va, data.len() as int, true),
        s.user_written(m, n, va, data),
        frame % 4096 == 0,
        0 <= frame,
        frame + 4096 <= m.len(),
        !s.is_page(frame),
    ensures
        mem::same_page(m, n, frame),
{
    assert forall|a: int| frame <= a < frame + 4096 implies #[trigger] m[a] == n[a] by {
        assert forall|i: int| 0 <= i < data.len() implies a != #[trigger] s.at(m, va + i, true) by {
            assert(s.spec_translate(m, va + i, true) is Some);
            lemma_translation_in_page(s, m, va + i, true);
            if a == s.at(m, va + i, true) {
                assert(a - a % 4096 == frame);
            }
        }
    }
}

pub proof fn lemma_written_keeps_tables(
    s: AddressSpace,
    m: Seq<u8>,
    n: Seq<u8>,
    va: int,
    data: Seq<u8>,
)
    requires
        s.wf(m),
        s.accessible(m, va, data.len() as int, true),
        s.user_written(m, n, va, data),
    ensures
        s.wf(n),
        forall|a: int, w: bool| #[trigger]
            s.spec_translate(n, a, w) == s.spec_translate(m, a, w),
{
    assert forall|f: int| #[trigger] s.is_table(f) implies mem::same_page(m, n, f) by {
        assert(AddressSpace::frame_ok(f, m.len() as int));
        lemma_written_keeps_others(s, m, n, va, data, f);
    }
    lemma_tables_kept(s, m, n);
}

/// Checks that every page of `[va, va + len)` is open to the task (writable,
/// if `write`) before any byte is copied. Then no copy can fail halfway.
fn check_range(space: &AddressSpace, m: &PhysMem, va: u64, len: u64, write: bool) -> (r: Result<
    (),
    Error,
>)
    requires
        space.wf(m@),
    ensures
        r == (if space.accessible(m@, va as int, len as int, write) {
            Ok::<(), Error>(())
        } else {
            Err(Error::BadPointer)
        }),
{
    if !in_window(va, len) {
        return Err(Error::BadPointer);
    }
    if len == 0 {
        return Ok(());
    }
    proof {
        lemma_va_bits(va);
    }
    let mut page: u64 = va & !(PAGE - 1);
    while page < va + len
        invariant
            space.wf(m@),
            window(va as int, len as int),
            len > 0,
            page % 4096 == 0,
            va - va % 4096 <= page <= va + len + 4096,
            forall|a: int|
                va <= a < va + len && a < page ==> (#[trigger] space.spec_translate(
                    m@,
                    a,
                    write,
                )) is Some,
        decreases va + len + 4096 - page,
    {
        let ghost inside: int = if page < va { va as int } else { page as int };
        proof {
            lemma_same_page_translates(*space, m@, inside, page as int, write);
        }
        if space.translate(m, page, write).is_none() {
            assert(space.spec_translate(m@, inside, write) is None);
            return Err(Error::BadPointer);
        }
        proof {
            assert forall|a: int| va <= a < va + len && a < page + 4096 implies (
            #[trigger] space.spec_translate(m@, a, write)) is Some by {
                if a >= page {
                    lemma_same_page_translates(*space, m@, page as int, a, write);
                }
            }
        }
        page = page + PAGE;
    }
    Ok(())
}

/// Fills `out` with the bytes that the task sees from `va` on. A range that the
/// task may not read is refused whole.
pub fn copy_from_user(space: &AddressSpace, m: &PhysMem, va: u64, out: &mut Vec<u8>) -> (r: Result<
    (),
    Error,
>)
    requires
        space.wf(m@),
    ensures
        final(out)@.len() == old(out)@.len(),
        match r {
            Ok(()) => space.accessible(m@, va as int, old(out)@.len() as int, false) && final(out)@
                == space.user_bytes(m@, va as int, old(out)@.len() as int),
            Err(e) => e == Error::BadPointer && !space.accessible(
                m@,
                va as int,
                old(out)@.len() as int,
                false,
            ) && final(out)@ == old(out)@,
        },
{
    let len: usize = out.len();
    match check_range(space, m, va, len as u64, false) {
        Err(e) => {
            return Err(e);
        },
        Ok(()) => {},
    }
    let mut done: usize = 0;
    while done < len
        invariant
            done <= len,
            out@.len() == len,
            space.wf(m@),
            space.accessible(m@, va as int, len as int, false),
            forall|i: int| 0 <= i < done ==> out@[i] == m@[#[trigger] space.at(m@, va + i, false)],
        decreases len - done,
    {
        let at: u64 = va + done as u64;
        assert(space.spec_translate(m@, at as int, false) is Some);
        let pa: u64 = match space.translate(m, at, false) {
            None => {
                return Err(Error::BadPointer);
            },
            Some(pa) => pa,
        };
        let room: usize = (PAGE - at % PAGE) as usize;
        let chunk: usize = if room < len - done { room } else { len - done };
        let mut k: usize = 0;
        while k < chunk
            invariant
                k <= chunk,
                chunk <= 4096 - at % 4096,
                done + chunk <= len,
                out@.len() == len,
                at == va + done,
                space.wf(m@),
                space.accessible(m@, va as int, len as int, false),
                space.spec_translate(m@, at as int, false) == Some(pa as int),
                forall|i: int|
                    0 <= i < done + k ==> out@[i] == m@[#[trigger] space.at(m@, va + i, false)],
            decreases chunk - k,
        {
            proof {
                m.lemma_size();
                lemma_same_page_translates(*space, m@, at as int, at + k, false);
                lemma_translation_in_page(*space, m@, at + k, false);
            }
            out[done + k] = m.read_byte(pa + k as u64);
            k = k + 1;
        }
        done = done + chunk;
    }
    assert(out@ =~= space.user_bytes(m@, va as int, len as int));
    Ok(())
}

/// Writes `data` where the task sees `va`. A range that the task may not write
/// is refused whole.
pub fn copy_to_user(space: &AddressSpace, m: &mut PhysMem, va: u64, data: &[u8]) -> (r: Result<
    (),
    Error,
>)
    requires
        space.wf(old(m)@),
    ensures
        match r {
            Ok(()) => space.accessible(old(m)@, va as int, data@.len() as int, true)
                && space.user_written(old(m)@, final(m)@, va as int, data@),
            Err(e) => e == Error::BadPointer && !space.accessible(
                old(m)@,
                va as int,
                data@.len() as int,
                true,
            ) && final(m)@ == old(m)@,
        },
        space.wf(final(m)@),
        final(m)@.len() == old(m)@.len(),
        forall|a: int, w: bool| #[trigger]
            space.spec_translate(final(m)@, a, w) == space.spec_translate(old(m)@, a, w),
{
    let len: usize = data.len();
    match check_range(space, m, va, len as u64, true) {
        Err(e) => {
            return Err(e);
        },
        Ok(()) => {},
    }
    let ghost m0 = m@;
    let mut done: usize = 0;
    while done < len
        invariant
            done <= len,
            len == data@.len(),
            space.wf(m0),
            space.wf(m@),
            space.accessible(m0, va as int, len as int, true),
            forall|a: int, w: bool| #[trigger]
                space.spec_translate(m@, a, w) == space.spec_translate(m0, a, w),
            space.user_written(m0, m@, va as int, data@.subrange(0, done as int)),
        decreases len - done,
    {
        let at: u64 = va + done as u64;
        assert(space.spec_translate(m0, at as int, true) is Some);
        assert(space.spec_translate(m@, at as int, true) is Some);
        let pa: u64 = match space.translate(m, at, true) {
            None => {
                return Err(Error::BadPointer);
            },
            Some(pa) => pa,
        };
        let room: usize = (PAGE - at % PAGE) as usize;
        let chunk: usize = if room < len - done { room } else { len - done };
        let mut k: usize = 0;
        while k < chunk
            invariant
                k <= chunk,
                chunk <= 4096 - at % 4096,
                done + chunk <= len,
                len == data@.len(),
                at == va + done,
                space.wf(m0),
                space.accessible(m0, va as int, len as int, true),
                space.spec_translate(m0, at as int, true) == Some(pa as int),
                space.user_written(m0, m@, va as int, data@.subrange(0, done + k)),
            decreases chunk - k,
        {
            let ghost before = m@;
            let ghost d0 = data@.subrange(0, done + k);
            let ghost d1 = data@.subrange(0, done + k + 1);
            proof {
                m.lemma_size();
                lemma_same_page_translates(*space, m0, at as int, at + k, true);
                lemma_translation_in_page(*space, m0, at + k, true);
            }
            m.write_byte(pa + k as u64, data[done + k]);
            proof {
                let n = done + k;
                assert(space.at(m0, va + n, true) == pa + k);
                assert forall|i: int|
                    #![trigger space.at(m0, va + i, true)]
                    0 <= i < d1.len() implies m@[space.at(m0, va + i, true)] == d1[i] by {
                    assert(space.spec_translate(m0, va + i, true) is Some);
                    lemma_translation_in_page(*space, m0, va + i, true);
                    if i < n {
                        if space.at(m0, va + i, true) == space.at(m0, va + n, true) {
                            law_translation_injective(*space, m0, va + i, va + n, true, true);
                        }
                        assert(before[space.at(m0, va + i, true)] == d0[i]);
                    }
                }
                assert forall|a: int|
                    0 <= a < m0.len() && (forall|i: int|
                        0 <= i < d1.len() ==> a != #[trigger] space.at(
                            m0,
                            va + i,
                            true,
                        )) implies #[trigger] m@[a] == m0[a] by {
                    assert(a != space.at(m0, va + n, true));
                    assert(before[a] == m0[a]);
                }
            }
            k = k + 1;
        }
        done = done + chunk;
        proof {
            let part = data@.subrange(0, done as int);
            assert(space.accessible(m0, va as int, part.len() as int, true));
            lemma_written_keeps_tables(*space, m0, m@, va as int, part);
        }
    }
    assert(data@.subrange(0, len as int) =~= data@);
    Ok(())
}

/// A value of `T` at `va` is aligned and its bytes are open to the task.
pub open spec fn holds<T: UserData>(
    space: AddressSpace,
    m: Seq<u8>,
    va: int,
    write: bool,
) -> bool {
    va % T::alignment() == 0 && space.accessible(m, va, T::width(), write)
}

/// Reads a `T` from user memory. The address must be aligned for `T`.
pub fn read_user<T: UserData>(space: &AddressSpace, m: &PhysMem, va: u64) -> (r: Result<T, Error>)
    requires
        space.wf(m@),
    ensures
        match r {
            Ok(v) => holds::<T>(*space, m@, va as int, false) && v.spelled() == space.user_bytes(
                m@,
                va as int,
                T::width(),
            ),
            Err(e) => e == Error::BadPointer && !holds::<T>(*space, m@, va as int, false),
        },
{
    let align: u64 = T::align();
    if va % align != 0 {
        return Err(Error::BadPointer);
    }
    let mut data: Vec<u8> = vec![0u8; T::size()];
    match copy_from_user(space, m, va, &mut data) {
        Err(e) => Err(e),
        Ok(()) => Ok(T::decode(data.as_slice())),
    }
}

/// Writes a `T` to user memory. The address must be aligned for `T`.
pub fn write_user<T: UserData>(space: &AddressSpace, m: &mut PhysMem, va: u64, value: &T) -> (r:
    Result<(), Error>)
    requires
        space.wf(old(m)@),
    ensures
        match r {
            Ok(()) => holds::<T>(*space, old(m)@, va as int, true) && space.user_written(
                old(m)@,
                final(m)@,
                va as int,
                value.spelled(),
            ),
            Err(e) => e == Error::BadPointer && !holds::<T>(*space, old(m)@, va as int, true)
                && final(m)@ == old(m)@,
        },
        space.wf(final(m)@),
        final(m)@.len() == old(m)@.len(),
        forall|a: int, w: bool| #[trigger]
            space.spec_translate(final(m)@, a, w) == space.spec_translate(old(m)@, a, w),
{
    let align: u64 = T::align();
    if va % align != 0 {
        return Err(Error::BadPointer);
    }
    let data: Vec<u8> = value.encode();
    copy_to_user(space, m, va, data.as_slice())
}

/// Checks that a `T` at `va` could be written, without writing it.
pub fn check_writable<T: UserData>(space: &AddressSpace, m: &PhysMem, va: u64) -> (r: Result<
    (),
    Error,
>)
    requires
        space.wf(m@),
    ensures
        r == (if holds::<T>(*space, m@, va as int, true) {
            Ok::<(), Error>(())
        } else {
            Err(Error::BadPointer)
        }),
{
    let align: u64 = T::align();
    if va % align != 0 {
        return Err(Error::BadPointer);
    }
    check_range(space, m, va, T::size() as u64, true)
}

/// An entry of 0 is not valid.
pub proof fn lemma_zero_entry()
    ensures
        !valid(0),
{
    lemma_perm_bits();
}

/// A space has no more frames than memory holds.
pub proof fn lemma_frames_bounded(s: AddressSpace, m: Seq<u8>)
    requires
        s.wf(m),
    ensures
        s.frame_list().len() <= frame_alloc::MAX_FRAMES,
{
    let numbers = s.frame_list().map_values(|f: u64| f as int / 4096);
    let all = vstd::set_lib::set_int_range(0, frame_alloc::MAX_FRAMES as int);
    vstd::set_lib::lemma_int_range(0, frame_alloc::MAX_FRAMES as int);
    lemma_frame_numbers(s, m);
    numbers.unique_seq_to_set();
    assert(numbers.to_set().subset_of(all)) by {
        assert forall|x: int| numbers.to_set().contains(x) implies all.contains(x) by {
            let k = choose|k: int| 0 <= k < numbers.len() && numbers[k] == x;
            assert(s.roles().dom().contains(s.frame_list()[k] as int));
            assert(AddressSpace::frame_ok(s.frame_list()[k] as int, m.len() as int));
        }
    }
    vstd::set_lib::lemma_len_subset(numbers.to_set(), all);
}

proof fn lemma_frame_numbers(s: AddressSpace, m: Seq<u8>)
    requires
        s.wf(m),
    ensures
        s.frame_list().map_values(|f: u64| f as int / 4096).no_duplicates(),
{
    let numbers = s.frame_list().map_values(|f: u64| f as int / 4096);
    assert forall|a: int, b: int|
        0 <= a < numbers.len() && 0 <= b < numbers.len() && a != b implies numbers[a]
        != numbers[b] by {
        assert(s.roles().dom().contains(s.frame_list()[a] as int));
        assert(s.roles().dom().contains(s.frame_list()[b] as int));
        assert(AddressSpace::frame_ok(s.frame_list()[a] as int, m.len() as int));
        assert(AddressSpace::frame_ok(s.frame_list()[b] as int, m.len() as int));
    }
}

/// Releasing a space frees as many frames as it had.
pub proof fn lemma_released_count(
    s: AddressSpace,
    m: Seq<u8>,
    fa: FrameAllocator,
    fb: FrameAllocator,
)
    requires
        s.wf(m),
        s.apart(fa@),
        forall|f: int| #[trigger]
            fb@.contains(f) <==> fa@.contains(f) || s.roles().dom().contains(f * 4096),
    ensures
        fb@.len() == fa@.len() + s.frame_list().len(),
{
    let numbers = s.frame_list().map_values(|f: u64| f as int / 4096);
    lemma_frame_numbers(s, m);
    numbers.unique_seq_to_set();
    frame_alloc::lemma_free_finite(fa);
    let own = numbers.to_set();
    assert(fb@ =~= fa@.union(own)) by {
        assert forall|f: int| #[trigger] fb@.contains(f) <==> fa@.union(own).contains(f) by {
            if s.roles().dom().contains(f * 4096) {
                assert(s.frame_list().contains((f * 4096) as u64));
                let k = choose|k: int|
                    0 <= k < s.frame_list().len() && s.frame_list()[k] == (f * 4096) as u64;
                assert(numbers[k] == f);
            }
            if own.contains(f) {
                let k = choose|k: int| 0 <= k < numbers.len() && numbers[k] == f;
                assert(s.roles().dom().contains(s.frame_list()[k] as int));
                assert(AddressSpace::frame_ok(s.frame_list()[k] as int, m.len() as int));
            }
        }
    }
    assert(fa@.disjoint(own)) by {
        assert forall|f: int| #[trigger] own.contains(f) implies !fa@.contains(f) by {
            let k = choose|k: int| 0 <= k < numbers.len() && numbers[k] == f;
            assert(s.roles().dom().contains(s.frame_list()[k] as int));
        }
    }
    vstd::set_lib::lemma_set_disjoint_lens(fa@, own);
}

} // verus!
