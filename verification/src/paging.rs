//! Page tables of the PC: the kernel's identity map, and one table for each
//! user task.
//!
//! The kernel identity-maps the first 4 GiB in pages of 2 MiB that user code
//! cannot touch. A user task has tables of its own, which share the kernel's
//! and open only the task's own regions to user code.
use vstd::prelude::*;

use crate::bytes;
use crate::frame_alloc;
use crate::frame_alloc::FrameAllocator;
use crate::mem;
use crate::mem::PhysMem;

verus! {

pub const PRESENT: u64 = 1;

pub const WRITABLE: u64 = 2;

pub const USER: u64 = 4;

pub const HUGE_PAGE: u64 = 128;

pub const TWO_MIB: u64 = 0x20_0000;

pub const ONE_GIB: u64 = 0x4000_0000;

/// How many 2 MiB pages the identity map has.
pub const SLOTS: usize = 2048;

/// Entry `i` of the table at `table`.
pub open spec fn entry(m: Seq<u8>, table: u64, i: int) -> u64 {
    mem::word(m, table + 8 * i)
}

pub open spec fn is_present(e: u64) -> bool {
    e % 2 == 1
}

pub open spec fn is_user(e: u64) -> bool {
    e / 4 % 2 == 1
}

/// The table or page that an entry points to.
pub open spec fn address(e: u64) -> u64 {
    (e % 0x10_0000_0000_0000 / 4096 * 4096) as u64
}

/// A table that lies in memory.
pub open spec fn table_in(table: u64, size: int) -> bool {
    table % 4096 == 0 && table + 4096 <= size && table < 0x10_0000_0000_0000
}

/// Only the page at `table` changed.
pub open spec fn only_page(m0: Seq<u8>, m1: Seq<u8>, table: u64) -> bool {
    &&& m1.len() == m0.len()
    &&& forall|i: int|
        0 <= i < m0.len() && !(table <= i < table + 4096) ==> #[trigger] m1[i] == m0[i]
}

/// Every free frame lies in memory.
pub open spec fn frames_in(free: Set<int>, size: int) -> bool {
    forall|f: int| #[trigger] free.contains(f) ==> 0 < f && (f + 1) * 4096 <= size
}

/// What the user tables share with the kernel's.
#[derive(Clone, Copy, Debug, PartialEq, Eq, Structural)]
pub struct KernelPages {
    pub pml4: u64,
    pub pd0: u64,
    pub pd1: u64,
    pub pd2: u64,
    pub pd3: u64,
}

impl KernelPages {
    /// The directory of a GiB of the identity map.
    pub open spec fn pd(self, gib: int) -> u64 {
        if gib == 0 {
            self.pd0
        } else if gib == 1 {
            self.pd1
        } else if gib == 2 {
            self.pd2
        } else {
            self.pd3
        }
    }

    /// The kernel's tables lie in memory, in no free frame.
    pub open spec fn wf(self, m: Seq<u8>, free: Set<int>) -> bool {
        let pdpt = address(entry(m, self.pml4, 0));
        &&& table_in(self.pml4, m.len() as int)
        &&& !free.contains(self.pml4 as int / 4096)
        &&& table_in(pdpt, m.len() as int)
        &&& !free.contains(pdpt as int / 4096)
        &&& forall|g: int|
            0 <= g < 4 ==> #[trigger] self.pd(g) % 4096 == 0 && self.pd(g) < 0x10_0000_0000_0000
    }
}

/// The physical address of the kernel's top table.
pub fn kernel_pml4(k: &KernelPages) -> (r: u64)
    ensures
        r == k.pml4,
{
    k.pml4
}

proof fn lemma_entry_kept(m0: Seq<u8>, m1: Seq<u8>, page: u64, table: u64, i: int)
    requires
        only_page(m0, m1, page),
        page % 4096 == 0,
        table_in(table, m0.len() as int),
        table != page,
        0 <= i < 512,
    ensures
        entry(m1, table, i) == entry(m0, table, i),
{
    mem::lemma_word_same(m1, m0, table + 8 * i);
}

fn read_entry(m: &PhysMem, table: u64, idx: usize) -> (r: u64)
    requires
        table_in(table, m@.len() as int),
        idx < 512,
    ensures
        r == entry(m@, table, idx as int),
{
    m.read_word(table + 8 * idx as u64)
}

fn write_entry(m: &mut PhysMem, table: u64, idx: usize, value: u64)
    requires
        table_in(table, old(m)@.len() as int),
        idx < 512,
    ensures
        only_page(old(m)@, final(m)@, table),
        entry(final(m)@, table, idx as int) == value,
        forall|j: int|
            0 <= j < 512 && j != idx ==> #[trigger] entry(final(m)@, table, j) == entry(
                old(m)@,
                table,
                j,
            ),
{
    let ghost m0 = m@;
    m.write_word(table + 8 * idx as u64, value);
    proof {
        bytes::lemma_le_bytes_len(value as int, 8);
        mem::lemma_word_written(m0, table + 8 * idx, value);
        assert forall|j: int| 0 <= j < 512 && j != idx implies #[trigger] entry(m@, table, j)
            == entry(m0, table, j) by {
            mem::lemma_word_elsewhere(m0, table + 8 * idx, value, table + 8 * j);
        }
    }
}

/// A frame of its own for a table, with no entry in it.
fn alloc_zeroed(m: &mut PhysMem, fa: &mut FrameAllocator) -> (r: Option<u64>)
    requires
        old(fa).wf(),
        frames_in(old(fa)@, old(m)@.len() as int),
        old(m)@.len() <= 0x10_0000_0000_0000,
    ensures
        final(fa).wf(),
        match r {
            Some(t) => {
                &&& table_in(t, old(m)@.len() as int)
                &&& old(fa)@.contains(t as int / 4096)
                &&& final(fa)@ == old(fa)@.remove(t as int / 4096)
                &&& only_page(old(m)@, final(m)@, t)
                &&& forall|i: int| 0 <= i < 512 ==> #[trigger] entry(final(m)@, t, i) == 0
            },
            None => {
                &&& old(fa)@ == Set::<int>::empty()
                &&& final(fa)@ == old(fa)@
                &&& final(m)@ == old(m)@
            },
        },
{
    let t: u64 = match frame_alloc::allocate(fa) {
        None => {
            return None;
        },
        Some(t) => t,
    };
    m.zero(t, 4096);
    proof {
        assert forall|i: int| 0 <= i < 512 implies #[trigger] entry(m@, t, i) == 0 by {
            mem::lemma_word_zero(m@, t + 8 * i);
        }
    }
    Some(t)
}

/// The entry of the identity map for 2 MiB page `slot`.
pub open spec fn identity_entry(slot: int, user: bool) -> u64 {
    (slot * TWO_MIB + PRESENT + WRITABLE + HUGE_PAGE + if user {
        USER as int
    } else {
        0
    }) as u64
}

/// Fills a directory with a GiB of the identity map, from 2 MiB page `first`
/// on.
fn fill_directory(m: &mut PhysMem, pd: u64, first: usize, user: &Vec<bool>)
    requires
        table_in(pd, old(m)@.len() as int),
        first + 512 <= user@.len(),
        user@.len() == SLOTS,
    ensures
        only_page(old(m)@, final(m)@, pd),
        forall|i: int|
            0 <= i < 512 ==> #[trigger] entry(final(m)@, pd, i) == identity_entry(
                first + i,
                user@[first + i],
            ),
{
    let mut idx: usize = 0;
    while idx < 512
        invariant
            idx <= 512,
            first + 512 <= user@.len(),
            user@.len() == SLOTS,
            table_in(pd, m@.len() as int),
            only_page(old(m)@, m@, pd),
            forall|i: int|
                0 <= i < idx ==> #[trigger] entry(m@, pd, i) == identity_entry(
                    first + i,
                    user@[first + i],
                ),
        decreases 512 - idx,
    {
        let phys: u64 = (first + idx) as u64 * TWO_MIB;
        let flags: u64 = if user[first + idx] {
            PRESENT + WRITABLE + HUGE_PAGE + USER
        } else {
            PRESENT + WRITABLE + HUGE_PAGE
        };
        write_entry(m, pd, idx, phys + flags);
        idx = idx + 1;
    }
}

/// The kernel's identity map: one table for each level, a directory for each
/// of four GiB, nothing for user code.
pub open spec fn kernel_map(m: Seq<u8>, k: KernelPages) -> bool {
    let pdpt = address(entry(m, k.pml4, 0));
    &&& entry(m, k.pml4, 0) == pdpt + PRESENT + WRITABLE
    &&& forall|i: int| 1 <= i < 512 ==> #[trigger] entry(m, k.pml4, i) == 0
    &&& forall|g: int| 0 <= g < 4 ==> #[trigger] entry(m, pdpt, g) == k.pd(g) + PRESENT + WRITABLE
    &&& forall|i: int| 4 <= i < 512 ==> #[trigger] entry(m, pdpt, i) == 0
    &&& forall|g: int, i: int|
        0 <= g < 4 && 0 <= i < 512 ==> #[trigger] entry(m, k.pd(g), i) == identity_entry(
            g * 512 + i,
            false,
        )
}

/// The kernel's tables lead to the identity map, and whatever they map beside it
/// is closed to user code.
pub open spec fn closed_to_users(m: Seq<u8>, k: KernelPages) -> bool {
    let pdpt = address(entry(m, k.pml4, 0));
    &&& is_present(entry(m, k.pml4, 0))
    &&& forall|i: int| 1 <= i < 512 ==> !is_user(#[trigger] entry(m, k.pml4, i))
    &&& forall|i: int| 4 <= i < 512 ==> !is_user(#[trigger] entry(m, pdpt, i))
}

/// Only bytes in free frames changed.
pub open spec fn only_free(m0: Seq<u8>, m1: Seq<u8>, free: Set<int>) -> bool {
    &&& m1.len() == m0.len()
    &&& forall|i: int| 0 <= i < m0.len() && !free.contains(i / 4096) ==> #[trigger] m1[i] == m0[i]
}

proof fn lemma_only_free(m0: Seq<u8>, m1: Seq<u8>, m2: Seq<u8>, free: Set<int>, page: u64)
    requires
        only_free(m0, m1, free),
        only_page(m1, m2, page),
        page % 4096 == 0,
        free.contains(page as int / 4096),
    ensures
        only_free(m0, m2, free),
{
    assert forall|i: int| 0 <= i < m0.len() && !free.contains(i / 4096) implies #[trigger] m2[i]
        == m0[i] by {
        if page <= i < page + 4096 {
            assert(i / 4096 == page as int / 4096);
        }
    }
}

/// A table that was taken from the free frames.
spec fn fresh(t: u64, size: int, free0: Set<int>, free1: Set<int>) -> bool {
    table_in(t, size) && free0.contains(t as int / 4096) && !free1.contains(t as int / 4096)
}

/// The frames of the kernel's tables.
pub open spec fn kernel_frames(m: Seq<u8>, k: KernelPages) -> Set<int> {
    Set::new(
        |f: int|
            f == k.pml4 as int / 4096 || f == address(entry(m, k.pml4, 0)) as int / 4096 || f
                == k.pd0 as int / 4096 || f == k.pd1 as int / 4096 || f == k.pd2 as int / 4096 || f
                == k.pd3 as int / 4096,
    )
}

/// Builds one GiB of the kernel's identity map.
fn kernel_directory(
    m: &mut PhysMem,
    fa: &mut FrameAllocator,
    pdpt: u64,
    gib: usize,
    none: &Vec<bool>,
) -> (r: Option<u64>)
    requires
        old(fa).wf(),
        frames_in(old(fa)@, old(m)@.len() as int),
        old(m)@.len() <= 0x10_0000_0000_0000,
        table_in(pdpt, old(m)@.len() as int),
        !old(fa)@.contains(pdpt as int / 4096),
        gib < 4,
        none@ == Seq::new(SLOTS as nat, |i: int| false),
    ensures
        final(fa).wf(),
        match r {
            None => old(fa)@ == Set::<int>::empty(),
            Some(pd) => {
                &&& fresh(pd, old(m)@.len() as int, old(fa)@, final(fa)@)
                &&& final(fa)@ == old(fa)@.remove(pd as int / 4096)
                &&& final(m)@.len() == old(m)@.len()
                &&& forall|t: u64, i: int|
                    table_in(t, old(m)@.len() as int) && t != pd && 0 <= i < 512 && !(t == pdpt && i
                        == gib) ==> #[trigger] entry(final(m)@, t, i) == entry(old(m)@, t, i)
                &&& entry(final(m)@, pdpt, gib as int) == pd + PRESENT + WRITABLE
                &&& forall|i: int|
                    0 <= i < 512 ==> #[trigger] entry(final(m)@, pd, i) == identity_entry(
                        gib * 512 + i,
                        false,
                    )
                &&& forall|i: int|
                    0 <= i < old(m)@.len() && !(pd <= i < pd + 4096) && !(pdpt <= i < pdpt + 4096)
                        ==> #[trigger] final(m)@[i] == old(m)@[i]
            },
        },
{
    let ghost m0 = m@;
    let pd: u64 = match alloc_zeroed(m, fa) {
        None => {
            return None;
        },
        Some(pd) => pd,
    };
    let ghost m1 = m@;
    write_entry(m, pdpt, gib, pd + PRESENT + WRITABLE);
    let ghost m2 = m@;
    fill_directory(m, pd, gib * 512, none);
    proof {
        assert forall|t: u64, i: int|
            table_in(t, m0.len() as int) && t != pd && 0 <= i < 512 && !(t == pdpt && i
                == gib) implies #[trigger] entry(m@, t, i) == entry(m0, t, i) by {
            lemma_entry_kept(m0, m1, pd, t, i);
            if t != pdpt {
                lemma_entry_kept(m1, m2, pdpt, t, i);
            }
            lemma_entry_kept(m2, m@, pd, t, i);
        }
        lemma_entry_kept(m2, m@, pd, pdpt, gib as int);
        assert forall|i: int| 0 <= i < 512 implies #[trigger] entry(m@, pd, i) == identity_entry(
            gib * 512 + i,
            false,
        ) by {
            assert(none@[gib * 512 + i] == false);
        }
    }
    Some(pd)
}

proof fn lemma_address(t: u64)
    requires
        t % 4096 == 0,
        t < 0x10_0000_0000_0000,
    ensures
        address((t + 3) as u64) == t,
        address((t + 7) as u64) == t,
        is_present((t + 3) as u64) && !is_user((t + 3) as u64),
        is_present((t + 7) as u64) && is_user((t + 7) as u64),
{
}

/// Builds the kernel's page tables; none where the frames run out.
pub fn init(m: &mut PhysMem, fa: &mut FrameAllocator) -> (r: Option<KernelPages>)
    requires
        old(fa).wf(),
        frames_in(old(fa)@, old(m)@.len() as int),
        old(m)@.len() <= 0x10_0000_0000_0000,
    ensures
        final(fa).wf(),
        match r {
            None => old(fa)@.finite() && old(fa)@.len() < 6,
            Some(k) => {
                &&& kernel_map(final(m)@, k)
                &&& closed_to_users(final(m)@, k)
                &&& k.wf(final(m)@, final(fa)@)
                &&& kernel_frames(final(m)@, k).subset_of(old(fa)@)
                &&& final(fa)@ == old(fa)@.difference(kernel_frames(final(m)@, k))
                &&& only_free(old(m)@, final(m)@, old(fa)@)
            },
        },
{
    let ghost size = m@.len() as int;
    let ghost free0 = fa@;
    let ghost m0 = m@;
    proof {
        frame_alloc::lemma_free_finite(*fa);
    }
    let pml4: u64 = match alloc_zeroed(m, fa) {
        None => {
            return None;
        },
        Some(t) => t,
    };
    let ghost ma = m@;
    let pdpt: u64 = match alloc_zeroed(m, fa) {
        None => {
            return None;
        },
        Some(t) => t,
    };
    let ghost mb = m@;
    write_entry(m, pml4, 0, pdpt + PRESENT + WRITABLE);
    proof {
        lemma_address(pdpt);
        assert forall|i: int| 0 <= i < 512 implies #[trigger] entry(m@, pdpt, i) == 0 by {
            lemma_entry_kept(mb, m@, pml4, pdpt, i);
        }
        assert forall|i: int| 1 <= i < 512 implies #[trigger] entry(m@, pml4, i) == 0 by {
            lemma_entry_kept(ma, mb, pdpt, pml4, i);
        }
        lemma_only_free(m0, m0, ma, free0, pml4);
        lemma_only_free(m0, ma, mb, free0, pdpt);
        lemma_only_free(m0, mb, m@, free0, pml4);
    }
    let none: Vec<bool> = vec![false; SLOTS];
    assert(none@ =~= Seq::new(SLOTS as nat, |i: int| false));
    let ghost f0 = fa@;
    let pd0: u64 = match kernel_directory(m, fa, pdpt, 0, &none) {
        None => {
            return None;
        },
        Some(t) => t,
    };
    let ghost m1 = m@;
    let pd1: u64 = match kernel_directory(m, fa, pdpt, 1, &none) {
        None => {
            return None;
        },
        Some(t) => t,
    };
    let ghost m2 = m@;
    let pd2: u64 = match kernel_directory(m, fa, pdpt, 2, &none) {
        None => {
            return None;
        },
        Some(t) => t,
    };
    let ghost m3 = m@;
    let pd3: u64 = match kernel_directory(m, fa, pdpt, 3, &none) {
        None => {
            return None;
        },
        Some(t) => t,
    };
    let k: KernelPages = KernelPages { pml4, pd0, pd1, pd2, pd3 };
    proof {
        let n = m@;
        assert(entry(n, pml4, 0) == pdpt + PRESENT + WRITABLE);
        assert(address(entry(n, pml4, 0)) == pdpt);
        assert forall|g: int| 0 <= g < 4 implies #[trigger] entry(n, pdpt, g) == k.pd(g) + PRESENT
            + WRITABLE by {
            assert(g == 0 || g == 1 || g == 2 || g == 3);
        }
        assert forall|g: int, i: int| 0 <= g < 4 && 0 <= i < 512 implies #[trigger] entry(
            n,
            k.pd(g),
            i,
        ) == identity_entry(g * 512 + i, false) by {
            assert(g == 0 || g == 1 || g == 2 || g == 3);
            if g == 0 {
                assert(entry(n, pd0, i) == entry(m3, pd0, i));
                assert(entry(m3, pd0, i) == entry(m2, pd0, i));
                assert(entry(m2, pd0, i) == entry(m1, pd0, i));
            } else if g == 1 {
                assert(entry(n, pd1, i) == entry(m3, pd1, i));
                assert(entry(m3, pd1, i) == entry(m2, pd1, i));
            } else if g == 2 {
                assert(entry(n, pd2, i) == entry(m3, pd2, i));
            }
        }
        assert forall|i: int| 4 <= i < 512 implies #[trigger] entry(n, pdpt, i) == 0 by {
            assert(entry(n, pdpt, i) == entry(m3, pdpt, i));
            assert(entry(m3, pdpt, i) == entry(m2, pdpt, i));
            assert(entry(m2, pdpt, i) == entry(m1, pdpt, i));
        }
        assert forall|i: int| 1 <= i < 512 implies #[trigger] entry(n, pml4, i) == 0 by {
            assert(entry(n, pml4, i) == entry(m3, pml4, i));
            assert(entry(m3, pml4, i) == entry(m2, pml4, i));
            assert(entry(m2, pml4, i) == entry(m1, pml4, i));
        }
        assert(fa@ =~= free0.difference(kernel_frames(n, k)));
        assert forall|i: int| 0 <= i < m0.len() && !free0.contains(i / 4096) implies #[trigger] n[i]
            == m0[i] by {
            assert(i / 4096 != pdpt as int / 4096);
            assert(i / 4096 != pd0 as int / 4096);
            assert(i / 4096 != pd1 as int / 4096);
            assert(i / 4096 != pd2 as int / 4096);
            assert(i / 4096 != pd3 as int / 4096);
        }
        assert forall|g: int| 0 <= g < 4 implies #[trigger] k.pd(g) % 4096 == 0 && k.pd(g)
            < 0x10_0000_0000_0000 by {
            assert(g == 0 || g == 1 || g == 2 || g == 3);
        }
    }
    Some(k)
}

/// 2 MiB page `slot` lies in one of the regions, rounded outward.
pub open spec fn in_regions(regions: Seq<(u64, u64)>, slot: int) -> bool {
    exists|r: int| 0 <= r < regions.len() && #[trigger] in_region(regions[r], slot)
}

pub open spec fn in_region(region: (u64, u64), slot: int) -> bool {
    &&& region.1 > 0
    &&& region.0 as int / TWO_MIB as int <= slot <= (region.0 + region.1 - 1) / TWO_MIB as int
}

/// Some 2 MiB page of this GiB lies in one of the regions.
pub open spec fn gib_has_user(regions: Seq<(u64, u64)>, gib: int) -> bool {
    exists|i: int| 0 <= i < 512 && #[trigger] in_regions(regions, gib * 512 + i)
}

/// Which 2 MiB pages of the identity map lie in one of the regions.
fn user_pages(regions: &[(u64, u64)]) -> (user: Vec<bool>)
    requires
        forall|r: int| 0 <= r < regions@.len() ==> (#[trigger] regions@[r]).0 + regions@[r].1 <= u64::MAX,
    ensures
        user@.len() == SLOTS,
        forall|i: int| 0 <= i < SLOTS ==> #[trigger] user@[i] == in_regions(regions@, i),
{
    let mut user: Vec<bool> = vec![false; SLOTS];
    let mut n: usize = 0;
    while n < regions.len()
        invariant
            n <= regions@.len(),
            user@.len() == SLOTS,
            forall|r: int| 0 <= r < regions@.len() ==> (#[trigger] regions@[r]).0 + regions@[r].1 <= u64::MAX,
            forall|i: int|
                0 <= i < SLOTS ==> #[trigger] user@[i] == in_regions(regions@.take(n as int), i),
        decreases regions@.len() - n,
    {
        let (start, size): (u64, u64) = regions[n];
        assert(regions@[n as int].0 + regions@[n as int].1 <= u64::MAX);
        let ghost before = user@;
        if size > 0 {
            let first: u64 = start / TWO_MIB;
            let last: u64 = (start + size - 1) / TWO_MIB;
            let mut i: u64 = first;
            while i <= last && i < SLOTS as u64
                invariant
                    first <= i,
                    i <= last + 1,
                    first <= last,
                    last <= u64::MAX / TWO_MIB,
                    user@.len() == SLOTS,
                    before.len() == SLOTS,
                    forall|j: int|
                        0 <= j < SLOTS ==> #[trigger] user@[j] == (before[j] || (first <= j < i)),
                decreases SLOTS - i,
            {
                user[i as usize] = true;
                i = i + 1;
            }
        }
        proof {
            let old_part = regions@.take(n as int);
            let new_part = regions@.take(n + 1);
            assert forall|i: int| 0 <= i < SLOTS implies #[trigger] user@[i] == in_regions(
                new_part,
                i,
            ) by {
                if in_regions(old_part, i) {
                    let r = choose|r: int|
                        0 <= r < old_part.len() && #[trigger] in_region(old_part[r], i);
                    assert(in_region(new_part[r], i));
                }
                if in_region(regions@[n as int], i) {
                    assert(in_region(new_part[n as int], i));
                }
                if in_regions(new_part, i) {
                    let r = choose|r: int|
                        0 <= r < new_part.len() && #[trigger] in_region(new_part[r], i);
                    if r < n {
                        assert(in_region(old_part[r], i));
                    }
                }
            }
        }
        n = n + 1;
    }
    assert(regions@.take(regions@.len() as int) =~= regions@);
    user
}

fn any_user(user: &Vec<bool>, first: usize) -> (r: bool)
    requires
        first + 512 <= user@.len(),
        user@.len() == SLOTS,
    ensures
        r == exists|i: int| 0 <= i < 512 && #[trigger] user@[first + i],
{
    let mut i: usize = 0;
    while i < 512
        invariant
            i <= 512,
            first + 512 <= user@.len(),
            user@.len() == SLOTS,
            forall|j: int| 0 <= j < i ==> !#[trigger] user@[first + j],
        decreases 512 - i,
    {
        if user[first + i] {
            assert(user@[first + i as int]);
            return true;
        }
        i = i + 1;
    }
    false
}

/// What the user tables take over of an entry of the kernel's: all of it, if
/// it is present.
pub open spec fn mirrored(e: u64) -> u64 {
    if is_present(e) {
        e
    } else {
        0
    }
}

/// Copies the entries from `from` on of one table into another that has none.
fn mirror(m: &mut PhysMem, src: u64, dst: u64, from: usize)
    requires
        table_in(src, old(m)@.len() as int),
        table_in(dst, old(m)@.len() as int),
        src != dst,
        from <= 512,
        forall|i: int| from <= i < 512 ==> #[trigger] entry(old(m)@, dst, i) == 0,
    ensures
        only_page(old(m)@, final(m)@, dst),
        forall|i: int|
            0 <= i < from ==> #[trigger] entry(final(m)@, dst, i) == entry(old(m)@, dst, i),
        forall|i: int|
            from <= i < 512 ==> #[trigger] entry(final(m)@, dst, i) == mirrored(
                entry(old(m)@, src, i),
            ),
{
    let ghost m0 = m@;
    let mut i: usize = from;
    while i < 512
        invariant
            from <= i <= 512,
            m0 == old(m)@,
            table_in(src, m0.len() as int),
            table_in(dst, m0.len() as int),
            src != dst,
            only_page(m0, m@, dst),
            forall|j: int| 0 <= j < from ==> #[trigger] entry(m@, dst, j) == entry(m0, dst, j),
            forall|j: int|
                from <= j < i ==> #[trigger] entry(m@, dst, j) == mirrored(entry(m0, src, j)),
            forall|j: int| i <= j < 512 ==> #[trigger] entry(m@, dst, j) == 0,
        decreases 512 - i,
    {
        proof {
            lemma_entry_kept(m0, m@, dst, src, i as int);
        }
        let e: u64 = read_entry(m, src, i);
        if e % 2 == 1 {
            write_entry(m, dst, i, e);
        }
        i = i + 1;
    }
}

/// A task's tables: its own regions open to user code, everything else as the
/// kernel has it and closed to user code.
pub open spec fn user_map(
    m: Seq<u8>,
    pml4: u64,
    kernel: Seq<u8>,
    k: KernelPages,
    regions: Seq<(u64, u64)>,
) -> bool {
    let pdpt = address(entry(m, pml4, 0));
    let kpdpt = address(entry(kernel, k.pml4, 0));
    &&& entry(m, pml4, 0) == pdpt + PRESENT + WRITABLE + USER
    &&& forall|i: int|
        1 <= i < 512 ==> #[trigger] entry(m, pml4, i) == mirrored(entry(kernel, k.pml4, i))
    &&& forall|i: int|
        4 <= i < 512 ==> #[trigger] entry(m, pdpt, i) == mirrored(entry(kernel, kpdpt, i))
    &&& forall|g: int| 0 <= g < 4 ==> #[trigger] gib_map(m, pdpt, k, regions, g)
}

/// One GiB of a task's tables: the kernel's directory, or, if a region lies in
/// it, a directory of the task's own.
pub open spec fn gib_map(
    m: Seq<u8>,
    pdpt: u64,
    k: KernelPages,
    regions: Seq<(u64, u64)>,
    gib: int,
) -> bool {
    let e = entry(m, pdpt, gib);
    if gib_has_user(regions, gib) {
        &&& e == address(e) + PRESENT + WRITABLE + USER
        &&& forall|i: int|
            0 <= i < 512 ==> #[trigger] entry(m, address(e), i) == identity_entry(
                gib * 512 + i,
                in_regions(regions, gib * 512 + i),
            )
    } else {
        e == k.pd(gib) + PRESENT + WRITABLE
    }
}

fn directory_of(k: &KernelPages, gib: usize) -> (r: u64)
    requires
        gib < 4,
    ensures
        r == k.pd(gib as int),
{
    match gib {
        0 => k.pd0,
        1 => k.pd1,
        2 => k.pd2,
        _ => k.pd3,
    }
}

/// Creates the page tables of a user task: they map the first 4 GiB as the
/// kernel's do, but open the given regions (start and size, rounded outward to
/// 2 MiB) to user code. Returns the physical address of the top table; none
/// where the frames run out.
pub fn create_user_page_table(
    m: &mut PhysMem,
    fa: &mut FrameAllocator,
    k: &KernelPages,
    regions: &[(u64, u64)],
) -> (r: Option<u64>)
    requires
        old(fa).wf(),
        frames_in(old(fa)@, old(m)@.len() as int),
        old(m)@.len() <= 0x10_0000_0000_0000,
        k.wf(old(m)@, old(fa)@),
        forall|r: int| 0 <= r < regions@.len() ==> (#[trigger] regions@[r]).0 + regions@[r].1 <= u64::MAX,
    ensures
        final(fa).wf(),
        final(fa)@.subset_of(old(fa)@),
        only_free(old(m)@, final(m)@, old(fa)@.difference(final(fa)@)),
        match r {
            Some(pml4) => {
                &&& table_in(pml4, final(m)@.len() as int)
                &&& table_in(address(entry(final(m)@, pml4, 0)), final(m)@.len() as int)
                &&& old(fa)@.contains(pml4 as int / 4096)
                &&& user_map(final(m)@, pml4, old(m)@, *k, regions@)
                &&& k.wf(final(m)@, final(fa)@)
                &&& closed_to_users(old(m)@, *k) ==> closed_to_users(final(m)@, *k)
            },
            None => old(fa)@.finite() && old(fa)@.len() < 6,
        },
{
    let user: Vec<bool> = user_pages(regions);
    let ghost m0 = m@;
    let ghost size = m@.len() as int;
    let ghost free0 = fa@;
    let ghost rs = regions@;
    let ghost kpdpt = address(entry(m0, k.pml4, 0));
    proof {
        frame_alloc::lemma_free_finite(*fa);
    }
    let pml4: u64 = match alloc_zeroed(m, fa) {
        None => {
            return None;
        },
        Some(t) => t,
    };
    let ghost ma = m@;
    let ghost fa1 = fa@;
    proof {
        lemma_only_free(m0, m0, ma, free0.difference(fa1), pml4);
    }
    let pdpt: u64 = match alloc_zeroed(m, fa) {
        None => {
            return None;
        },
        Some(t) => t,
    };
    let ghost mb = m@;
    let ghost fb = fa@;
    write_entry(m, pml4, 0, pdpt + PRESENT + WRITABLE + USER);
    proof {
        lemma_address(pdpt);
        assert forall|i: int| 0 <= i < 512 implies #[trigger] entry(m@, pdpt, i) == 0 by {
            lemma_entry_kept(mb, m@, pml4, pdpt, i);
        }
        assert forall|i: int| 1 <= i < 512 implies #[trigger] entry(m@, pml4, i) == 0 by {
            lemma_entry_kept(ma, mb, pdpt, pml4, i);
        }
        let taken = free0.difference(fa@);
        assert(only_free(m0, ma, taken));
        lemma_only_free(m0, ma, mb, taken, pdpt);
        lemma_only_free(m0, mb, m@, taken, pml4);
    }
    let mut gib: usize = 0;
    while gib < 4
        invariant
            gib <= 4,
            m0 == old(m)@,
            free0 == old(fa)@,
            size == m@.len() == m0.len() <= 0x10_0000_0000_0000,
            fa.wf(),
            frames_in(fa@, size),
            rs == regions@,
            user@.len() == SLOTS,
            forall|i: int| 0 <= i < SLOTS ==> #[trigger] user@[i] == in_regions(rs, i),
            fresh(pml4, size, free0, fa@),
            fresh(pdpt, size, free0, fa@),
            pml4 != pdpt,
            fa@.subset_of(free0),
            only_free(m0, m@, free0.difference(fa@)),
            entry(m@, pml4, 0) == pdpt + PRESENT + WRITABLE + USER,
            forall|i: int| 1 <= i < 512 ==> #[trigger] entry(m@, pml4, i) == 0,
            forall|i: int| gib <= i < 512 ==> #[trigger] entry(m@, pdpt, i) == 0,
            forall|g: int| 0 <= g < gib ==> #[trigger] gib_map(m@, pdpt, *k, rs, g),
            forall|g: int|
                0 <= g < gib && gib_has_user(rs, g) ==> fresh(
                    address(#[trigger] entry(m@, pdpt, g)),
                    size,
                    free0,
                    fa@,
                ) && address(entry(m@, pdpt, g)) != pml4 && address(entry(m@, pdpt, g)) != pdpt,
            free0.finite(),
            fa@.len() + 2 + gib >= free0.len(),
            forall|g: int|
                0 <= g < 4 ==> #[trigger] k.pd(g) % 4096 == 0 && k.pd(g) < 0x10_0000_0000_0000,
        decreases 4 - gib,
    {
        let ghost m1 = m@;
        let ghost f1 = fa@;
        let has_user: bool = any_user(&user, gib * 512);
        proof {
            assert(has_user == gib_has_user(rs, gib as int)) by {
                if has_user {
                    let i = choose|i: int| 0 <= i < 512 && #[trigger] user@[gib * 512 + i];
                    assert(in_regions(rs, gib * 512 + i));
                }
                if gib_has_user(rs, gib as int) {
                    let i = choose|i: int| 0 <= i < 512 && #[trigger] in_regions(rs, gib * 512 + i);
                    assert(user@[gib * 512 + i]);
                }
            }
        }
        if !has_user {
            let kpd: u64 = directory_of(k, gib);
            assert(k.pd(gib as int) < 0x10_0000_0000_0000);
            write_entry(m, pdpt, gib, kpd + PRESENT + WRITABLE);
            proof {
                lemma_gib_kept(m1, m@, pml4, pdpt, pdpt, k, rs, gib as int, size, free0, f1);
                lemma_only_free(m0, m1, m@, free0.difference(fa@), pdpt);
                assert(gib_map(m@, pdpt, *k, rs, gib as int));
            }
        } else {
            let pd: u64 = match alloc_zeroed(m, fa) {
                None => {
                    return None;
                },
                Some(t) => t,
            };
            let ghost m2 = m@;
            write_entry(m, pdpt, gib, pd + PRESENT + WRITABLE + USER);
            let ghost m3 = m@;
            fill_directory(m, pd, gib * 512, &user);
            proof {
                lemma_address(pd);
                lemma_gib_kept(m1, m2, pml4, pdpt, pd, k, rs, gib as int, size, free0, f1);
                lemma_gib_kept(m2, m3, pml4, pdpt, pdpt, k, rs, gib as int, size, free0, f1);
                lemma_gib_kept(m3, m@, pml4, pdpt, pd, k, rs, gib as int, size, free0, f1);
                let taken = free0.difference(fa@);
                assert(only_free(m0, m1, taken));
                lemma_only_free(m0, m1, m2, taken, pd);
                lemma_only_free(m0, m2, m3, taken, pdpt);
                lemma_only_free(m0, m3, m@, taken, pd);
                lemma_entry_kept(m3, m@, pd, pdpt, gib as int);
                assert forall|i: int| gib < i < 512 implies #[trigger] entry(m@, pdpt, i) == 0 by {
                    lemma_entry_kept(m1, m2, pd, pdpt, i);
                    lemma_entry_kept(m3, m@, pd, pdpt, i);
                }
                assert forall|i: int| 0 <= i < 512 implies #[trigger] entry(m@, pd, i)
                    == identity_entry(gib * 512 + i, in_regions(rs, gib * 512 + i)) by {
                    assert(user@[gib * 512 + i] == in_regions(rs, gib * 512 + i));
                }
                assert(gib_map(m@, pdpt, *k, rs, gib as int));
            }
        }
        gib = gib + 1;
    }
    let ghost m4 = m@;
    let ghost taken = free0.difference(fa@);
    proof {
        lemma_outside(m0, m4, taken, k.pml4);
        lemma_outside(m0, m4, taken, kpdpt);
    }
    let kpdpt_entry: u64 = read_entry(m, k.pml4, 0);
    let kernel_pdpt: u64 = kpdpt_entry % 0x10_0000_0000_0000 / 4096 * 4096;
    assert(kernel_pdpt == kpdpt);
    mirror(m, kernel_pdpt, pdpt, 4);
    let ghost m5 = m@;
    proof {
        lemma_only_free(m0, m4, m5, taken, pdpt);
        lemma_outside(m0, m5, taken, k.pml4);
        assert forall|i: int| 1 <= i < 512 implies #[trigger] entry(m5, pml4, i) == 0 by {
            lemma_entry_kept(m4, m5, pdpt, pml4, i);
        }
    }
    mirror(m, k.pml4, pml4, 1);
    proof {
        let n = m@;
        lemma_only_free(m0, m5, n, taken, pml4);
        lemma_entry_kept(m4, m5, pdpt, pml4, 0);
        lemma_address(pdpt);
        assert(entry(n, pml4, 0) == pdpt + PRESENT + WRITABLE + USER);
        assert(address(entry(n, pml4, 0)) == pdpt);
        assert forall|i: int| 4 <= i < 512 implies #[trigger] entry(n, pdpt, i) == mirrored(
            entry(m0, kpdpt, i),
        ) by {
            lemma_entry_kept(m5, n, pml4, pdpt, i);
            assert(entry(m5, pdpt, i) == mirrored(entry(m4, kpdpt, i)));
        }
        assert forall|i: int| 1 <= i < 512 implies #[trigger] entry(n, pml4, i) == mirrored(
            entry(m0, k.pml4, i),
        ) by {
            assert(entry(n, pml4, i) == mirrored(entry(m5, k.pml4, i)));
        }
        assert forall|g: int| 0 <= g < 4 implies #[trigger] gib_map(n, pdpt, *k, rs, g) by {
            assert(gib_map(m4, pdpt, *k, rs, g));
            lemma_entry_kept(m5, n, pml4, pdpt, g);
            assert(entry(m5, pdpt, g) == entry(m4, pdpt, g));
            if gib_has_user(rs, g) {
                let pd = address(entry(m4, pdpt, g));
                assert forall|i: int| 0 <= i < 512 implies #[trigger] entry(n, pd, i) == entry(
                    m4,
                    pd,
                    i,
                ) by {
                    lemma_entry_kept(m4, m5, pdpt, pd, i);
                    lemma_entry_kept(m5, n, pml4, pd, i);
                }
            }
        }
        assert(user_map(n, pml4, m0, *k, rs));
        lemma_outside(m0, n, taken, k.pml4);
        assert(entry(n, k.pml4, 0) == entry(m0, k.pml4, 0));
        assert(k.wf(n, fa@));
        lemma_outside(m0, n, taken, kpdpt);
        if closed_to_users(m0, *k) {
            assert forall|i: int| 1 <= i < 512 implies !is_user(
                #[trigger] entry(n, k.pml4, i),
            ) by {
                assert(!is_user(entry(m0, k.pml4, i)));
            }
            assert forall|i: int| 4 <= i < 512 implies !is_user(#[trigger] entry(n, kpdpt, i)) by {
                assert(!is_user(entry(m0, kpdpt, i)));
            }
        }
    }
    Some(pml4)
}

/// Tables outside the frames that changed are as they were.
pub proof fn lemma_outside(m0: Seq<u8>, m1: Seq<u8>, taken: Set<int>, table: u64)
    requires
        only_free(m0, m1, taken),
        table_in(table, m0.len() as int),
        !taken.contains(table as int / 4096),
    ensures
        forall|i: int| 0 <= i < 512 ==> #[trigger] entry(m1, table, i) == entry(m0, table, i),
{
    assert forall|i: int| 0 <= i < 512 implies #[trigger] entry(m1, table, i) == entry(
        m0,
        table,
        i,
    ) by {
        assert forall|j: int| table + 8 * i <= j < table + 8 * i + 8 implies #[trigger] m1[j]
            == m0[j] by {
            assert(j / 4096 == table as int / 4096);
        }
        mem::lemma_word_same(m1, m0, table + 8 * i);
    }
}

/// A change of one page leaves what was built so far alone: of the page with
/// the directories' entries, only entry `gib` may change.
proof fn lemma_gib_kept(
    m0: Seq<u8>,
    m1: Seq<u8>,
    pml4: u64,
    pdpt: u64,
    page: u64,
    k: &KernelPages,
    rs: Seq<(u64, u64)>,
    gib: int,
    size: int,
    free0: Set<int>,
    f1: Set<int>,
)
    requires
        0 <= gib < 4,
        m0.len() == size,
        only_page(m0, m1, page),
        table_in(page, size),
        table_in(pml4, size),
        table_in(pdpt, size),
        pml4 != pdpt,
        page != pml4,
        page == pdpt || f1.contains(page as int / 4096),
        !f1.contains(pdpt as int / 4096),
        page == pdpt ==> forall|i: int|
            0 <= i < 512 && i != gib ==> #[trigger] entry(m1, pdpt, i) == entry(m0, pdpt, i),
        forall|g: int| 0 <= g < gib ==> #[trigger] gib_map(m0, pdpt, *k, rs, g),
        forall|g: int|
            0 <= g < gib && gib_has_user(rs, g) ==> fresh(
                address(#[trigger] entry(m0, pdpt, g)),
                size,
                free0,
                f1,
            ) && address(entry(m0, pdpt, g)) != pdpt,
    ensures
        forall|i: int| 0 <= i < 512 ==> #[trigger] entry(m1, pml4, i) == entry(m0, pml4, i),
        forall|g: int| 0 <= g < gib ==> #[trigger] entry(m1, pdpt, g) == entry(m0, pdpt, g),
        forall|g: int| 0 <= g < gib ==> #[trigger] gib_map(m1, pdpt, *k, rs, g),
{
    assert forall|i: int| 0 <= i < 512 implies #[trigger] entry(m1, pml4, i) == entry(
        m0,
        pml4,
        i,
    ) by {
        lemma_entry_kept(m0, m1, page, pml4, i);
    }
    assert forall|g: int| 0 <= g < gib implies #[trigger] entry(m1, pdpt, g) == entry(m0, pdpt, g)
        && gib_map(m1, pdpt, *k, rs, g) by {
        if page != pdpt {
            lemma_entry_kept(m0, m1, page, pdpt, g);
        }
        assert(gib_map(m0, pdpt, *k, rs, g));
        if gib_has_user(rs, g) {
            let pd = address(entry(m0, pdpt, g));
            assert forall|i: int| 0 <= i < 512 implies #[trigger] entry(m1, pd, i) == entry(
                m0,
                pd,
                i,
            ) by {
                lemma_entry_kept(m0, m1, page, pd, i);
            }
        }
    }
}

/// The place of an address in the tables of the three upper levels.
pub open spec fn index4(va: u64) -> int {
    va as int / 0x80_0000_0000 % 512
}

pub open spec fn index3(va: u64) -> int {
    va as int / 0x4000_0000 % 512
}

pub open spec fn index2(va: u64) -> int {
    va as int / 0x20_0000 % 512
}

/// User code reaches `va` through the tables at `pml4`: every entry on the way
/// is present and open to user code.
pub open spec fn user_reaches(m: Seq<u8>, pml4: u64, va: u64) -> bool {
    let e4 = entry(m, pml4, index4(va));
    let e3 = entry(m, address(e4), index3(va));
    let e2 = entry(m, address(e3), index2(va));
    &&& is_present(e4) && is_user(e4)
    &&& is_present(e3) && is_user(e3)
    &&& is_present(e2) && is_user(e2)
}

/// A user task reaches exactly the 2 MiB pages of its own regions in the first
/// 4 GiB, and each of them at its own address.
pub proof fn law_user_reaches_its_regions(
    m: Seq<u8>,
    pml4: u64,
    kernel: Seq<u8>,
    k: KernelPages,
    free: Set<int>,
    regions: Seq<(u64, u64)>,
    va: u64,
)
    requires
        user_map(m, pml4, kernel, k, regions),
        va < 0x1_0000_0000_0000,
        k.wf(kernel, free),
        closed_to_users(kernel, k),
    ensures
        user_reaches(m, pml4, va) <==> va < 4 * ONE_GIB && in_regions(
            regions,
            va as int / TWO_MIB as int,
        ),
        user_reaches(m, pml4, va) ==> entry(
            m,
            address(entry(m, address(entry(m, pml4, index4(va))), index3(va))),
            index2(va),
        ) as int / TWO_MIB as int == va as int / TWO_MIB as int,
{
    let e4 = entry(m, pml4, index4(va));
    let pdpt = address(entry(m, pml4, 0));
    if index4(va) != 0 {
        assert(e4 == mirrored(entry(kernel, k.pml4, index4(va))));
        assert(va >= 4 * ONE_GIB);
    } else {
        let g = index3(va);
        assert(g == va as int / 0x4000_0000);
        lemma_address(pdpt);
        let e3 = entry(m, pdpt, g);
        if g >= 4 {
            assert(e3 == mirrored(
                entry(kernel, address(entry(kernel, k.pml4, 0)), g),
            ));
        } else {
            assert(gib_map(m, pdpt, k, regions, g));
            let slot = va as int / 0x20_0000;
            assert(slot == g * 512 + index2(va));
            if gib_has_user(regions, g) {
                let pd = address(e3);
                assert(pd % 4096 == 0 && pd < 0x10_0000_0000_0000);
                lemma_address(pd);
                assert(entry(m, pd, index2(va)) == identity_entry(slot, in_regions(regions, slot)));
                assert(identity_entry(slot, true) == slot * 0x20_0000 + 0x87);
                assert(identity_entry(slot, false) == slot * 0x20_0000 + 0x83);
            } else {
                assert(k.pd(g) % 4096 == 0);
                lemma_address(k.pd(g));
                if in_regions(regions, slot) {
                    assert(in_regions(regions, g * 512 + index2(va)));
                }
            }
        }
    }
}

/// The tables on the way to `addr`, as far as they exist, lie in memory, each
/// in a frame of its own that is not free.
pub open spec fn way_ok(m: Seq<u8>, pml4: u64, free: Set<int>, addr: u64) -> bool {
    let size = m.len() as int;
    let e4 = entry(m, pml4, index4(addr));
    let e3 = entry(m, address(e4), index3(addr));
    &&& is_present(e4) ==> {
        &&& table_in(address(e4), size)
        &&& !free.contains(address(e4) as int / 4096)
        &&& address(e4) != pml4
        &&& is_present(e3) ==> {
            &&& table_in(address(e3), size)
            &&& !free.contains(address(e3) as int / 4096)
            &&& address(e3) != pml4
            &&& address(e3) != address(e4)
        }
    }
}

/// No table on the way to `addr` is the one below the first entry of the top
/// table, unless the way leads through that entry.
pub open spec fn beside_identity(m: Seq<u8>, pml4: u64, addr: u64) -> bool {
    let first = address(entry(m, pml4, 0));
    let e4 = entry(m, pml4, index4(addr));
    let e3 = entry(m, address(e4), index3(addr));
    is_present(e4) ==> {
        &&& index4(addr) != 0 ==> address(e4) != first
        &&& is_present(e3) ==> address(e3) != first
    }
}

/// The GiB around `addr` is identity-mapped, closed to user code.
pub open spec fn window_mapped(m: Seq<u8>, pml4: u64, addr: u64) -> bool {
    let e4 = entry(m, pml4, index4(addr));
    let e3 = entry(m, address(e4), index3(addr));
    let base = addr as int / 0x4000_0000 * 0x4000_0000;
    &&& is_present(e4)
    &&& is_present(e3)
    &&& forall|i: int|
        0 <= i < 512 ==> #[trigger] entry(m, address(e3), i) == base + i * TWO_MIB + PRESENT
            + WRITABLE + HUGE_PAGE
}

/// Only the tables on the way to `addr` changed.
pub open spec fn only_way_changed(m0: Seq<u8>, m1: Seq<u8>, pml4: u64, addr: u64) -> bool {
    let pdpt = address(entry(m1, pml4, index4(addr)));
    let pd = address(entry(m1, pdpt, index3(addr)));
    &&& m1.len() == m0.len()
    &&& forall|i: int|
        0 <= i < m0.len() && !(pml4 <= i < pml4 + 4096) && !(pdpt <= i < pdpt + 4096) && !(pd <= i
            < pd + 4096) ==> #[trigger] m1[i] == m0[i]
}

/// The table that entry `idx` of `table` points to; a new one where there is
/// none.
fn resolve(m: &mut PhysMem, fa: &mut FrameAllocator, table: u64, idx: usize) -> (r: Option<u64>)
    requires
        old(fa).wf(),
        frames_in(old(fa)@, old(m)@.len() as int),
        old(m)@.len() <= 0x10_0000_0000_0000,
        table_in(table, old(m)@.len() as int),
        !old(fa)@.contains(table as int / 4096),
        idx < 512,
        is_present(entry(old(m)@, table, idx as int)) ==> table_in(
            address(entry(old(m)@, table, idx as int)),
            old(m)@.len() as int,
        ) && !old(fa)@.contains(address(entry(old(m)@, table, idx as int)) as int / 4096),
    ensures
        final(fa).wf(),
        match r {
            None => old(fa)@ == Set::<int>::empty() && final(fa)@ == old(fa)@ && final(m)@
                == old(m)@ && !is_present(entry(old(m)@, table, idx as int)),
            Some(t) => {
                let e = entry(old(m)@, table, idx as int);
                &&& final(m)@.len() == old(m)@.len()
                &&& forall|i: int|
                    0 <= i < old(m)@.len() && !(table <= i < table + 4096) && !(t <= i < t + 4096)
                        ==> #[trigger] final(m)@[i] == old(m)@[i]
                &&& t == address(entry(final(m)@, table, idx as int))
                &&& is_present(entry(final(m)@, table, idx as int))
                &&& if is_present(e) {
                    t == address(e) && final(m)@ == old(m)@ && final(fa)@ == old(fa)@
                } else {
                    &&& fresh(t, old(m)@.len() as int, old(fa)@, final(fa)@)
                    &&& final(fa)@ == old(fa)@.remove(t as int / 4096)
                    &&& entry(final(m)@, table, idx as int) == t + PRESENT + WRITABLE
                    &&& forall|i: int| 0 <= i < 512 ==> #[trigger] entry(final(m)@, t, i) == 0
                    &&& forall|u: u64, i: int|
                        table_in(u, old(m)@.len() as int) && u != t && 0 <= i < 512 && !(u == table
                            && i == idx) ==> #[trigger] entry(final(m)@, u, i) == entry(
                            old(m)@,
                            u,
                            i,
                        )
                }
            },
        },
{
    let e: u64 = read_entry(m, table, idx);
    if e % 2 == 1 {
        return Some(e % 0x10_0000_0000_0000 / 4096 * 4096);
    }
    let ghost m0 = m@;
    let t: u64 = match alloc_zeroed(m, fa) {
        None => {
            return None;
        },
        Some(t) => t,
    };
    let ghost m1 = m@;
    write_entry(m, table, idx, t + PRESENT + WRITABLE);
    proof {
        lemma_address(t);
        assert forall|i: int| 0 <= i < 512 implies #[trigger] entry(m@, t, i) == 0 by {
            lemma_entry_kept(m1, m@, table, t, i);
        }
        assert forall|u: u64, i: int|
            table_in(u, m0.len() as int) && u != t && 0 <= i < 512 && !(u == table && i
                == idx) implies #[trigger] entry(m@, u, i) == entry(m0, u, i) by {
            lemma_entry_kept(m0, m1, t, u, i);
            if u != table {
                lemma_entry_kept(m1, m@, table, u, i);
            }
        }
    }
    Some(t)
}

/// Identity-maps the GiB around `addr` for the kernel, for devices whose
/// registers lie above its 4 GiB. Returns whether there were frames enough.
pub fn map_mmio_1gib(m: &mut PhysMem, fa: &mut FrameAllocator, k: &KernelPages, addr: u64) -> (r:
    bool)
    requires
        old(fa).wf(),
        frames_in(old(fa)@, old(m)@.len() as int),
        old(m)@.len() <= 0x10_0000_0000_0000,
        table_in(k.pml4, old(m)@.len() as int),
        !old(fa)@.contains(k.pml4 as int / 4096),
        way_ok(old(m)@, k.pml4, old(fa)@, addr),
    ensures
        final(fa).wf(),
        final(fa)@.subset_of(old(fa)@),
        r ==> window_mapped(final(m)@, k.pml4, addr),
        r ==> forall|i: int|
            0 <= i < 512 && i != index4(addr) ==> #[trigger] entry(final(m)@, k.pml4, i) == entry(
                old(m)@,
                k.pml4,
                i,
            ),
        r ==> only_way_changed(old(m)@, final(m)@, k.pml4, addr),
        r && k.wf(old(m)@, old(fa)@) && closed_to_users(old(m)@, *k) && beside_identity(
            old(m)@,
            k.pml4,
            addr,
        ) ==> k.wf(final(m)@, final(fa)@) && closed_to_users(final(m)@, *k),
        !r ==> old(fa)@.finite() && old(fa)@.len() < 2,
{
    proof {
        frame_alloc::lemma_free_finite(*fa);
    }
    let ghost m0 = m@;
    let i4: usize = (addr / 0x80_0000_0000 % 512) as usize;
    let i3: usize = (addr / 0x4000_0000 % 512) as usize;
    let pdpt: u64 = match resolve(m, fa, k.pml4, i4) {
        None => {
            return false;
        },
        Some(t) => t,
    };
    let ghost m1 = m@;
    proof {
        if !is_present(entry(m0, k.pml4, i4 as int)) {
            assert(entry(m1, pdpt, i3 as int) == 0);
        }
    }
    let pd: u64 = match resolve(m, fa, pdpt, i3) {
        None => {
            return false;
        },
        Some(t) => t,
    };
    let ghost m2 = m@;
    let base: u64 = addr / 0x4000_0000 * 0x4000_0000;
    let mut idx: usize = 0;
    while idx < 512
        invariant
            idx <= 512,
            table_in(pd, m@.len() as int),
            only_page(m2, m@, pd),
            base <= addr,
            base % 0x4000_0000 == 0,
            forall|i: int|
                0 <= i < idx ==> #[trigger] entry(m@, pd, i) == base + i * TWO_MIB + PRESENT
                    + WRITABLE + HUGE_PAGE,
        decreases 512 - idx,
    {
        let phys: u64 = base + idx as u64 * TWO_MIB;
        write_entry(m, pd, idx, phys + PRESENT + WRITABLE + HUGE_PAGE);
        idx = idx + 1;
    }
    proof {
        assert(pd != k.pml4 && pd != pdpt);
        assert forall|i: int| 0 <= i < 512 implies #[trigger] entry(m@, k.pml4, i) == entry(
            m2,
            k.pml4,
            i,
        ) by {
            lemma_entry_kept(m2, m@, pd, k.pml4, i);
        }
        lemma_entry_kept(m2, m@, pd, pdpt, i3 as int);
        assert(entry(m2, k.pml4, i4 as int) == entry(m1, k.pml4, i4 as int));
        assert(address(entry(m@, k.pml4, i4 as int)) == pdpt);
        assert(address(entry(m@, pdpt, i3 as int)) == pd);
        let first = address(entry(m0, k.pml4, 0));
        if k.wf(m0, old(fa)@) && closed_to_users(m0, *k) && beside_identity(m0, k.pml4, addr) {
            lemma_address(pd);
            lemma_address(pdpt);
            assert(pd != first);
            assert(i4 != 0 ==> pdpt != first);
            assert forall|i: int| 0 <= i < 512 && i != i4 implies #[trigger] entry(m@, k.pml4, i)
                == entry(m0, k.pml4, i) by {
                assert(entry(m2, k.pml4, i) == entry(m1, k.pml4, i));
            }
            assert(address(entry(m@, k.pml4, 0)) == first);
            assert forall|i: int| 4 <= i < 512 implies !is_user(
                #[trigger] entry(m@, first, i),
            ) by {
                lemma_entry_kept(m2, m@, pd, first, i);
                assert(!is_user(entry(m0, first, i)));
            }
            assert forall|i: int| 1 <= i < 512 implies !is_user(
                #[trigger] entry(m@, k.pml4, i),
            ) by {
                assert(!is_user(entry(m0, k.pml4, i)));
                assert(entry(m2, k.pml4, i) == entry(m1, k.pml4, i));
            }
        }
    }
    true
}

/// Bit 0 of an entry says that it is present, bit 2 that it is open to user code, and
/// bits 12 to 51 are the address.
pub proof fn law_entry_bits(e: u64)
    ensures
        is_present(e) <==> e & 1 == 1,
        is_user(e) <==> e & 4 == 4,
        address(e) == e & 0x000F_FFFF_FFFF_F000,
{
    assert((e % 2 == 1) == (e & 1 == 1)) by (bit_vector);
    assert((e / 4 % 2 == 1) == (e & 4 == 4)) by (bit_vector);
    assert(e % 0x10_0000_0000_0000 / 4096 * 4096 == e & 0x000F_FFFF_FFFF_F000) by (bit_vector);
}

/// A 2 MiB page belongs to a task exactly where one of its regions has a byte in it.
pub proof fn law_region_pages(regions: Seq<(u64, u64)>, slot: int)
    ensures
        in_regions(regions, slot) <==> exists|r: int, x: int|
            0 <= r < regions.len() && #[trigger] in_stretch(regions[r], x) && x / 0x20_0000 == slot,
{
    if in_regions(regions, slot) {
        let r = choose|r: int| 0 <= r < regions.len() && #[trigger] in_region(regions[r], slot);
        let (a, n) = (regions[r].0 as int, regions[r].1 as int);
        let x = if a / 0x20_0000 == slot {
            a
        } else {
            slot * 0x20_0000
        };
        assert(x / 0x20_0000 == slot);
        assert(in_stretch(regions[r], x));
    }
    if exists|r: int, x: int|
        0 <= r < regions.len() && #[trigger] in_stretch(regions[r], x) && x / 0x20_0000 == slot {
        let (r, x) = choose|r: int, x: int|
            0 <= r < regions.len() && #[trigger] in_stretch(regions[r], x) && x / 0x20_0000 == slot;
        assert(in_region(regions[r], slot));
    }
}

/// The byte at `x` lies in the region.
pub open spec fn in_stretch(region: (u64, u64), x: int) -> bool {
    region.0 <= x < region.0 + region.1
}

/// The identity map leads each of the first four GiB to itself, in writable pages of
/// 2 MiB, and none of them is open to user code in the kernel's own tables.
pub proof fn law_kernel_map(m: Seq<u8>, k: KernelPages, free: Set<int>, va: u64)
    requires
        kernel_map(m, k),
        k.wf(m, free),
        va < 0x1_0000_0000,
    ensures
        ({
            let e4 = entry(m, k.pml4, index4(va));
            let e3 = entry(m, address(e4), index3(va));
            let e2 = entry(m, address(e3), index2(va));
            &&& e4 % 4 == 3 && e3 % 4 == 3
            &&& e2 == va as int / 0x20_0000 * 0x20_0000 + 0x83
            &&& !user_reaches(m, k.pml4, va)
        }),
{
    let g = index3(va);
    let pdpt = address(entry(m, k.pml4, 0));
    assert(index4(va) == 0);
    assert(g == va as int / 0x4000_0000);
    assert(entry(m, pdpt, g) == k.pd(g) + PRESENT + WRITABLE);
    assert(k.pd(g) % 4096 == 0);
    lemma_address(k.pd(g));
    let slot = va as int / 0x20_0000;
    assert(slot == g * 512 + index2(va));
    assert(entry(m, k.pd(g), index2(va)) == identity_entry(slot, false));
    assert(identity_entry(slot, false) == slot * 0x20_0000 + 0x83);
}

/// A device's GiB is mapped to itself, in pages of 2 MiB that user code cannot reach.
pub proof fn law_device_window(m: Seq<u8>, pml4: u64, addr: u64, va: u64)
    requires
        window_mapped(m, pml4, addr),
        addr as int / 0x4000_0000 == va as int / 0x4000_0000,
        va < 0x1_0000_0000_0000,
    ensures
        ({
            let e2 = entry(
                m,
                address(entry(m, address(entry(m, pml4, index4(va))), index3(va))),
                index2(va),
            );
            &&& e2 == va as int / 0x20_0000 * 0x20_0000 + 0x83
            &&& !user_reaches(m, pml4, va)
        }),
{
    assert(index4(va) == index4(addr)) by {
        assert(va as int / 0x80_0000_0000 == (va as int / 0x4000_0000) / 512);
        assert(addr as int / 0x80_0000_0000 == (addr as int / 0x4000_0000) / 512);
    }
    assert(index3(va) == index3(addr));
    let base = addr as int / 0x4000_0000 * 0x4000_0000;
    let i = index2(va);
    assert(base + i * 0x20_0000 == va as int / 0x20_0000 * 0x20_0000) by {
        assert(va as int / 0x20_0000 == va as int / 0x4000_0000 * 512 + i);
    }
}

} // verus!
