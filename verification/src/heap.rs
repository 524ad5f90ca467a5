//! The kernel heap: a list of free blocks in the order of their addresses.
//!
//! A request takes the first block that is large enough, and what is freed is
//! joined with the blocks next to it.
use vstd::prelude::*;

use crate::frame_alloc;
use crate::frame_alloc::FrameAllocator;

verus! {

pub const HEAP_SIZE: u64 = 0x10_0000;

pub const HEAP_PAGES: usize = 256;

/// The smallest block.
pub const MIN_BLOCK: u64 = 32;

pub const BLOCK_ALIGN: u64 = 16;

#[derive(Clone, Copy, Debug, PartialEq, Eq, Structural)]
pub struct Block {
    pub addr: u64,
    pub size: u64,
}

impl Block {
    pub open spec fn end(self) -> int {
        self.addr + self.size
    }

    /// The byte at `x` lies in the block.
    pub open spec fn covers(self, x: int) -> bool {
        self.addr <= x < self.end()
    }
}

/// The bytes in the first `n` blocks.
pub open spec fn total_size(blocks: Seq<Block>, n: int) -> int
    decreases n,
{
    if n <= 0 {
        0
    } else {
        total_size(blocks, n - 1) + blocks[n - 1].size
    }
}

/// The byte at `x` is free.
pub open spec fn is_free(blocks: Seq<Block>, x: int) -> bool {
    exists|i: int| 0 <= i < blocks.len() && #[trigger] blocks[i].covers(x)
}

/// How much a request for `size` bytes takes.
pub open spec fn rounded(size: u64) -> int {
    let n = if size < MIN_BLOCK {
        MIN_BLOCK as int
    } else {
        size as int
    };
    (n + 15) / 16 * 16
}

pub struct Heap {
    blocks: Vec<Block>,
    base: u64,
    total: u64,
    used: u64,
}

/// A block that the heap may hold.
pub open spec fn block_ok(b: Block, base: int, total: int) -> bool {
    &&& base <= b.addr
    &&& b.end() <= base + total
    &&& b.size >= MIN_BLOCK
    &&& b.size % 16 == 0
    &&& b.addr % 16 == 0
}

/// In order, and with something between any two.
pub open spec fn separate(blocks: Seq<Block>) -> bool {
    forall|i: int, j: int|
        0 <= i < j < blocks.len() ==> (#[trigger] blocks[i]).end() < (#[trigger] blocks[j]).addr
}

/// The first block from `from` on with at least `n` bytes.
pub open spec fn first_fit(blocks: Seq<Block>, n: int, from: int) -> Option<int>
    decreases blocks.len() - from,
{
    if from >= blocks.len() {
        None
    } else if blocks[from].size >= n {
        Some(from)
    } else {
        first_fit(blocks, n, from + 1)
    }
}

/// The blocks once `n` bytes were taken from the start of block `i`. A rest too
/// small for a block goes with them.
pub open spec fn carved(blocks: Seq<Block>, i: int, n: int) -> Seq<Block> {
    let b = blocks[i];
    if b.size - n >= MIN_BLOCK {
        blocks.update(i, Block { addr: (b.addr + n) as u64, size: (b.size - n) as u64 })
    } else {
        blocks.remove(i)
    }
}

proof fn lemma_total_update(a: Seq<Block>, i: int, b: Block, n: int)
    requires
        0 <= i < a.len(),
        n <= a.len(),
    ensures
        total_size(a.update(i, b), n) == total_size(a, n) + if i < n {
            b.size - a[i].size
        } else {
            0
        },
    decreases n,
{
    if n > 0 {
        lemma_total_update(a, i, b, n - 1);
    }
}

proof fn lemma_total_remove(a: Seq<Block>, i: int, n: int)
    requires
        0 <= i < a.len(),
        0 <= n <= a.len() - 1,
    ensures
        total_size(a.remove(i), n) == if n <= i {
            total_size(a, n)
        } else {
            total_size(a, n + 1) - a[i].size
        },
    decreases n,
{
    if n > 0 {
        lemma_total_remove(a, i, n - 1);
        assert(a.remove(i)[n - 1] == if n - 1 < i {
            a[n - 1]
        } else {
            a[n]
        });
        assert(total_size(a, n + 1) == total_size(a, n) + a[n].size);
        assert(total_size(a, n) == total_size(a, n - 1) + a[n - 1].size);
    }
}

proof fn lemma_total_insert(a: Seq<Block>, i: int, b: Block, n: int)
    requires
        0 <= i <= a.len(),
        0 <= n <= a.len() + 1,
    ensures
        total_size(a.insert(i, b), n) == if n <= i {
            total_size(a, n)
        } else {
            total_size(a, n - 1) + b.size
        },
    decreases n,
{
    if n > 0 {
        lemma_total_insert(a, i, b, n - 1);
    }
}

proof fn lemma_total_member(a: Seq<Block>, i: int, n: int)
    requires
        0 <= i < n <= a.len(),
    ensures
        a[i].size <= total_size(a, n),
        0 <= total_size(a, n),
    decreases n,
{
    lemma_total_positive(a, n - 1);
    if i < n - 1 {
        lemma_total_member(a, i, n - 1);
    }
}

proof fn lemma_total_positive(a: Seq<Block>, n: int)
    requires
        n <= a.len(),
    ensures
        0 <= total_size(a, n),
    decreases n,
{
    if n > 0 {
        lemma_total_positive(a, n - 1);
    }
}

impl Heap {
    /// The free blocks.
    pub closed spec fn view(&self) -> Seq<Block> {
        self.blocks@
    }

    pub closed spec fn spec_base(&self) -> u64 {
        self.base
    }

    pub closed spec fn spec_total(&self) -> u64 {
        self.total
    }

    pub closed spec fn spec_used(&self) -> u64 {
        self.used
    }

    pub open spec fn wf(&self) -> bool {
        &&& self.spec_base() + self.spec_total() <= u64::MAX
        &&& separate(self@)
        &&& forall|i: int|
            0 <= i < self@.len() ==> block_ok(
                #[trigger] self@[i],
                self.spec_base() as int,
                self.spec_total() as int,
            )
        &&& total_size(self@, self@.len() as int) + self.spec_used() <= self.spec_total()
    }

    /// How many bytes are allocated.
    pub fn used(&self) -> (n: u64)
        ensures
            n == self.spec_used(),
    {
        self.used
    }

    /// How many bytes the heap has.
    pub fn total(&self) -> (n: u64)
        ensures
            n == self.spec_total(),
    {
        self.total
    }

    /// Takes `size` bytes from the first block that has them.
    pub fn allocate(&mut self, size: u64) -> (r: Option<u64>)
        requires
            old(self).wf(),
            size <= u64::MAX - 15,
        ensures
            final(self).wf(),
            final(self).spec_base() == old(self).spec_base(),
            final(self).spec_total() == old(self).spec_total(),
            match first_fit(old(self)@, rounded(size), 0) {
                Some(i) => {
                    &&& 0 <= i < old(self)@.len()
                    &&& r == Some(old(self)@[i].addr)
                    &&& old(self)@[i].size >= rounded(size)
                    &&& final(self)@ == carved(old(self)@, i, rounded(size))
                    &&& final(self).spec_used() == old(self).spec_used() + rounded(size)
                },
                None => {
                    &&& r is None
                    &&& final(self)@ == old(self)@
                    &&& final(self).spec_used() == old(self).spec_used()
                    &&& forall|i: int|
                        0 <= i < old(self)@.len() ==> (#[trigger] old(self)@[i]).size < rounded(
                            size,
                        )
                },
            },
    {
        let n: u64 = align_up(if size < MIN_BLOCK {
            MIN_BLOCK
        } else {
            size
        });
        let mut i: usize = 0;
        while i < self.blocks.len() && self.blocks[i].size < n
            invariant
                i <= self.blocks@.len(),
                *self == *old(self),
                first_fit(self@, n as int, 0) == first_fit(self@, n as int, i as int),
                forall|j: int| 0 <= j < i ==> (#[trigger] self@[j]).size < n,
            decreases self.blocks@.len() - i,
        {
            i = i + 1;
        }
        if i >= self.blocks.len() {
            return None;
        }
        let b: Block = self.blocks[i];
        let ghost bs = self@;
        proof {
            assert(block_ok(bs[i as int], self.base as int, self.total as int));
            lemma_total_member(bs, i as int, bs.len() as int);
        }
        if b.size - n >= MIN_BLOCK {
            let rest: Block = Block { addr: b.addr + n, size: b.size - n };
            self.blocks[i] = rest;
            proof {
                lemma_total_update(bs, i as int, rest, bs.len() as int);
                assert(self@ == carved(bs, i as int, n as int));
                assert forall|j: int| 0 <= j < self@.len() implies block_ok(
                    #[trigger] self@[j],
                    self.base as int,
                    self.total as int,
                ) by {
                    assert(block_ok(bs[j], self.base as int, self.total as int));
                }
                assert forall|j: int, l: int| 0 <= j < l < self@.len() implies (
                #[trigger] self@[j]).end() < (#[trigger] self@[l]).addr by {
                    assert(bs[j].end() < bs[l].addr);
                }
            }
        } else {
            let _ = self.blocks.remove(i);
            proof {
                lemma_total_remove(bs, i as int, bs.len() - 1);
                assert(self@ == carved(bs, i as int, n as int));
                assert forall|j: int| 0 <= j < self@.len() implies block_ok(
                    #[trigger] self@[j],
                    self.base as int,
                    self.total as int,
                ) by {
                    if j < i {
                        assert(self@[j] == bs[j]);
                    } else {
                        assert(self@[j] == bs[j + 1]);
                    }
                }
                assert forall|j: int, l: int| 0 <= j < l < self@.len() implies (
                #[trigger] self@[j]).end() < (#[trigger] self@[l]).addr by {
                    let a = if j < i {
                        j
                    } else {
                        j + 1
                    };
                    let c = if l < i {
                        l
                    } else {
                        l + 1
                    };
                    assert(self@[j] == bs[a] && self@[l] == bs[c]);
                    assert(bs[a].end() < bs[c].addr);
                }
            }
        }
        self.used = self.used + n;
        Some(b.addr)
    }
}

fn align_up(val: u64) -> (r: u64)
    requires
        val <= u64::MAX - 15,
    ensures
        r == (val + 15) / 16 * 16,
{
    (val + 15) / BLOCK_ALIGN * BLOCK_ALIGN
}

/// How many of the blocks begin before `addr`.
pub open spec fn before(blocks: Seq<Block>, addr: int, n: int) -> int
    decreases n,
{
    if n <= 0 {
        0
    } else if blocks[n - 1].addr < addr {
        n
    } else {
        before(blocks, addr, n - 1)
    }
}

/// The blocks with `b` among them, in its place `p`, joined with the blocks
/// that it touches.
pub open spec fn joined(blocks: Seq<Block>, p: int, b: Block) -> Seq<Block> {
    let after = p < blocks.len() && b.end() == blocks[p].addr;
    let prior = p > 0 && blocks[p - 1].end() == b.addr;
    let first = if prior {
        blocks[p - 1].addr
    } else {
        b.addr
    };
    let size = b.size + (if prior {
        blocks[p - 1].size as int
    } else {
        0
    }) + (if after {
        blocks[p].size as int
    } else {
        0
    });
    blocks.take(
        if prior {
            p - 1
        } else {
            p
        },
    ).push(Block { addr: first, size: size as u64 }) + blocks.skip(
        if after {
            p + 1
        } else {
            p
        },
    )
}

/// A block that lies in the heap and touches no free byte.
pub open spec fn allocated(h: Heap, addr: u64, n: int) -> bool {
    &&& addr % 16 == 0
    &&& h.spec_base() <= addr
    &&& addr + n <= h.spec_base() + h.spec_total()
    &&& n <= h.spec_used()
    &&& forall|i: int|
        0 <= i < h@.len() ==> (#[trigger] h@[i]).end() <= addr || addr + n <= h@[i].addr
}

proof fn lemma_before(blocks: Seq<Block>, addr: int, n: int)
    requires
        0 <= n <= blocks.len(),
        separate(blocks),
        forall|i: int| 0 <= i < n ==> 0 < (#[trigger] blocks[i]).size,
    ensures
        0 <= before(blocks, addr, n) <= n,
        forall|i: int| 0 <= i < before(blocks, addr, n) ==> (#[trigger] blocks[i]).addr < addr,
        forall|i: int| before(blocks, addr, n) <= i < n ==> addr <= (#[trigger] blocks[i]).addr,
    decreases n,
{
    if n > 0 {
        if blocks[n - 1].addr < addr {
            assert forall|i: int| 0 <= i < n implies (#[trigger] blocks[i]).addr < addr by {
                if i < n - 1 {
                    assert(blocks[i].end() < blocks[n - 1].addr);
                }
            }
        } else {
            lemma_before(blocks, addr, n - 1);
        }
    }
}

impl Heap {
    /// Gives back `size` bytes at `addr`.
    pub fn deallocate(&mut self, addr: u64, size: u64)
        requires
            old(self).wf(),
            size <= u64::MAX - 15,
            allocated(*old(self), addr, rounded(size)),
        ensures
            final(self).wf(),
            final(self).spec_base() == old(self).spec_base(),
            final(self).spec_total() == old(self).spec_total(),
            final(self).spec_used() == old(self).spec_used() - rounded(size),
            final(self)@ == joined(
                old(self)@,
                before(old(self)@, addr as int, old(self)@.len() as int),
                Block { addr, size: rounded(size) as u64 },
            ),
    {
        let n: u64 = align_up(if size < MIN_BLOCK {
            MIN_BLOCK
        } else {
            size
        });
        let ghost bs = self@;
        let ghost (base, total) = (self.base as int, self.total as int);
        proof {
            assert forall|i: int| 0 <= i < bs.len() implies 0 < (#[trigger] bs[i]).size by {
                assert(block_ok(bs[i], base, total));
            }
            lemma_before(bs, addr as int, bs.len() as int);
        }
        let mut p: usize = self.blocks.len();
        while p > 0 && self.blocks[p - 1].addr >= addr
            invariant
                p <= self.blocks@.len(),
                *self == *old(self),
                before(self@, addr as int, self@.len() as int) == before(
                    self@,
                    addr as int,
                    p as int,
                ),
            decreases p,
        {
            p = p - 1;
        }
        assert(p == before(bs, addr as int, bs.len() as int));
        let mut b: Block = Block { addr, size: n };
        proof {
            if p < bs.len() {
                assert(bs[p as int].end() <= addr || addr + n <= bs[p as int].addr);
                assert(block_ok(bs[p as int], base, total));
            }
            if p > 0 {
                assert(bs[p - 1].end() <= addr || addr + n <= bs[p - 1].addr);
                assert(block_ok(bs[p - 1], base, total));
            }
        }
        if p < self.blocks.len() && b.addr + b.size == self.blocks[p].addr {
            b.size = b.size + self.blocks[p].size;
            let _ = self.blocks.remove(p);
        }
        if p > 0 && self.blocks[p - 1].addr + self.blocks[p - 1].size == b.addr {
            let prior: Block = self.blocks[p - 1];
            self.blocks[p - 1] = Block { addr: prior.addr, size: prior.size + b.size };
        } else {
            self.blocks.insert(p, b);
        }
        self.used = self.used.saturating_sub(n);
        proof {
            let freed = Block { addr, size: n };
            assert(self@ =~= joined(bs, p as int, freed));
            lemma_joined_separate(bs, p as int, freed, base, total);
            lemma_joined_total(bs, p as int, freed, base, total);
        }
    }
}

spec fn touches_after(bs: Seq<Block>, p: int, b: Block) -> bool {
    p < bs.len() && b.end() == bs[p].addr
}

spec fn touches_prior(bs: Seq<Block>, p: int, b: Block) -> bool {
    p > 0 && bs[p - 1].end() == b.addr
}

/// Where the joined block is.
spec fn left(bs: Seq<Block>, p: int, b: Block) -> int {
    if touches_prior(bs, p, b) {
        p - 1
    } else {
        p
    }
}

/// The place in `bs` of the first block after the joined one.
spec fn right(bs: Seq<Block>, p: int, b: Block) -> int {
    if touches_after(bs, p, b) {
        p + 1
    } else {
        p
    }
}

proof fn lemma_joined_at(bs: Seq<Block>, p: int, b: Block, base: int, total: int)
    requires
        0 <= p <= bs.len(),
        separate(bs),
        base + total <= u64::MAX,
        forall|i: int| 0 <= i < bs.len() ==> block_ok(#[trigger] bs[i], base, total),
        block_ok(b, base, total),
        forall|i: int| 0 <= i < p ==> (#[trigger] bs[i]).end() <= b.addr,
        forall|i: int| p <= i < bs.len() ==> b.end() <= (#[trigger] bs[i]).addr,
    ensures
        ({
            let r = joined(bs, p, b);
            let (l, t) = (left(bs, p, b), right(bs, p, b));
            &&& r.len() == l + 1 + bs.len() - t
            &&& forall|i: int| 0 <= i < l ==> #[trigger] r[i] == bs[i]
            &&& forall|i: int| l < i < r.len() ==> #[trigger] r[i] == bs[i - l - 1 + t]
            &&& r[l].addr == if touches_prior(bs, p, b) {
                bs[p - 1].addr
            } else {
                b.addr
            }
            &&& r[l].end() == if touches_after(bs, p, b) {
                bs[p].end()
            } else {
                b.end()
            }
            &&& block_ok(r[l], base, total)
        }),
{
    if p > 0 {
        assert(block_ok(bs[p - 1], base, total));
    }
    if p < bs.len() {
        assert(block_ok(bs[p], base, total));
    }
    if p > 0 && p < bs.len() {
        assert(bs[p - 1].end() < bs[p].addr);
    }
}

/// Joining keeps the blocks apart.
proof fn lemma_joined_separate(bs: Seq<Block>, p: int, b: Block, base: int, total: int)
    requires
        0 <= p <= bs.len(),
        separate(bs),
        base + total <= u64::MAX,
        forall|i: int| 0 <= i < bs.len() ==> block_ok(#[trigger] bs[i], base, total),
        block_ok(b, base, total),
        forall|i: int| 0 <= i < p ==> (#[trigger] bs[i]).end() <= b.addr,
        forall|i: int| p <= i < bs.len() ==> b.end() <= (#[trigger] bs[i]).addr,
    ensures
        separate(joined(bs, p, b)),
        forall|i: int|
            0 <= i < joined(bs, p, b).len() ==> block_ok(#[trigger] joined(bs, p, b)[i], base, total),
{
    lemma_joined_at(bs, p, b, base, total);
    let r = joined(bs, p, b);
    let (l, t) = (left(bs, p, b), right(bs, p, b));
    assert forall|i: int| 0 <= i < r.len() implies block_ok(#[trigger] r[i], base, total) by {
        if i < l {
            assert(r[i] == bs[i]);
        } else if i > l {
            assert(r[i] == bs[i - l - 1 + t]);
        }
    }
    assert forall|i: int| 0 <= i < l implies (#[trigger] r[i]).end() < r[l].addr by {
        assert(r[i] == bs[i]);
        if i < p - 1 {
            assert(bs[i].end() < bs[p - 1].addr);
            assert(block_ok(bs[p - 1], base, total));
            assert(bs[p - 1].end() <= b.addr);
        } else {
            assert(bs[i].end() <= b.addr);
        }
    }
    assert forall|j: int| l < j < r.len() implies r[l].end() < (#[trigger] r[j]).addr by {
        let o = j - l - 1 + t;
        assert(r[j] == bs[o]);
        if o > p {
            assert(bs[p].end() < bs[o].addr);
            assert(block_ok(bs[p], base, total));
            assert(b.end() <= bs[p].addr);
        } else {
            assert(b.end() <= bs[o].addr);
        }
    }
    assert forall|i: int, j: int| 0 <= i < j < r.len() implies (#[trigger] r[i]).end() < (
    #[trigger] r[j]).addr by {
        if j < l {
            assert(r[i] == bs[i] && r[j] == bs[j]);
        } else if i > l {
            assert(r[i] == bs[i - l - 1 + t] && r[j] == bs[j - l - 1 + t]);
        } else if i < l && j > l {
            assert(r[i].end() < r[l].addr);
            assert(r[l].end() < r[j].addr);
            assert(block_ok(r[l], base, total));
        }
    }
}

/// Joining frees exactly the bytes of `b`.
proof fn lemma_joined_free(bs: Seq<Block>, p: int, b: Block, base: int, total: int, x: int)
    requires
        0 <= p <= bs.len(),
        separate(bs),
        base + total <= u64::MAX,
        forall|i: int| 0 <= i < bs.len() ==> block_ok(#[trigger] bs[i], base, total),
        block_ok(b, base, total),
        forall|i: int| 0 <= i < p ==> (#[trigger] bs[i]).end() <= b.addr,
        forall|i: int| p <= i < bs.len() ==> b.end() <= (#[trigger] bs[i]).addr,
    ensures
        is_free(joined(bs, p, b), x) <==> is_free(bs, x) || b.covers(x),
{
    lemma_joined_at(bs, p, b, base, total);
    let r = joined(bs, p, b);
    let (l, t) = (left(bs, p, b), right(bs, p, b));
    if p > 0 {
        assert(block_ok(bs[p - 1], base, total));
    }
    if p < bs.len() {
        assert(block_ok(bs[p], base, total));
    }
    if is_free(r, x) {
        let i = choose|i: int| 0 <= i < r.len() && #[trigger] r[i].covers(x);
        if i < l {
            assert(bs[i].covers(x));
        } else if i > l {
            assert(bs[i - l - 1 + t].covers(x));
        } else if touches_prior(bs, p, b) && x < b.addr {
            assert(bs[p - 1].covers(x));
        } else if touches_after(bs, p, b) && x >= b.end() {
            assert(bs[p].covers(x));
        }
    }
    if b.covers(x) {
        assert(r[l].covers(x));
    }
    if is_free(bs, x) {
        let i = choose|i: int| 0 <= i < bs.len() && #[trigger] bs[i].covers(x);
        if i < l {
            assert(r[i].covers(x));
        } else if i >= t {
            assert(r[i - t + l + 1] == bs[i]);
            assert(r[i - t + l + 1].covers(x));
        } else {
            assert(r[l].covers(x));
        }
    }
}

/// Joining adds the size of `b`.
proof fn lemma_joined_total(bs: Seq<Block>, p: int, b: Block, base: int, total: int)
    requires
        0 <= p <= bs.len(),
        separate(bs),
        base + total <= u64::MAX,
        forall|i: int| 0 <= i < bs.len() ==> block_ok(#[trigger] bs[i], base, total),
        block_ok(b, base, total),
        forall|i: int| 0 <= i < p ==> (#[trigger] bs[i]).end() <= b.addr,
        forall|i: int| p <= i < bs.len() ==> b.end() <= (#[trigger] bs[i]).addr,
    ensures
        total_size(joined(bs, p, b), joined(bs, p, b).len() as int) == total_size(
            bs,
            bs.len() as int,
        ) + b.size,
{
    lemma_joined_at(bs, p, b, base, total);
    let r = joined(bs, p, b);
    let l = left(bs, p, b);
    let mid = if touches_after(bs, p, b) {
        bs.remove(p)
    } else {
        bs
    };
    if touches_after(bs, p, b) {
        lemma_total_remove(bs, p, bs.len() - 1);
    }
    if touches_prior(bs, p, b) {
        assert(r =~= mid.update(l, r[l]));
        lemma_total_update(mid, l, r[l], mid.len() as int);
    } else {
        assert(r =~= mid.insert(p, r[l]));
        lemma_total_insert(mid, p, r[l], mid.len() as int + 1);
    }
}

/// Allocating from block `i` takes exactly the bytes handed out, and the rest
/// too small for a block.
proof fn lemma_carved(bs: Seq<Block>, i: int, n: int)
    requires
        0 <= i < bs.len(),
        separate(bs),
        0 < n <= bs[i].size,
        bs[i].end() <= u64::MAX,
    ensures
        ({
            let gone = if bs[i].size - n >= MIN_BLOCK {
                n
            } else {
                bs[i].size as int
            };
            forall|x: int| #[trigger]
                is_free(carved(bs, i, n), x) <==> is_free(bs, x) && !(bs[i].addr <= x < bs[i].addr
                    + gone)
        }),
{
    let r = carved(bs, i, n);
    let split = bs[i].size - n >= MIN_BLOCK;
    let gone = if split {
        n
    } else {
        bs[i].size as int
    };
    assert forall|x: int| #[trigger]
        is_free(r, x) <==> is_free(bs, x) && !(bs[i].addr <= x < bs[i].addr + gone) by {
        if is_free(r, x) {
            let j = choose|j: int| 0 <= j < r.len() && #[trigger] r[j].covers(x);
            let o = if split || j < i {
                j
            } else {
                j + 1
            };
            if o != i {
                assert(bs[o].covers(x));
                if o < i {
                    assert(bs[o].end() < bs[i].addr);
                } else {
                    assert(bs[i].end() < bs[o].addr);
                }
            } else {
                assert(bs[i].covers(x));
            }
        }
        if is_free(bs, x) && !(bs[i].addr <= x < bs[i].addr + gone) {
            let o = choose|o: int| 0 <= o < bs.len() && #[trigger] bs[o].covers(x);
            let j = if split || o < i {
                o
            } else {
                o - 1
            };
            assert(r[j].covers(x));
        }
    }
}

/// Memory handed out was free before, and none of it is free after: two live
/// allocations never overlap.
pub proof fn law_allocation_is_exclusive(h: Heap, size: u64, i: int, x: int)
    requires
        h.wf(),
        first_fit(h@, rounded(size), 0) == Some(i),
        0 <= i < h@.len(),
        h@[i].size >= rounded(size),
        h@[i].addr <= x < h@[i].addr + rounded(size),
    ensures
        is_free(h@, x),
        !is_free(carved(h@, i, rounded(size)), x),
{
    assert(block_ok(h@[i], h.spec_base() as int, h.spec_total() as int));
    assert(h@[i].covers(x));
    lemma_carved(h@, i, rounded(size));
}

/// Giving back what was just handed out makes the same bytes free again as
/// before, unless a rest too small for a block went with it.
pub proof fn law_deallocate_undoes_allocate(h: Heap, size: u64, i: int, x: int)
    requires
        h.wf(),
        0 <= i < h@.len(),
        h@[i].size == rounded(size) || h@[i].size >= rounded(size) + MIN_BLOCK,
    ensures
        ({
            let n = rounded(size);
            let after = carved(h@, i, n);
            let b = Block { addr: h@[i].addr, size: n as u64 };
            is_free(joined(after, before(after, b.addr as int, after.len() as int), b), x)
                == is_free(h@, x)
        }),
{
    let n = rounded(size);
    let bs = h@;
    let (base, total) = (h.spec_base() as int, h.spec_total() as int);
    let r = carved(bs, i, n);
    let b = Block { addr: bs[i].addr, size: n as u64 };
    let split = bs[i].size - n >= MIN_BLOCK;
    assert(block_ok(bs[i], base, total));
    lemma_carved(bs, i, n);
    assert forall|j: int| 0 <= j < r.len() implies block_ok(#[trigger] r[j], base, total) by {
        let o = if split || j < i {
            j
        } else {
            j + 1
        };
        assert(block_ok(bs[o], base, total));
    }
    assert forall|j: int, l: int| 0 <= j < l < r.len() implies (#[trigger] r[j]).end() < (
    #[trigger] r[l]).addr by {
        let oj = if split || j < i {
            j
        } else {
            j + 1
        };
        let ol = if split || l < i {
            l
        } else {
            l + 1
        };
        assert(bs[oj].end() < bs[ol].addr);
    }
    lemma_before(r, b.addr as int, r.len() as int);
    let p = before(r, b.addr as int, r.len() as int);
    assert forall|j: int| 0 <= j < p implies (#[trigger] r[j]).end() <= b.addr by {
        let o = if split || j < i {
            j
        } else {
            j + 1
        };
        if o < i {
            assert(bs[o].end() < bs[i].addr);
        } else if o > i {
            assert(bs[i].end() < bs[o].addr);
        }
    }
    assert forall|j: int| p <= j < r.len() implies b.end() <= (#[trigger] r[j]).addr by {
        let o = if split || j < i {
            j
        } else {
            j + 1
        };
        if o < i {
            assert(bs[o].end() < bs[i].addr);
        } else if o > i {
            assert(bs[i].end() < bs[o].addr);
        }
    }
    lemma_joined_free(r, p, b, base, total, x);
    assert(is_free(joined(r, p, b), x) <==> is_free(r, x) || b.covers(x));
    assert(is_free(r, x) <==> is_free(bs, x) && !(bs[i].addr <= x < bs[i].addr + n));
    if b.covers(x) {
        assert(bs[i].covers(x));
    }
}

/// Takes the heap's memory from the frames, as low as it can be had; none where
/// they run out.
pub fn init(fa: &mut FrameAllocator) -> (r: Option<Heap>)
    requires
        old(fa).wf(),
    ensures
        final(fa).wf(),
        match r {
            Some(h) => {
                let s = h.spec_base() as int / 4096;
                &&& h.wf()
                &&& h.spec_total() == HEAP_SIZE
                &&& h.spec_used() == 0
                &&& h@ == seq![Block { addr: h.spec_base(), size: HEAP_SIZE }]
                &&& h.spec_base() % 4096 == 0
                &&& frame_alloc::run(s, HEAP_PAGES as int).subset_of(old(fa)@)
                &&& forall|t: int|
                    0 <= t < s ==> !#[trigger] frame_alloc::run(t, HEAP_PAGES as int).subset_of(
                        old(fa)@,
                    )
                &&& final(fa)@ == old(fa)@.difference(frame_alloc::run(s, HEAP_PAGES as int))
                &&& final(fa).count() == old(fa).count() - HEAP_PAGES
                &&& final(fa).spec_hint() == old(fa).spec_hint()
            },
            None => {
                &&& *final(fa) == *old(fa)
                &&& forall|t: int|
                    !#[trigger] frame_alloc::run(t, HEAP_PAGES as int).subset_of(old(fa)@)
            },
        },
{
    let ghost fa0 = *fa;
    match frame_alloc::allocate_contiguous(fa, HEAP_PAGES) {
        None => None,
        Some(base) => {
            proof {
                let s = base as int / 4096;
                assert(frame_alloc::run(s, HEAP_PAGES as int).contains(s));
                frame_alloc::law_free_frames_in_range(fa0, s);
            }
            let mut blocks: Vec<Block> = Vec::new();
            blocks.push(Block { addr: base, size: HEAP_SIZE });
            let h: Heap = Heap { blocks, base, total: HEAP_SIZE, used: 0 };
            assert(h@ =~= seq![Block { addr: base, size: HEAP_SIZE }]);
            assert(total_size(h@, 1) == HEAP_SIZE) by {
                reveal_with_fuel(total_size, 2);
            }
            Some(h)
        },
    }
}

/// A request takes at least what it asks for and at least 32 bytes, in steps of 16,
/// and less than 16 bytes more than that.
pub proof fn law_request_size(size: u64)
    ensures
        rounded(size) >= size,
        rounded(size) >= 32,
        rounded(size) % 16 == 0,
        size > 32 ==> rounded(size) < size + 16,
        size <= 32 ==> rounded(size) == 32,
{
}

/// A request is met from the first block that is large enough, and refused exactly
/// where none is.
pub proof fn law_first_fit(blocks: Seq<Block>, n: int, from: int)
    requires
        0 <= from <= blocks.len(),
    ensures
        first_fit(blocks, n, from) matches Some(i) ==> from <= i < blocks.len() && blocks[i].size
            >= n && (forall|j: int| from <= j < i ==> (#[trigger] blocks[j]).size < n),
        first_fit(blocks, n, from) is None <==> forall|j: int|
            from <= j < blocks.len() ==> (#[trigger] blocks[j]).size < n,
    decreases blocks.len() - from,
{
    if from < blocks.len() {
        law_first_fit(blocks, n, from + 1);
    }
}

/// What is not handed out stays free: a byte leaves the free ones only with the
/// block that is handed out, or with a rest of it of fewer than 32 bytes.
pub proof fn law_rest_stays_free(h: Heap, size: u64, i: int, x: int)
    requires
        h.wf(),
        0 <= i < h@.len(),
        h@[i].size >= rounded(size),
        is_free(h@, x),
        !(h@[i].addr <= x < h@[i].addr + rounded(size)),
        h@[i].size >= rounded(size) + 32 || !h@[i].covers(x),
    ensures
        is_free(carved(h@, i, rounded(size)), x),
{
    assert(block_ok(h@[i], h.spec_base() as int, h.spec_total() as int));
    lemma_carved(h@, i, rounded(size));
}

/// Giving a block back frees exactly its bytes.
pub proof fn law_block_given_back(h: Heap, b: Block, x: int)
    requires
        h.wf(),
        block_ok(b, h.spec_base() as int, h.spec_total() as int),
        forall|i: int| 0 <= i < h@.len() ==> (#[trigger] h@[i]).end() <= b.addr || b.end() <= h@[i].addr,
    ensures
        is_free(joined(h@, before(h@, b.addr as int, h@.len() as int), b), x) <==> is_free(h@, x)
            || b.addr <= x < b.addr + b.size,
{
    let bs = h@;
    let (base, total) = (h.spec_base() as int, h.spec_total() as int);
    assert forall|i: int| 0 <= i < bs.len() implies 0 < (#[trigger] bs[i]).size by {
        assert(block_ok(bs[i], base, total));
    }
    lemma_before(bs, b.addr as int, bs.len() as int);
    let p = before(bs, b.addr as int, bs.len() as int);
    assert forall|i: int| 0 <= i < p implies (#[trigger] bs[i]).end() <= b.addr by {
        assert(bs[i].addr < b.addr);
    }
    assert forall|i: int| p <= i < bs.len() implies b.end() <= (#[trigger] bs[i]).addr by {
        assert(b.addr <= bs[i].addr);
        assert(block_ok(bs[i], base, total));
    }
    lemma_joined_free(bs, p, b, base, total, x);
}

} // verus!
