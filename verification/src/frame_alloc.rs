//! Physical frame allocator: a bitmap over the first 4 GiB.
//!
//! Each bit stands for a 4 KiB frame; a clear bit is a free frame. All bits
//! start set, and `init` clears those of the usable memory regions. A single
//! frame is found by scanning from the byte where the last one was found.
use vstd::prelude::*;

verus! {

pub const FRAME_SIZE: u64 = 4096;

pub const MAX_FRAMES: usize = 0x10_0000;

pub const BITMAP_BYTES: usize = 0x2_0000;

/// A stretch of physical memory, as the firmware reports it.
#[derive(Clone, Copy, Debug, PartialEq, Eq)]
pub struct MemRegion {
    pub start: u64,
    pub pages: u64,
    pub usable: bool,
}

impl MemRegion {
    /// The region is usable and frame `f` lies in it.
    pub open spec fn covers(self, f: int) -> bool {
        &&& self.usable
        &&& self.start / FRAME_SIZE <= f < self.start as int / 4096 + self.pages
    }

    /// One past the last frame of the region that the bitmap can hold.
    pub open spec fn end(self) -> int {
        let end = self.start as int / 4096 + self.pages;
        if end < MAX_FRAMES {
            end
        } else {
            MAX_FRAMES as int
        }
    }

    /// How many frames the region hands over.
    pub open spec fn span(self) -> int {
        let first = if self.start < 4096 {
            1
        } else {
            self.start as int / 4096
        };
        if self.usable && first < self.end() {
            self.end() - first
        } else {
            0
        }
    }
}

/// How many frames the first `n` regions hand over, one by one.
pub open spec fn total_span(regions: Seq<MemRegion>, n: int) -> int
    decreases n,
{
    if n <= 0 {
        0
    } else {
        total_span(regions, n - 1) + regions[n - 1].span()
    }
}

/// No frame lies in two of the first `n` regions.
pub open spec fn regions_disjoint(regions: Seq<MemRegion>, n: int) -> bool {
    forall|i: int, j: int, f: int|
        0 <= i < j < n && #[trigger] regions[i].covers(f) ==> !#[trigger] regions[j].covers(f)
}

pub open spec fn some_region_covers(regions: Seq<MemRegion>, n: int, f: int) -> bool {
    exists|i: int| 0 <= i < n && #[trigger] regions[i].covers(f)
}

/// The bitmap, the number of free frames and the byte to search first.
pub struct FrameAllocator {
    bitmap: Vec<u8>,
    free: usize,
    hint: usize,
}

pub open spec fn bit_set(byte: u8, bit: int) -> bool {
    byte & (1u8 << (bit as u8)) != 0
}

/// Where frame `f` comes in a scan that begins at byte `hint`.
pub open spec fn scan_pos(hint: int, f: int) -> int {
    let byte = if f / 8 >= hint {
        f / 8 - hint
    } else {
        f / 8 - hint + BITMAP_BYTES
    };
    byte * 8 + f % 8
}

/// The frames from `s` on, `count` of them.
pub open spec fn run(s: int, count: int) -> Set<int> {
    Set::new(|f: int| s <= f < s + count)
}

impl FrameAllocator {
    pub closed spec fn is_free(self, f: int) -> bool {
        0 < f < MAX_FRAMES && !bit_set(self.bitmap@[f / 8], f % 8)
    }

    /// The free frames.
    pub closed spec fn view(self) -> Set<int> {
        Set::new(|f: int| self.is_free(f))
    }

    /// The number of free frames that `free_count` reports.
    pub closed spec fn count(self) -> int {
        self.free as int
    }

    /// The byte of the bitmap where the next search begins.
    pub closed spec fn spec_hint(self) -> int {
        self.hint as int
    }

    pub closed spec fn wf(self) -> bool {
        &&& self.bitmap@.len() == BITMAP_BYTES
        &&& self.hint < BITMAP_BYTES
        &&& bit_set(self.bitmap@[0], 0)
        &&& self.free >= self.view().len()
    }

    /// A bitmap with every frame in use.
    pub fn new() -> (fa: FrameAllocator)
        ensures
            fa.wf(),
            fa@ == Set::<int>::empty(),
            fa.count() == 0,
            fa.spec_hint() == 0,
    {
        let fa = FrameAllocator { bitmap: vec![0xFFu8; BITMAP_BYTES], free: 0, hint: 0 };
        proof {
            assert(forall|i: u8| i < 8 ==> 0xFFu8 & (1u8 << i) != 0) by (bit_vector);
            assert forall|f: int| !#[trigger] fa.is_free(f) by {
                if 0 < f < MAX_FRAMES {
                    assert(fa.bitmap@[f / 8] == 0xFF);
                    let b: u8 = (f % 8) as u8;
                    assert(0xFFu8 & (1u8 << b) != 0);
                }
            }
            assert(0xFFu8 & (1u8 << 0u8) != 0);
            assert(fa@ =~= Set::<int>::empty());
        }
        fa
    }

    fn used(&self, frame: usize) -> (r: bool)
        requires
            self.wf(),
            0 < frame < MAX_FRAMES,
        ensures
            r == !self@.contains(frame as int),
    {
        let bit: u8 = (frame % 8) as u8;
        self.bitmap[frame / 8] & (1u8 << bit) != 0
    }

    fn set_used(&mut self, frame: usize)
        requires
            old(self).bitmap@.len() == BITMAP_BYTES,
            0 < frame < MAX_FRAMES,
        ensures
            final(self).bitmap@.len() == BITMAP_BYTES,
            final(self)@ == old(self)@.remove(frame as int),
            final(self).free == old(self).free,
            final(self).hint == old(self).hint,
            bit_set(final(self).bitmap@[0], 0) == bit_set(old(self).bitmap@[0], 0),
    {
        let bit: u8 = (frame % 8) as u8;
        let byte: u8 = self.bitmap[frame / 8];
        self.bitmap[frame / 8] = byte | (1u8 << bit);
        proof {
            lemma_bits(byte, bit);
            lemma_bytes_of_frames(frame as int);
            assert(self@ =~= old(self)@.remove(frame as int));
        }
    }

    fn set_free(&mut self, frame: usize)
        requires
            old(self).bitmap@.len() == BITMAP_BYTES,
            0 < frame < MAX_FRAMES,
        ensures
            final(self).bitmap@.len() == BITMAP_BYTES,
            final(self)@ == old(self)@.insert(frame as int),
            final(self).free == old(self).free,
            final(self).hint == old(self).hint,
            bit_set(final(self).bitmap@[0], 0) == bit_set(old(self).bitmap@[0], 0),
    {
        let bit: u8 = (frame % 8) as u8;
        let byte: u8 = self.bitmap[frame / 8];
        self.bitmap[frame / 8] = byte & !(1u8 << bit);
        proof {
            lemma_bits(byte, bit);
            lemma_bytes_of_frames(frame as int);
            assert(self@ =~= old(self)@.insert(frame as int));
        }
    }
}

proof fn lemma_bit(byte: u8, bit: u8, j: u8)
    by (bit_vector)
    requires
        bit < 8,
        j < 8,
    ensures
        ((byte | (1u8 << bit)) & (1u8 << j) != 0) == (j == bit || byte & (1u8 << j) != 0),
        ((byte & !(1u8 << bit)) & (1u8 << j) != 0) == (j != bit && byte & (1u8 << j) != 0),
{
}

/// Setting or clearing one bit of a byte leaves the other seven alone.
proof fn lemma_bits(byte: u8, bit: u8)
    requires
        bit < 8,
    ensures
        forall|j: int|
            0 <= j < 8 ==> #[trigger] bit_set(byte | (1u8 << bit), j) == (j == bit || bit_set(
                byte,
                j,
            )),
        forall|j: int|
            0 <= j < 8 ==> #[trigger] bit_set(byte & !(1u8 << bit), j) == (j != bit && bit_set(
                byte,
                j,
            )),
{
    assert forall|j: int| 0 <= j < 8 implies #[trigger] bit_set(byte | (1u8 << bit), j) == (j == bit
        || bit_set(byte, j)) by {
        lemma_bit(byte, bit, j as u8);
    }
    assert forall|j: int| 0 <= j < 8 implies #[trigger] bit_set(byte & !(1u8 << bit), j) == (j
        != bit && bit_set(byte, j)) by {
        lemma_bit(byte, bit, j as u8);
    }
}

/// Two frames share a byte and a bit only when they are the same.
proof fn lemma_bytes_of_frames(frame: int)
    ensures
        forall|f: int| #![trigger f / 8] f / 8 == frame / 8 && f % 8 == frame % 8 ==> f == frame,
{
}

/// The free frames are finitely many.
pub proof fn lemma_free_finite(fa: FrameAllocator)
    ensures
        fa@.finite(),
        fa@.len() <= MAX_FRAMES,
{
    let all = vstd::set_lib::set_int_range(0, MAX_FRAMES as int);
    vstd::set_lib::lemma_int_range(0, MAX_FRAMES as int);
    assert(fa@.subset_of(all));
    vstd::set_lib::lemma_len_subset(fa@, all);
}

/// Frame 0 is never free, and no frame lies past the bitmap.
pub proof fn law_free_frames_in_range(fa: FrameAllocator, f: int)
    requires
        fa@.contains(f),
    ensures
        0 < f < MAX_FRAMES,
{
}

/// Frees the frames of the usable regions among the first `count`. Frame 0
/// stays in use, and so does everything past the bitmap.
pub fn init(fa: &mut FrameAllocator, regions: &[MemRegion], count: usize)
    requires
        old(fa).wf(),
        count <= regions@.len(),
        forall|i: int|
            0 <= i < count ==> (#[trigger] regions@[i]).start + regions@[i].pages * 4096 <= u64::MAX,
        old(fa).count() + total_span(regions@, count as int) <= usize::MAX,
    ensures
        final(fa).wf(),
        final(fa).count() == old(fa).count() + total_span(regions@, count as int),
        final(fa).spec_hint() == old(fa).spec_hint(),
        forall|f: int| #[trigger]
            final(fa)@.contains(f) <==> old(fa)@.contains(f) || (0 < f < MAX_FRAMES
                && some_region_covers(regions@, count as int, f)),
        old(fa)@ == Set::<int>::empty() && old(fa).count() == 0 && regions_disjoint(
            regions@,
            count as int,
        ) ==> final(fa).count() == final(fa)@.len(),
{
    let mut i: usize = 0;
    let ghost fresh = old(fa)@ == Set::<int>::empty() && old(fa).count() == 0 && regions_disjoint(
        regions@,
        count as int,
    );
    while i < count
        invariant
            i <= count <= regions@.len(),
            fa.wf(),
            fa.hint == old(fa).hint,
            fa.count() == old(fa).count() + total_span(regions@, i as int),
            old(fa).count() + total_span(regions@, count as int) <= usize::MAX,
            forall|j: int|
                0 <= j < count ==> (#[trigger] regions@[j]).start + regions@[j].pages * 4096
                    <= u64::MAX,
            forall|f: int| #[trigger]
                fa@.contains(f) <==> old(fa)@.contains(f) || (0 < f < MAX_FRAMES
                    && some_region_covers(regions@, i as int, f)),
            fresh == (old(fa)@ == Set::<int>::empty() && old(fa).count() == 0 && regions_disjoint(
                regions@,
                count as int,
            )),
            fresh ==> fa.count() == fa@.len(),
        decreases count - i,
    {
        let r: MemRegion = regions[i];
        proof {
            lemma_total_span_mono(regions@, i as int + 1, count as int);
        }
        let ghost before = fa@;
        let ghost base = fa.count();
        if r.usable {
            let start: u64 = r.start / FRAME_SIZE;
            let past: u64 = (r.start + r.pages * FRAME_SIZE) / FRAME_SIZE;
            assert(past == start + r.pages);
            let end: u64 = if past < MAX_FRAMES as u64 { past } else { MAX_FRAMES as u64 };
            let mut frame: u64 = start;
            let ghost first: int = if start == 0 { 1 } else { start as int };
            while frame < end
                invariant
                    i < count <= regions@.len(),
                    r == regions@[i as int],
                    r.usable,
                    start == r.start / FRAME_SIZE,
                    end == r.end(),
                    end <= MAX_FRAMES,
                    end <= start + r.pages,
                    start <= frame,
                    frame <= end || frame == start,
                    first == (if start == 0 { 1 } else { start as int }),
                    fa.wf(),
                    fa.hint == old(fa).hint,
                    fa.count() == base + (if first < frame { frame - first } else { 0 }),
                    base + r.span() <= usize::MAX,
                    forall|f: int| #[trigger]
                        fa@.contains(f) <==> before.contains(f) || (0 < f < MAX_FRAMES && start <= f
                            < frame),
                    forall|f: int| #[trigger]
                        before.contains(f) <==> old(fa)@.contains(f) || (0 < f < MAX_FRAMES
                            && some_region_covers(regions@, i as int, f)),
                    fresh ==> old(fa)@ == Set::<int>::empty() && regions_disjoint(
                        regions@,
                        count as int,
                    ),
                    fresh ==> fa.count() == fa@.len(),
                decreases end - frame,
            {
                if frame != 0 {
                    let ghost now = fa@;
                    proof {
                        lemma_free_finite(*fa);
                        assert(r.span() == end - first);
                        if fresh {
                            assert(r.covers(frame as int));
                            assert(!before.contains(frame as int));
                            assert(!now.contains(frame as int));
                        }
                    }
                    fa.set_free(frame as usize);
                    fa.free = fa.free + 1;
                    assert(fa@ == now.insert(frame as int));
                    assert(fa@.len() <= now.len() + 1);
                }
                frame = frame + 1;
            }
        }
        proof {
            assert forall|f: int| #[trigger] fa@.contains(f) <==> old(fa)@.contains(f) || (0 < f
                < MAX_FRAMES && some_region_covers(regions@, i as int + 1, f)) by {
                if some_region_covers(regions@, i as int + 1, f) && !some_region_covers(
                    regions@,
                    i as int,
                    f,
                ) {
                    assert(regions@[i as int].covers(f));
                }
                if r.covers(f) {
                    assert(regions@[i as int].covers(f));
                }
                if some_region_covers(regions@, i as int, f) {
                    let k = choose|k: int| 0 <= k < i && #[trigger] regions@[k].covers(f);
                    assert(regions@[k].covers(f));
                }
            }
        }
        i = i + 1;
    }
}

proof fn lemma_total_span_mono(regions: Seq<MemRegion>, i: int, n: int)
    requires
        0 <= i <= n,
    ensures
        total_span(regions, i) <= total_span(regions, n),
    decreases n - i,
{
    if i < n {
        lemma_total_span_mono(regions, i + 1, n);
    }
}

/// Takes one free frame, the first that a scan from the hint meets. The result
/// is its physical address; `None` says that no frame is free.
pub fn allocate(fa: &mut FrameAllocator) -> (r: Option<u64>)
    requires
        old(fa).wf(),
    ensures
        final(fa).wf(),
        match r {
            Some(phys) => {
                let f = phys as int / 4096;
                &&& phys % 4096 == 0
                &&& old(fa)@.contains(f)
                &&& forall|g: int| #[trigger]
                    old(fa)@.contains(g) ==> scan_pos(old(fa).spec_hint(), f) <= scan_pos(
                        old(fa).spec_hint(),
                        g,
                    )
                &&& final(fa)@ == old(fa)@.remove(f)
                &&& final(fa).count() == old(fa).count() - 1
                &&& final(fa).spec_hint() == f / 8
            },
            None => old(fa)@ == Set::<int>::empty() && *final(fa) == *old(fa),
        },
{
    let hint: usize = fa.hint;
    let mut offset: usize = 0;
    while offset < BITMAP_BYTES
        invariant
            offset <= BITMAP_BYTES,
            *fa == *old(fa),
            old(fa).wf(),
            hint == old(fa).spec_hint(),
            forall|g: int| #[trigger]
                old(fa)@.contains(g) ==> scan_pos(hint as int, g) >= offset * 8,
        decreases BITMAP_BYTES - offset,
    {
        let idx: usize = if hint + offset < BITMAP_BYTES {
            hint + offset
        } else {
            hint + offset - BITMAP_BYTES
        };
        let mut bit: usize = 0;
        while bit < 8
            invariant
                bit <= 8,
                offset < BITMAP_BYTES,
                idx < BITMAP_BYTES,
                idx == (if hint + offset < BITMAP_BYTES {
                    hint + offset
                } else {
                    hint + offset - BITMAP_BYTES
                }),
                *fa == *old(fa),
                old(fa).wf(),
                hint == old(fa).spec_hint(),
                forall|g: int| #[trigger]
                    old(fa)@.contains(g) ==> scan_pos(hint as int, g) >= offset * 8 + bit,
            decreases 8 - bit,
        {
            let frame: usize = idx * 8 + bit;
            if frame != 0 && !fa.used(frame) {
                proof {
                    lemma_free_finite(*fa);
                    assert(scan_pos(hint as int, frame as int) == offset * 8 + bit);
                    assert(fa@.contains(frame as int));
                    assert(fa@.remove(frame as int).len() == fa@.len() - 1);
                }
                fa.set_used(frame);
                fa.free = fa.free - 1;
                fa.hint = idx;
                assert(fa@ =~= old(fa)@.remove(frame as int));
                return Some(frame as u64 * FRAME_SIZE);
            }
            proof {
                assert forall|g: int| #[trigger] old(fa)@.contains(g) implies scan_pos(
                    hint as int,
                    g,
                ) >= offset * 8 + bit + 1 by {
                    if scan_pos(hint as int, g) == offset * 8 + bit {
                        assert(g == frame);
                    }
                }
            }
            bit = bit + 1;
        }
        offset = offset + 1;
    }
    proof {
        assert forall|g: int| !#[trigger] old(fa)@.contains(g) by {
            if old(fa)@.contains(g) {
                assert(scan_pos(hint as int, g) < BITMAP_BYTES * 8);
            }
        }
        assert(old(fa)@ =~= Set::<int>::empty());
    }
    None
}

/// Returns a frame to the free pool. The frame must not be free already;
/// frame 0 and addresses past the bitmap are ignored.
pub fn deallocate(fa: &mut FrameAllocator, phys: u64)
    requires
        old(fa).wf(),
        !old(fa)@.contains(phys as int / 4096),
        old(fa).count() < usize::MAX,
    ensures
        final(fa).wf(),
        final(fa).spec_hint() == old(fa).spec_hint(),
        0 < phys as int / 4096 < MAX_FRAMES ==> {
            &&& final(fa)@ == old(fa)@.insert(phys as int / 4096)
            &&& final(fa).count() == old(fa).count() + 1
        },
        !(0 < phys as int / 4096 < MAX_FRAMES) ==> *final(fa) == *old(fa),
{
    let frame: u64 = phys / FRAME_SIZE;
    if frame == 0 || frame >= MAX_FRAMES as u64 {
        return ;
    }
    proof {
        lemma_free_finite(*fa);
    }
    fa.set_free(frame as usize);
    fa.free = fa.free + 1;
    assert(fa@ =~= old(fa)@.insert(frame as int));
}

/// Returns `count` frames from `base` on to the free pool.
pub fn deallocate_contiguous(fa: &mut FrameAllocator, base: u64, count: usize)
    requires
        old(fa).wf(),
        base % 4096 == 0,
        base + count * 4096 <= u64::MAX,
        forall|f: int|
            base as int / 4096 <= f < base as int / 4096 + count ==> !#[trigger] old(fa)@.contains(
                f,
            ),
        old(fa).count() + count <= usize::MAX,
    ensures
        final(fa).wf(),
        final(fa).spec_hint() == old(fa).spec_hint(),
        forall|f: int| #[trigger]
            final(fa)@.contains(f) <==> old(fa)@.contains(f) || (0 < f < MAX_FRAMES && base as int
                / 4096 <= f < base as int / 4096 + count),
        final(fa).count() - old(fa).count() == final(fa)@.len() - old(fa)@.len(),
{
    let mut offset: usize = 0;
    let ghost first = base as int / 4096;
    while offset < count
        invariant
            offset <= count,
            base % 4096 == 0,
            first == base as int / 4096,
            base + count * 4096 <= u64::MAX,
            fa.wf(),
            fa.hint == old(fa).hint,
            fa.count() <= old(fa).count() + offset,
            old(fa).count() + count <= usize::MAX,
            forall|f: int| first <= f < first + count ==> !#[trigger] old(fa)@.contains(f),
            forall|f: int| #[trigger]
                fa@.contains(f) <==> old(fa)@.contains(f) || (0 < f < MAX_FRAMES && first <= f
                    < first + offset),
            fa.count() - old(fa).count() == fa@.len() - old(fa)@.len(),
        decreases count - offset,
    {
        let ghost before = *fa;
        assert((base + offset * 4096) / 4096 == first + offset);
        proof {
            lemma_free_finite(*fa);
            assert(!fa@.contains(first + offset)) by {
                assert(!old(fa)@.contains(first + offset));
            }
        }
        deallocate(fa, base + offset as u64 * FRAME_SIZE);
        offset = offset + 1;
    }
}

/// Takes the lowest run of `count` free frames. The result is the address of
/// its first frame; `None` says that there is no such run, or that `count` is 0.
pub fn allocate_contiguous(fa: &mut FrameAllocator, count: usize) -> (r: Option<u64>)
    requires
        old(fa).wf(),
    ensures
        final(fa).wf(),
        match r {
            Some(phys) => {
                let s = phys as int / 4096;
                &&& count > 0
                &&& phys % 4096 == 0
                &&& run(s, count as int).subset_of(old(fa)@)
                &&& forall|t: int| 0 <= t < s ==> !#[trigger] run(t, count as int).subset_of(old(fa)@)
                &&& final(fa)@ == old(fa)@.difference(run(s, count as int))
                &&& final(fa).count() == old(fa).count() - count
                &&& final(fa).spec_hint() == old(fa).spec_hint()
            },
            None => {
                &&& *final(fa) == *old(fa)
                &&& count == 0 || forall|t: int| !#[trigger] run(t, count as int).subset_of(old(fa)@)
            },
        },
{
    if count == 0 {
        return None;
    }
    let mut run_start: usize = 1;
    let mut run_len: usize = 0;
    let mut frame: usize = 1;
    proof {
        assert forall|t: int| t < 1 implies !#[trigger] run(t, count as int).subset_of(old(fa)@) by {
            assert(run(t, count as int).contains(t));
            assert(!old(fa)@.contains(t));
        }
    }
    while frame < MAX_FRAMES
        invariant
            1 <= frame <= MAX_FRAMES,
            run_len < count,
            run_len > 0 ==> run_start + run_len == frame,
            1 <= frame - run_len,
            *fa == *old(fa),
            old(fa).wf(),
            forall|f: int| frame - run_len <= f < frame ==> #[trigger] old(fa)@.contains(f),
            forall|t: int|
                t < frame - run_len ==> !#[trigger] run(t, count as int).subset_of(old(fa)@),
        decreases MAX_FRAMES - frame,
    {
        if !fa.used(frame) {
            if run_len == 0 {
                run_start = frame;
            }
            run_len = run_len + 1;
            if run_len == count {
                take_run(fa, run_start, count);
                return Some(run_start as u64 * FRAME_SIZE);
            }
        } else {
            proof {
                assert forall|t: int| t < frame + 1 implies !#[trigger] run(
                    t,
                    count as int,
                ).subset_of(old(fa)@) by {
                    if t >= frame - run_len {
                        assert(run(t, count as int).contains(frame as int));
                    }
                }
            }
            run_len = 0;
        }
        frame = frame + 1;
    }
    proof {
        assert forall|t: int| !#[trigger] run(t, count as int).subset_of(old(fa)@) by {
            if t >= frame - run_len {
                let f = if t < MAX_FRAMES {
                    MAX_FRAMES as int
                } else {
                    t
                };
                assert(run(t, count as int).contains(f));
                assert(!old(fa)@.contains(f));
            }
        }
    }
    None
}

/// Marks a run of free frames as used.
fn take_run(fa: &mut FrameAllocator, start: usize, count: usize)
    requires
        old(fa).wf(),
        start > 0,
        start + count <= MAX_FRAMES,
        run(start as int, count as int).subset_of(old(fa)@),
    ensures
        final(fa).wf(),
        final(fa)@ == old(fa)@.difference(run(start as int, count as int)),
        final(fa).count() == old(fa).count() - count,
        final(fa).spec_hint() == old(fa).spec_hint(),
{
    let mut f: usize = start;
    proof {
        lemma_free_finite(*fa);
        assert(fa@ =~= old(fa)@.difference(run(start as int, 0)));
    }
    while f < start + count
        invariant
            0 < start <= f <= start + count <= MAX_FRAMES,
            old(fa).wf(),
            fa.bitmap@.len() == BITMAP_BYTES,
            fa.hint == old(fa).hint,
            fa.free == old(fa).free,
            bit_set(fa.bitmap@[0], 0) == bit_set(old(fa).bitmap@[0], 0),
            run(start as int, count as int).subset_of(old(fa)@),
            fa@ == old(fa)@.difference(run(start as int, f - start)),
            fa@.finite(),
            fa@.len() == old(fa)@.len() - (f - start),
        decreases start + count - f,
    {
        proof {
            assert(run(start as int, count as int).contains(f as int));
            assert(fa@.contains(f as int));
        }
        let ghost before = fa@;
        fa.set_used(f);
        proof {
            assert(fa@ =~= old(fa)@.difference(run(start as int, f + 1 - start)));
        }
        f = f + 1;
    }
    let ghost taken = fa@;
    fa.free = fa.free - count;
    assert(fa@ =~= taken);
}

/// Takes the lowest run of `count` free frames whose first frame number is a
/// multiple of `align_count`. The result is the address of its first frame;
/// `None` says that there is no such run, or that an argument is 0.
pub fn allocate_contiguous_aligned(
    fa: &mut FrameAllocator,
    count: usize,
    align_count: usize,
) -> (r: Option<u64>)
    requires
        old(fa).wf(),
    ensures
        final(fa).wf(),
        match r {
            Some(phys) => {
                let s = phys as int / 4096;
                &&& count > 0 && align_count > 0
                &&& phys % 4096 == 0
                &&& s % (align_count as int) == 0
                &&& run(s, count as int).subset_of(old(fa)@)
                &&& forall|t: int|
                    0 <= t < s && t % (align_count as int) == 0 ==> !#[trigger] run(
                        t,
                        count as int,
                    ).subset_of(old(fa)@)
                &&& final(fa)@ == old(fa)@.difference(run(s, count as int))
                &&& final(fa).count() == old(fa).count() - count
                &&& final(fa).spec_hint() == old(fa).spec_hint()
            },
            None => {
                &&& *final(fa) == *old(fa)
                &&& count == 0 || align_count == 0 || forall|t: int|
                    t % (align_count as int) == 0 ==> !#[trigger] run(t, count as int).subset_of(
                        old(fa)@,
                    )
            },
        },
{
    if count == 0 || align_count == 0 {
        return None;
    }
    let mut frame: usize = align_count;
    proof {
        assert forall|t: int| t < frame && t % (align_count as int) == 0 implies !#[trigger] run(
            t,
            count as int,
        ).subset_of(old(fa)@) by {
            assert(t <= 0) by (nonlinear_arith)
                requires
                    t < align_count,
                    align_count > 0,
                    t % (align_count as int) == 0,
            ;
            assert(run(t, count as int).contains(t));
            assert(!old(fa)@.contains(t));
        }
        assert(frame as int % (align_count as int) == 0) by (nonlinear_arith)
            requires
                frame == align_count,
                align_count > 0,
        ;
    }
    while count <= MAX_FRAMES && frame <= MAX_FRAMES - count
        invariant
            0 < count,
            0 < align_count,
            0 < frame,
            frame as int % (align_count as int) == 0,
            *fa == *old(fa),
            old(fa).wf(),
            forall|t: int|
                t < frame && t % (align_count as int) == 0 ==> !#[trigger] run(
                    t,
                    count as int,
                ).subset_of(old(fa)@),
        decreases MAX_FRAMES - frame,
    {
        let mut free: bool = true;
        let mut candidate: usize = frame;
        while candidate < frame + count && free
            invariant
                0 < frame <= candidate <= frame + count <= MAX_FRAMES,
                *fa == *old(fa),
                old(fa).wf(),
                free ==> run(frame as int, candidate - frame).subset_of(old(fa)@),
                !free ==> !run(frame as int, count as int).subset_of(old(fa)@),
            decreases frame + count - candidate + (if free { 1int } else { 0int }),
        {
            if fa.used(candidate) {
                free = false;
                proof {
                    assert(run(frame as int, count as int).contains(candidate as int));
                }
            } else {
                candidate = candidate + 1;
            }
        }
        if free {
            take_run(fa, frame, count);
            return Some(frame as u64 * FRAME_SIZE);
        }
        proof {
            assert forall|t: int|
                t < frame + align_count && t % (align_count as int) == 0 implies !#[trigger] run(
                t,
                count as int,
            ).subset_of(old(fa)@) by {
                if t >= frame {
                    lemma_multiples_apart(t, frame as int, align_count as int);
                    assert(t == frame);
                }
            }
            lemma_next_multiple(frame as int, align_count as int);
        }
        if align_count > MAX_FRAMES - frame {
            proof {
                lemma_no_run_beyond(*fa, frame + align_count, count as int);
            }
            return None;
        }
        frame = frame + align_count;
    }
    proof {
        assert forall|t: int| t % (align_count as int) == 0 implies !#[trigger] run(
            t,
            count as int,
        ).subset_of(old(fa)@) by {
            if t >= frame {
                let f = if t < MAX_FRAMES {
                    MAX_FRAMES as int
                } else {
                    t
                };
                assert(run(t, count as int).contains(f));
                assert(!old(fa)@.contains(f));
            }
        }
    }
    None
}

/// No run of free frames begins beyond the last frame.
proof fn lemma_no_run_beyond(fa: FrameAllocator, from: int, count: int)
    requires
        fa.wf(),
        count > 0,
        from >= MAX_FRAMES,
    ensures
        forall|t: int| t >= from ==> !#[trigger] run(t, count).subset_of(fa@),
{
    assert forall|t: int| t >= from implies !#[trigger] run(t, count).subset_of(fa@) by {
        assert(run(t, count).contains(t));
        assert(!fa@.contains(t));
    }
}

proof fn lemma_multiples_apart(t: int, s: int, n: int)
    requires
        n > 0,
        t % n == 0,
        s % n == 0,
        s <= t < s + n,
    ensures
        t == s,
{
    vstd::arithmetic::div_mod::lemma_fundamental_div_mod(t, n);
    vstd::arithmetic::div_mod::lemma_fundamental_div_mod(s, n);
    let a = t / n;
    let b = s / n;
    assert(a == b) by (nonlinear_arith)
        requires
            n > 0,
            n * b <= n * a < n * b + n,
    ;
}

proof fn lemma_next_multiple(s: int, n: int)
    requires
        n > 0,
        s % n == 0,
    ensures
        (s + n) % n == 0,
{
    vstd::arithmetic::div_mod::lemma_mod_add_multiples_vanish(s, n);
}

pub fn free_count(fa: &FrameAllocator) -> (r: usize)
    ensures
        r == fa.count(),
{
    fa.free
}

/// The free memory in whole MiB.
pub fn free_mb(fa: &FrameAllocator) -> (r: usize)
    requires
        fa.count() * 4096 <= usize::MAX,
    ensures
        r == fa.count() * 4096 / 0x10_0000,
{
    free_count(fa) * (FRAME_SIZE as usize) / (1024 * 1024)
}

/// Giving a frame back right after it was handed out restores the free frames.
pub proof fn law_allocate_deallocate(before: Set<int>, f: int)
    requires
        before.contains(f),
    ensures
        before.remove(f).insert(f) == before,
{
    assert(before.remove(f).insert(f) =~= before);
}

/// Taking a run of free frames shrinks the pool by as many.
pub proof fn lemma_run_taken(before: FrameAllocator, after: FrameAllocator, s: int, count: int)
    requires
        count >= 0,
        run(s, count).subset_of(before@),
        after@ == before@.difference(run(s, count)),
    ensures
        after@.len() == before@.len() - count,
{
    lemma_free_finite(before);
    lemma_free_finite(after);
    let r = vstd::set_lib::set_int_range(s, s + count);
    vstd::set_lib::lemma_int_range(s, s + count);
    assert(r =~= run(s, count));
    assert(after@.union(r) =~= before@);
    assert(after@.disjoint(r));
    vstd::set_lib::lemma_set_disjoint_lens(after@, r);
}

/// A region covers exactly the frames that its pages make up, where it is usable.
pub proof fn law_region(r: MemRegion, f: int)
    requires
        r.start % 4096 == 0,
    ensures
        r.covers(f) <==> r.usable && r.start <= f * 4096 && f * 4096 < r.start + r.pages * 4096,
{
}

/// A usable region between the first frame and four GiB hands over all its pages; a
/// region that is not usable hands over none.
pub proof fn law_region_span(r: MemRegion)
    ensures
        !r.usable ==> r.span() == 0,
        r.usable && r.start >= 4096 && r.start as int / 4096 + r.pages <= 0x10_0000 ==> r.span()
            == r.pages,
        r.usable && r.start == 0 && 0 < r.pages <= 0x10_0000 ==> r.span() == r.pages - 1,
{
}

/// The search goes up from the byte where the last frame was found, and starts over
/// at the bottom.
pub proof fn law_search_order(hint: int, f: int, g: int)
    requires
        0 <= hint < 0x2_0000,
        0 <= f < 0x10_0000,
        0 <= g < 0x10_0000,
    ensures
        hint * 8 <= f && hint * 8 <= g ==> (scan_pos(hint, f) < scan_pos(hint, g) <==> f < g),
        f < hint * 8 && g < hint * 8 ==> (scan_pos(hint, f) < scan_pos(hint, g) <==> f < g),
        g < hint * 8 <= f ==> scan_pos(hint, f) < scan_pos(hint, g),
{
}

} // verus!
