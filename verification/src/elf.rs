//! The ELF loader: parses an untrusted image and maps it into an address space.
use vstd::prelude::*;

use crate::abi::{USER_BASE, USER_SIZE, USER_STACK_SIZE};
use crate::addrspace;
use crate::addrspace::{AddressSpace, KernelMap, Perm, SpaceError, PAGE};
use crate::bytes;
use crate::frame_alloc;
use crate::frame_alloc::FrameAllocator;
use crate::mem;
use crate::mem::PhysMem;

verus! {

pub const ELFCLASS64: u8 = 2;

pub const ELFDATA2LSB: u8 = 1;

pub const ET_EXEC: u16 = 2;

pub const ET_DYN: u16 = 3;

pub const EM_AARCH64: u16 = 0xB7;

pub const PT_LOAD: u32 = 1;

pub const PF_X: u32 = 1;

pub const PF_W: u32 = 2;

/// The bytes of a 64-bit program header that the loader reads.
pub const PHDR_SIZE: u64 = 56;

/// Everything an image uses must end below the stack's guard page.
pub const IMAGE_LIMIT: u64 = 0x4_3FFE_F000;

/// Where an image begins to run and where its program headers are.
#[derive(Clone, Copy, Debug, PartialEq, Eq)]
pub struct ImageLayout {
    pub entry: u64,
    pub phoff: u64,
    pub phentsize: u64,
    pub phnum: u64,
}

/// One loadable segment, as its program header describes it.
#[derive(Clone, Copy, Debug, PartialEq, Eq)]
pub struct Segment {
    pub flags: u32,
    pub offset: u64,
    pub vaddr: u64,
    pub filesz: u64,
    pub memsz: u64,
}

pub open spec fn header_at(l: ImageLayout, idx: int) -> int {
    l.phoff + idx * l.phentsize
}

/// What is wrong with the place of program header `idx`, if anything.
pub open spec fn header_error(b: Seq<u8>, l: ImageLayout, idx: int) -> Option<Seq<char>> {
    if header_at(l, idx) + PHDR_SIZE > u64::MAX {
        Some("program header offset overflow"@)
    } else if header_at(l, idx) + PHDR_SIZE > b.len() {
        Some("truncated program header"@)
    } else {
        None
    }
}

pub open spec fn is_load(b: Seq<u8>, l: ImageLayout, idx: int) -> bool {
    bytes::le(b, header_at(l, idx), 4) == PT_LOAD
}

pub open spec fn segment(b: Seq<u8>, l: ImageLayout, idx: int) -> Segment {
    let at = header_at(l, idx);
    Segment {
        flags: bytes::le(b, at + 4, 4) as u32,
        offset: bytes::le(b, at + 8, 8) as u64,
        vaddr: bytes::le(b, at + 16, 8) as u64,
        filesz: bytes::le(b, at + 32, 8) as u64,
        memsz: bytes::le(b, at + 40, 8) as u64,
    }
}

/// What is wrong with the numbers of a segment, if anything.
pub open spec fn bounds_error(s: Segment, len: int) -> Option<Seq<char>> {
    if s.filesz > s.memsz {
        Some("ELF filesz exceeds memsz"@)
    } else if s.offset + s.filesz > len {
        Some("ELF segment outside file"@)
    } else if s.vaddr + s.memsz + 4095 > u64::MAX {
        Some("ELF segment address overflow"@)
    } else {
        None
    }
}

/// The first thing wrong among the first `n` program headers, if anything.
pub open spec fn headers_error(b: Seq<u8>, l: ImageLayout, n: int) -> Option<Seq<char>>
    decreases n,
{
    if n <= 0 {
        None
    } else if headers_error(b, l, n - 1) is Some {
        headers_error(b, l, n - 1)
    } else if header_error(b, l, n - 1) is Some {
        header_error(b, l, n - 1)
    } else if is_load(b, l, n - 1) {
        bounds_error(segment(b, l, n - 1), b.len() as int)
    } else {
        None
    }
}

pub open spec fn has_load(b: Seq<u8>, l: ImageLayout, n: int) -> bool {
    exists|k: int| 0 <= k < n && #[trigger] is_load(b, l, k)
}

pub open spec fn layout_of(b: Seq<u8>) -> ImageLayout {
    ImageLayout {
        entry: bytes::le(b, 24, 8) as u64,
        phoff: bytes::le(b, 32, 8) as u64,
        phentsize: bytes::le(b, 54, 2) as u64,
        phnum: bytes::le(b, 56, 2) as u64,
    }
}

/// What is wrong with the file header, if anything.
pub open spec fn file_error(b: Seq<u8>) -> Option<Seq<char>> {
    if b.len() < 64 {
        Some("ELF header too small"@)
    } else if !(b[0] == 0x7F && b[1] == 0x45 && b[2] == 0x4C && b[3] == 0x46) {
        Some("bad ELF magic"@)
    } else if b[4] != ELFCLASS64 || b[5] != ELFDATA2LSB {
        Some("unsupported ELF class/data"@)
    } else if bytes::le(b, 18, 2) != EM_AARCH64 {
        Some("unexpected ELF machine"@)
    } else if bytes::le(b, 16, 2) != ET_EXEC && bytes::le(b, 16, 2) != ET_DYN {
        Some("unsupported ELF type"@)
    } else if bytes::le(b, 54, 2) < PHDR_SIZE {
        Some("bad program header size"@)
    } else {
        None
    }
}

/// Why an image is refused before anything of it is mapped, if it is.
pub open spec fn image_error(b: Seq<u8>) -> Option<Seq<char>> {
    let l = layout_of(b);
    if file_error(b) is Some {
        file_error(b)
    } else if headers_error(b, l, l.phnum as int) is Some {
        headers_error(b, l, l.phnum as int)
    } else if !has_load(b, l, l.phnum as int) {
        Some("ELF has no loadable segments"@)
    } else {
        None
    }
}

fn read_segment(b: &[u8], at: usize) -> (s: Segment)
    requires
        at + PHDR_SIZE <= b@.len(),
    ensures
        s == (Segment {
            flags: bytes::le(b@, at + 4, 4) as u32,
            offset: bytes::le(b@, at + 8, 8) as u64,
            vaddr: bytes::le(b@, at + 16, 8) as u64,
            filesz: bytes::le(b@, at + 32, 8) as u64,
            memsz: bytes::le(b@, at + 40, 8) as u64,
        }),
{
    assert(b.len() == b@.len());
    Segment {
        flags: bytes::read_u32_le(b, at + 4),
        offset: bytes::read_u64_le(b, at + 8),
        vaddr: bytes::read_u64_le(b, at + 16),
        filesz: bytes::read_u64_le(b, at + 32),
        memsz: bytes::read_u64_le(b, at + 40),
    }
}

impl ImageLayout {
    /// Where program header `idx` lies, once it is known to lie in the file.
    pub fn program_header(&self, b: &[u8], idx: u64) -> (r: Result<usize, &'static str>)
        requires
            idx < 0x1_0000,
            self.phentsize < 0x1_0000,
        ensures
            match r {
                Ok(at) => header_error(b@, *self, idx as int) is None && at == header_at(
                    *self,
                    idx as int,
                ),
                Err(text) => header_error(b@, *self, idx as int) == Some(text@),
            },
    {
        assert(0 <= idx * self.phentsize < 0x1_0000_0000) by (nonlinear_arith)
            requires
                0 <= idx < 0x1_0000,
                0 <= self.phentsize < 0x1_0000,
        ;
        let skip: u64 = idx * self.phentsize;
        let start: u64 = match self.phoff.checked_add(skip) {
            None => {
                return Err("program header offset overflow");
            },
            Some(start) => start,
        };
        let end: u64 = match start.checked_add(PHDR_SIZE) {
            None => {
                return Err("program header offset overflow");
            },
            Some(end) => end,
        };
        if end > b.len() as u64 {
            return Err("truncated program header");
        }
        Ok(start as usize)
    }
}

/// Checks everything about an image that can be checked without mapping it.
pub fn parse_layout(b: &[u8]) -> (r: Result<ImageLayout, &'static str>)
    ensures
        match r {
            Ok(l) => image_error(b@) is None && l == layout_of(b@),
            Err(text) => image_error(b@) == Some(text@),
        },
{
    if b.len() < 64 {
        return Err("ELF header too small");
    }
    if !(b[0] == 0x7F && b[1] == 0x45 && b[2] == 0x4C && b[3] == 0x46) {
        return Err("bad ELF magic");
    }
    if b[4] != ELFCLASS64 || b[5] != ELFDATA2LSB {
        return Err("unsupported ELF class/data");
    }
    let e_type: u16 = bytes::read_u16_le(b, 16);
    let e_machine: u16 = bytes::read_u16_le(b, 18);
    let entry: u64 = bytes::read_u64_le(b, 24);
    let phoff: u64 = bytes::read_u64_le(b, 32);
    let phentsize: u64 = bytes::read_u16_le(b, 54) as u64;
    let phnum: u64 = bytes::read_u16_le(b, 56) as u64;
    if e_machine != EM_AARCH64 {
        return Err("unexpected ELF machine");
    }
    if e_type != ET_EXEC && e_type != ET_DYN {
        return Err("unsupported ELF type");
    }
    if phentsize < PHDR_SIZE {
        return Err("bad program header size");
    }
    let layout = ImageLayout { entry, phoff, phentsize, phnum };
    let len: u64 = b.len() as u64;
    let mut saw_load: bool = false;
    let mut idx: u64 = 0;
    while idx < phnum
        invariant
            idx <= phnum < 0x1_0000,
            len == b@.len(),
            layout == layout_of(b@),
            layout.phnum == phnum,
            layout.phentsize < 0x1_0000,
            file_error(b@) is None,
            headers_error(b@, layout, idx as int) is None,
            saw_load == has_load(b@, layout, idx as int),
        decreases phnum - idx,
    {
        proof {
            lemma_headers_error_kept(b@, layout, idx as int + 1, phnum as int);
        }
        let at: usize = match layout.program_header(b, idx) {
            Err(text) => {
                return Err(text);
            },
            Ok(at) => at,
        };
        if bytes::read_u32_le(b, at) == PT_LOAD {
            let s: Segment = read_segment(b, at);
            assert(is_load(b@, layout, idx as int));
            if s.filesz > s.memsz {
                return Err("ELF filesz exceeds memsz");
            }
            match s.offset.checked_add(s.filesz) {
                None => {
                    return Err("ELF segment outside file");
                },
                Some(end) => {
                    if end > len {
                        return Err("ELF segment outside file");
                    }
                },
            }
            saw_load = true;
            match s.vaddr.checked_add(s.memsz) {
                None => {
                    return Err("ELF segment address overflow");
                },
                Some(end) => {
                    if end.checked_add(4095).is_none() {
                        return Err("ELF segment address overflow");
                    }
                },
            }
        }
        idx = idx + 1;
    }
    if !saw_load {
        return Err("ELF has no loadable segments");
    }
    Ok(layout)
}

proof fn lemma_headers_error_kept(b: Seq<u8>, l: ImageLayout, n: int, total: int)
    requires
        0 <= n <= total,
    ensures
        headers_error(b, l, n) is Some ==> headers_error(b, l, total) == headers_error(b, l, n),
    decreases total - n,
{
    if n < total {
        lemma_headers_error_kept(b, l, n + 1, total);
    }
}

/// In an accepted image every header lies in the file and every segment's
/// bytes do.
pub proof fn lemma_accepted_image(b: Seq<u8>, idx: int)
    requires
        image_error(b) is None,
        0 <= idx < layout_of(b).phnum,
    ensures
        header_error(b, layout_of(b), idx) is None,
        is_load(b, layout_of(b), idx) ==> bounds_error(
            segment(b, layout_of(b), idx),
            b.len() as int,
        ) is None,
{
    let l = layout_of(b);
    lemma_headers_error_kept(b, l, idx + 1, l.phnum as int);
    if headers_error(b, l, idx) is Some {
        lemma_headers_error_kept(b, l, idx, l.phnum as int);
    }
}

pub open spec fn perm_of(flags: u32) -> Perm {
    if flags & PF_X != 0 {
        Perm::ReadExec
    } else if flags & PF_W != 0 {
        Perm::ReadWrite
    } else {
        Perm::ReadOnly
    }
}

/// `q` is the address of a page that the segment takes.
pub open spec fn seg_page(s: Segment, q: int) -> bool {
    q % 4096 == 0 && s.vaddr - s.vaddr as int % 4096 <= q < s.vaddr + s.memsz
}

/// How many pages the segment takes.
pub open spec fn page_count(s: Segment) -> int {
    (s.vaddr as int % 4096 + s.memsz + 4095) / 4096
}

/// The byte of the image at address `va`: from the file, or zero behind it.
pub open spec fn image_byte(b: Seq<u8>, s: Segment, va: int) -> u8 {
    if s.vaddr <= va < s.vaddr + s.filesz {
        b[s.offset + (va - s.vaddr)]
    } else {
        0
    }
}

/// The page at `q` is mapped with the segment's permission and holds its bytes.
pub open spec fn page_loaded(
    space: AddressSpace,
    m: Seq<u8>,
    b: Seq<u8>,
    s: Segment,
    memory_type: u64,
    q: int,
) -> bool {
    let e = space.spec_leaf(m, q);
    let pa = addrspace::target(e);
    &&& e == addrspace::page_entry(pa as u64, memory_type, perm_of(s.flags))
    &&& addrspace::valid(e)
    &&& forall|o: int| 0 <= o < 4096 ==> m[#[trigger] (pa + o)] == image_byte(b, s, q + o)
}

/// What is wrong with a segment's permissions or place, if anything.
pub open spec fn place_error(s: Segment) -> Option<Seq<char>> {
    if s.flags & PF_W != 0 && s.flags & PF_X != 0 {
        Some("segment is writable and executable"@)
    } else if !addrspace::window(s.vaddr as int, s.memsz as int) {
        Some("segment outside the user window"@)
    } else if s.vaddr + s.memsz > IMAGE_LIMIT {
        Some("segment overlaps the stack"@)
    } else {
        None
    }
}

/// One of the first `n` segments takes the page at `q`.
pub open spec fn covered(b: Seq<u8>, l: ImageLayout, n: int, q: int) -> bool {
    exists|k: int| 0 <= k < n && #[trigger] is_load(b, l, k) && seg_page(segment(b, l, k), q)
}

/// Segment `idx` takes a page that is mapped already or that an earlier one takes.
pub open spec fn overlaps(b: Seq<u8>, l: ImageLayout, idx: int, taken: Set<int>) -> bool {
    exists|q: int| #[trigger]
        seg_page(segment(b, l, idx), q) && (taken.contains(q) || covered(b, l, idx, q))
}

/// The page addresses where something is mapped.
pub open spec fn mapped_pages(space: AddressSpace, m: Seq<u8>) -> Set<int> {
    Set::new(|q: int| space.mapped(m, q))
}

/// The first reason among the first `n` segments to refuse the image, if any.
pub open spec fn load_error(
    b: Seq<u8>,
    l: ImageLayout,
    n: int,
    taken: Set<int>,
) -> Option<Seq<char>>
    decreases n,
{
    if n <= 0 {
        None
    } else if load_error(b, l, n - 1, taken) is Some {
        load_error(b, l, n - 1, taken)
    } else if !is_load(b, l, n - 1) {
        None
    } else if place_error(segment(b, l, n - 1)) is Some {
        place_error(segment(b, l, n - 1))
    } else if overlaps(b, l, n - 1, taken) {
        Some("segments overlap a page"@)
    } else {
        None
    }
}

/// Why an image is refused, if it is and memory does not run out first.
pub open spec fn refusal(b: Seq<u8>, taken: Set<int>) -> Option<Seq<char>> {
    let l = layout_of(b);
    if image_error(b) is Some {
        image_error(b)
    } else if load_error(b, l, l.phnum as int, taken) is Some {
        load_error(b, l, l.phnum as int, taken)
    } else if !addrspace::window(l.entry as int, 4) {
        Some("entry point outside the user window"@)
    } else {
        None
    }
}

/// How many pages the first `n` segments take, counted one by one.
pub open spec fn total_pages(b: Seq<u8>, l: ImageLayout, n: int) -> int
    decreases n,
{
    if n <= 0 {
        0
    } else if is_load(b, l, n - 1) {
        total_pages(b, l, n - 1) + page_count(segment(b, l, n - 1))
    } else {
        total_pages(b, l, n - 1)
    }
}

/// The address of the page that holds `value`.
fn align_down(value: u64) -> (r: u64)
    ensures
        r == value - value % 4096,
{
    value - value % PAGE
}

/// Page addresses of the window that share both table indices are the same.
pub proof fn lemma_page_slots(a: int, b: int)
    requires
        a % 4096 == 0,
        b % 4096 == 0,
        addrspace::window(a, 4096),
        addrspace::window(b, 4096),
        addrspace::l2_index(a) == addrspace::l2_index(b),
        addrspace::l3_index(a) == addrspace::l3_index(b),
    ensures
        a == b,
{
    let x = a - USER_BASE;
    let y = b - USER_BASE;
    assert(a / 4096 == (a / 0x20_0000) * 512 + addrspace::l3_index(a));
    assert(b / 4096 == (b / 0x20_0000) * 512 + addrspace::l3_index(b));
    assert(a / 0x20_0000 == 0x2000 + x / 0x20_0000);
    assert(b / 0x20_0000 == 0x2000 + y / 0x20_0000);
    assert(x / 0x20_0000 < 512 && y / 0x20_0000 < 512);
}

/// A page address of the window.
pub open spec fn window_page(q: int) -> bool {
    q % 4096 == 0 && addrspace::window(q, 4096)
}

/// A loaded page stays loaded while the space grows elsewhere.
pub proof fn lemma_page_loaded_kept(
    s: AddressSpace,
    t: AddressSpace,
    m: Seq<u8>,
    n: Seq<u8>,
    fa: FrameAllocator,
    fb: FrameAllocator,
    b: Seq<u8>,
    seg: Segment,
    memory_type: u64,
    q: int,
)
    requires
        s.wf(m),
        t.grown(s, m, n, fa, fb),
        t.spec_leaf(n, q) == s.spec_leaf(m, q),
        page_loaded(s, m, b, seg, memory_type, q),
    ensures
        page_loaded(t, n, b, seg, memory_type, q),
{
    let e = s.spec_leaf(m, q);
    let pa = addrspace::target(e);
    assert(s.owns(
        pa,
        addrspace::Role::Page(addrspace::l2_index(q), addrspace::l3_index(q)),
    ));
    assert(s.is_page(pa));
    assert(mem::same_page(m, n, pa));
    assert forall|o: int| 0 <= o < 4096 implies n[#[trigger] (pa + o)] == image_byte(
        b,
        seg,
        q + o,
    ) by {
        assert(m[pa + o] == n[pa + o]);
    }
}

/// Maps one page of a segment and copies the part of the file that falls in it.
fn load_page(
    b: &[u8],
    space: &mut AddressSpace,
    kernel: &KernelMap,
    fa: &mut FrameAllocator,
    m: &mut PhysMem,
    seg: &Segment,
    page: u64,
) -> (r: Result<u64, SpaceError>)
    requires
        old(space).wf(old(m)@),
        old(space).apart(old(fa)@),
        old(fa).wf(),
        addrspace::pool_ok(old(fa)@, old(m)@.len() as int),
        kernel.ram_memory_type & !addrspace::MEMORY_TYPE_MASK == 0,
        bounds_error(*seg, b@.len() as int) is None,
        seg_page(*seg, page as int),
        window_page(page as int),
    ensures
        final(space).grown(*old(space), old(m)@, final(m)@, *old(fa), *final(fa)),
        old(fa)@.len() <= final(fa)@.len() + 3,
        forall|q: int|
            window_page(q) && (q != page || r is Err) ==> #[trigger] final(space).spec_leaf(
                final(m)@,
                q,
            ) == old(space).spec_leaf(old(m)@, q),
        match r {
            Ok(pa) => {
                &&& !old(space).mapped(old(m)@, page as int)
                &&& page_loaded(
                    *final(space),
                    final(m)@,
                    b@,
                    *seg,
                    kernel.ram_memory_type,
                    page as int,
                )
                &&& addrspace::target(final(space).spec_leaf(final(m)@, page as int)) == pa
            },
            Err(SpaceError::AlreadyMapped) => old(space).mapped(old(m)@, page as int),
            Err(SpaceError::OutOfMemory) => old(fa)@.len() <= 2 && final(fa)@ == Set::<int>::empty(),
            Err(SpaceError::OutsideWindow) => false,
        },
{
    let ghost s0 = *old(space);
    let ghost m0 = old(m)@;
    let pa: u64 = match space.map_new_page(kernel, fa, m, page, perm_for(seg.flags)) {
        Err(e) => {
            proof {
                frame_alloc::lemma_free_finite(*old(fa));
                frame_alloc::lemma_free_finite(*fa);
            }
            return Err(e);
        },
        Ok(pa) => pa,
    };
    let ghost s1 = *space;
    let ghost m1 = m@;
    proof {
        addrspace::lemma_page_entry(pa, kernel.ram_memory_type, perm_of(seg.flags));
        assert(AddressSpace::frame_ok(pa as int, m1.len() as int));
    }
    copy_part(b, m, seg, page, pa);
    proof {
        frame_alloc::lemma_free_finite(*old(fa));
        frame_alloc::lemma_free_finite(*fa);
        assert(!s0.roles().dom().contains(pa as int));
        addrspace::lemma_grown_fill(s0, s1, m0, m1, m@, *old(fa), *fa, pa as int);
        assert forall|q: int| window_page(q) && q != page implies #[trigger] space.spec_leaf(m@, q)
            == s0.spec_leaf(m0, q) by {
            if addrspace::l2_index(q) == addrspace::l2_index(page as int) && addrspace::l3_index(q)
                == addrspace::l3_index(page as int) {
                lemma_page_slots(q, page as int);
            }
            assert(0 <= addrspace::l2_index(q) < 512 && 0 <= addrspace::l3_index(q) < 512);
        }
        assert(0 <= addrspace::l2_index(page as int) < 512 && 0 <= addrspace::l3_index(page as int)
            < 512);
        assert(space.spec_leaf(m@, page as int) == s1.spec_leaf(m1, page as int));
    }
    Ok(pa)
}

/// Copies the part of the file that falls in a page into the zeroed frame at `pa`.
fn copy_part(b: &[u8], m: &mut PhysMem, seg: &Segment, page: u64, pa: u64)
    requires
        bounds_error(*seg, b@.len() as int) is None,
        seg_page(*seg, page as int),
        window_page(page as int),
        pa + 4096 <= old(m)@.len(),
        pa < 0x1_0000_0000,
        forall|a: int| pa <= a < pa + 4096 ==> #[trigger] old(m)@[a] == 0,
    ensures
        final(m)@.len() == old(m)@.len(),
        forall|a: int|
            0 <= a < old(m)@.len() && !(pa <= a < pa + 4096) ==> #[trigger] final(m)@[a] == old(m)@[a],
        forall|o: int|
            0 <= o < 4096 ==> final(m)@[#[trigger] (pa + o)] == image_byte(b@, *seg, page + o),
{
    let ghost m1 = m@;
    let file_end: u64 = seg.vaddr + seg.filesz;
    let copy_start: u64 = if page < seg.vaddr { seg.vaddr } else { page };
    let copy_end: u64 = if page + PAGE < file_end { page + PAGE } else { file_end };
    assert(b.len() == b@.len());
    if copy_start < copy_end {
        let src: usize = (seg.offset + (copy_start - seg.vaddr)) as usize;
        let n: usize = (copy_end - copy_start) as usize;
        let part: &[u8] = vstd::slice::slice_subrange(b, src, src + n);
        m.write_slice(pa + (copy_start - page), part);
    }
    proof {
        assert forall|o: int| 0 <= o < 4096 implies m@[#[trigger] (pa + o)] == image_byte(
            b@,
            *seg,
            page + o,
        ) by {
            assert(m1[pa + o] == 0);
        }
    }
}

fn perm_for(flags: u32) -> (r: Perm)
    ensures
        r == perm_of(flags),
{
    if flags & PF_X != 0 {
        Perm::ReadExec
    } else if flags & PF_W != 0 {
        Perm::ReadWrite
    } else {
        Perm::ReadOnly
    }
}

/// Every frame in `c0` is in `c1`.
pub open spec fn still_listed(c0: Seq<u64>, c1: Seq<u64>) -> bool {
    forall|x: u64| #[trigger] c0.contains(x) ==> c1.contains(x)
}

/// The pages of the segment below `upto` were not mapped before and are loaded,
/// and the executable ones are in `code`.
#[verifier::opaque]
spec fn done_below(
    s0: AddressSpace,
    m0: Seq<u8>,
    s: AddressSpace,
    m: Seq<u8>,
    b: Seq<u8>,
    seg: Segment,
    mt: u64,
    code: Seq<u64>,
    upto: int,
) -> bool {
    forall|q: int|
        #![trigger seg_page(seg, q)]
        seg_page(seg, q) && q < upto ==> {
            &&& !s0.mapped(m0, q)
            &&& page_loaded(s, m, b, seg, mt, q)
            &&& seg.flags & PF_X != 0 ==> code.contains(
                addrspace::target(s.spec_leaf(m, q)) as u64,
            )
        }
}

/// Outside the range from `first` to `upto`, everything is mapped as before.
#[verifier::opaque]
spec fn same_outside(
    s0: AddressSpace,
    m0: Seq<u8>,
    s: AddressSpace,
    m: Seq<u8>,
    first: int,
    upto: int,
) -> bool {
    forall|q: int|
        window_page(q) && !(first <= q < upto) ==> #[trigger] s.spec_leaf(m, q) == s0.spec_leaf(
            m0,
            q,
        )
}

/// One more page of the segment is loaded.
proof fn lemma_one_more_page(
    s0: AddressSpace,
    m0: Seq<u8>,
    s1: AddressSpace,
    m1: Seq<u8>,
    s2: AddressSpace,
    m2: Seq<u8>,
    fa1: FrameAllocator,
    fa2: FrameAllocator,
    b: Seq<u8>,
    seg: Segment,
    mt: u64,
    code1: Seq<u64>,
    code2: Seq<u64>,
    first: int,
    page: int,
)
    requires
        place_error(seg) is None,
        bounds_error(seg, b.len() as int) is None,
        first == seg.vaddr - seg.vaddr % 4096,
        seg_page(seg, page),
        s1.wf(m1),
        s2.grown(s1, m1, m2, fa1, fa2),
        done_below(s0, m0, s1, m1, b, seg, mt, code1, page),
        same_outside(s0, m0, s1, m1, first, page),
        forall|q: int|
            window_page(q) && q != page ==> #[trigger] s2.spec_leaf(m2, q) == s1.spec_leaf(m1, q),
        !s1.mapped(m1, page),
        page_loaded(s2, m2, b, seg, mt, page),
        still_listed(code1, code2),
        seg.flags & PF_X != 0 ==> code2.contains(
            addrspace::target(s2.spec_leaf(m2, page)) as u64,
        ),
    ensures
        done_below(s0, m0, s2, m2, b, seg, mt, code2, page + 4096),
        same_outside(s0, m0, s2, m2, first, page + 4096),
{
    reveal(done_below);
    reveal(same_outside);
    assert(window_page(page));
    assert(s1.spec_leaf(m1, page) == s0.spec_leaf(m0, page));
    assert forall|q: int| window_page(q) && !(first <= q < page + 4096) implies #[trigger] s2.spec_leaf(
        m2,
        q,
    ) == s0.spec_leaf(m0, q) by {
        assert(s1.spec_leaf(m1, q) == s0.spec_leaf(m0, q));
    }
    assert forall|q: int|
        #![trigger seg_page(seg, q)]
        seg_page(seg, q) && q < page + 4096 implies {
        &&& !s0.mapped(m0, q)
        &&& page_loaded(s2, m2, b, seg, mt, q)
        &&& seg.flags & PF_X != 0 ==> code2.contains(
            addrspace::target(s2.spec_leaf(m2, q)) as u64,
        )
    } by {
        if q < page {
            assert(window_page(q));
            assert(s2.spec_leaf(m2, q) == s1.spec_leaf(m1, q));
            lemma_page_loaded_kept(s1, s2, m1, m2, fa1, fa2, b, seg, mt, q);
            if seg.flags & PF_X != 0 {
                assert(code1.contains(addrspace::target(s1.spec_leaf(m1, q)) as u64));
            }
        } else {
            assert(q == page);
        }
    }
}

/// Maps every page of a segment, lowest first. The frames of executable pages
/// are added to `code`, so that their contents can be made visible to
/// instruction fetches.
#[verifier::spinoff_prover]
#[verifier::rlimit(40)]
fn load_segment(
    b: &[u8],
    space: &mut AddressSpace,
    kernel: &KernelMap,
    fa: &mut FrameAllocator,
    m: &mut PhysMem,
    seg: &Segment,
    code: &mut Vec<u64>,
) -> (r: Result<(), &'static str>)
    requires
        old(space).wf(old(m)@),
        old(space).apart(old(fa)@),
        old(fa).wf(),
        addrspace::pool_ok(old(fa)@, old(m)@.len() as int),
        kernel.ram_memory_type & !addrspace::MEMORY_TYPE_MASK == 0,
        bounds_error(*seg, b@.len() as int) is None,
        place_error(*seg) is None,
    ensures
        final(space).grown(*old(space), old(m)@, final(m)@, *old(fa), *final(fa)),
        old(fa)@.len() <= final(fa)@.len() + 3 * page_count(*seg),
        forall|q: int|
            window_page(q) && !seg_page(*seg, q) ==> #[trigger] final(space).spec_leaf(
                final(m)@,
                q,
            ) == old(space).spec_leaf(old(m)@, q),
        still_listed(old(code)@, final(code)@),
        match r {
            Ok(()) => forall|q: int| #[trigger]
                seg_page(*seg, q) ==> {
                    &&& !old(space).mapped(old(m)@, q)
                    &&& page_loaded(
                        *final(space),
                        final(m)@,
                        b@,
                        *seg,
                        kernel.ram_memory_type,
                        q,
                    )
                    &&& seg.flags & PF_X != 0 ==> final(code)@.contains(
                        addrspace::target(final(space).spec_leaf(final(m)@, q)) as u64,
                    )
                },
            Err(text) => {
                ||| text@ == "segments overlap a page"@ && exists|q: int| #[trigger]
                    seg_page(*seg, q) && old(space).mapped(old(m)@, q)
                ||| text@ == "out of memory"@ && final(fa)@ == Set::<int>::empty() && old(fa)@.len()
                    < 3 * page_count(*seg)
            },
        },
{
    let ghost s0 = *old(space);
    let ghost m0 = old(m)@;
    let ghost mt = kernel.ram_memory_type;
    let end: u64 = seg.vaddr + seg.memsz;
    let first: u64 = align_down(seg.vaddr);
    let mut page: u64 = first;
    proof {
        addrspace::lemma_grown_refl(s0, m0, *fa);
        reveal(done_below);
        reveal(same_outside);
    }
    while page < end
        invariant
            bounds_error(*seg, b@.len() as int) is None,
            place_error(*seg) is None,
            mt == kernel.ram_memory_type,
            kernel.ram_memory_type & !addrspace::MEMORY_TYPE_MASK == 0,
            end == seg.vaddr + seg.memsz,
            first == seg.vaddr - seg.vaddr % 4096,
            page % 4096 == 0,
            first <= page <= end + 4095,
            s0.wf(m0),
            s0 == *old(space),
            m0 == old(m)@,
            space.grown(s0, m0, m@, *old(fa), *fa),
            old(fa)@.len() <= fa@.len() + 3 * ((page - first) / 4096),
            same_outside(s0, m0, *space, m@, first as int, page as int),
            done_below(s0, m0, *space, m@, b@, *seg, mt, code@, page as int),
            still_listed(old(code)@, code@),
        decreases end + 4096 - page,
    {
        let ghost s1 = *space;
        let ghost m1 = m@;
        let ghost fa1 = *fa;
        let ghost code1 = code@;
        assert(seg_page(*seg, page as int));
        assert(window_page(page as int));
        proof {
            reveal(same_outside);
            assert(s1.spec_leaf(m1, page as int) == s0.spec_leaf(m0, page as int));
        }
        assert((page - first) / 4096 + 1 <= page_count(*seg));
        match load_page(b, space, kernel, fa, m, seg, page) {
            Err(e) => {
                proof {
                    addrspace::lemma_grown_trans(s0, s1, *space, m0, m1, m@, *old(fa), fa1, *fa);
                    assert forall|q: int|
                        window_page(q) && !seg_page(*seg, q) implies #[trigger] space.spec_leaf(
                        m@,
                        q,
                    ) == s0.spec_leaf(m0, q) by {
                        assert(s1.spec_leaf(m1, q) == s0.spec_leaf(m0, q));
                    }
                }
                return Err(
                    match e {
                        SpaceError::AlreadyMapped => "segments overlap a page",
                        SpaceError::OutsideWindow => "segment outside the user window",
                        SpaceError::OutOfMemory => "out of memory",
                    },
                );
            },
            Ok(pa) => {
                if seg.flags & PF_X != 0 {
                    code.push(pa);
                    proof {
                        assert(code@[code1.len() as int] == pa);
                        assert forall|x: u64| #[trigger] code1.contains(x) implies code@.contains(
                            x,
                        ) by {
                            let k = choose|k: int| 0 <= k < code1.len() && code1[k] == x;
                            assert(code@[k] == x);
                        }
                    }
                }
                proof {
                    addrspace::lemma_grown_trans(s0, s1, *space, m0, m1, m@, *old(fa), fa1, *fa);
                    lemma_one_more_page(
                        s0,
                        m0,
                        s1,
                        m1,
                        *space,
                        m@,
                        fa1,
                        *fa,
                        b@,
                        *seg,
                        mt,
                        code1,
                        code@,
                        first as int,
                        page as int,
                    );
                }
            },
        }
        page = page + PAGE;
    }
    proof {
        assert((page - first) / 4096 <= page_count(*seg));
        reveal(done_below);
        reveal(same_outside);
    }
    Ok(())
}

/// Loads an image into `space` at its linked addresses, page by page, with
/// permissions from its flags. Refuses segments that are writable and
/// executable, outside the user window, over the stack, or overlapping. The
/// result is the entry point; the frames of executable pages are added to
/// `code`.
pub fn load_into(
    b: &[u8],
    space: &mut AddressSpace,
    kernel: &KernelMap,
    fa: &mut FrameAllocator,
    m: &mut PhysMem,
    code: &mut Vec<u64>,
) -> (r: Result<u64, &'static str>)
    requires
        old(space).wf(old(m)@),
        old(space).apart(old(fa)@),
        old(fa).wf(),
        addrspace::pool_ok(old(fa)@, old(m)@.len() as int),
        kernel.ram_memory_type & !addrspace::MEMORY_TYPE_MASK == 0,
    ensures
        final(space).grown(*old(space), old(m)@, final(m)@, *old(fa), *final(fa)),
        still_listed(old(code)@, final(code)@),
        match r {
            Ok(entry) => {
                let l = layout_of(b@);
                &&& refusal(b@, mapped_pages(*old(space), old(m)@)) is None
                &&& entry == l.entry
                &&& forall|k: int, q: int|
                    0 <= k < l.phnum && #[trigger] is_load(b@, l, k) && #[trigger] seg_page(
                        segment(b@, l, k),
                        q,
                    ) ==> {
                        &&& page_loaded(
                            *final(space),
                            final(m)@,
                            b@,
                            segment(b@, l, k),
                            kernel.ram_memory_type,
                            q,
                        )
                        &&& segment(b@, l, k).flags & PF_X != 0 ==> final(code)@.contains(
                            addrspace::target(final(space).spec_leaf(final(m)@, q)) as u64,
                        )
                    }
                &&& forall|q: int|
                    window_page(q) && !covered(b@, l, l.phnum as int, q) ==> #[trigger] final(space).spec_leaf(final(m)@, q) == old(space).spec_leaf(old(m)@, q)
                &&& old(fa)@.len() <= final(fa)@.len() + 3 * total_pages(b@, l, l.phnum as int)
            },
            Err(text) => {
                ||| refusal(b@, mapped_pages(*old(space), old(m)@)) == Some(text@)
                ||| text@ == "out of memory"@ && final(fa)@ == Set::<int>::empty() && image_error(
                    b@,
                ) is None && old(fa)@.len() < 3 * total_pages(
                    b@,
                    layout_of(b@),
                    layout_of(b@).phnum as int,
                )
            },
        },
        image_error(b@) is Some ==> *final(space) == *old(space) && final(m)@ == old(m)@ && *final(fa) == *old(fa),
{
    let ghost s0 = *old(space);
    let ghost m0 = old(m)@;
    let ghost mt = kernel.ram_memory_type;
    proof {
        addrspace::lemma_grown_refl(s0, m0, *fa);
    }
    let layout: ImageLayout = match parse_layout(b) {
        Err(text) => {
            return Err(text);
        },
        Ok(layout) => layout,
    };
    let mut idx: u64 = 0;
    let ghost l = layout;
    proof {
        bytes::lemma_pow256();
        bytes::lemma_le_bound(b@, 54, 2);
        bytes::lemma_le_bound(b@, 56, 2);
    }
    while idx < layout.phnum
        invariant
            idx <= layout.phnum < 0x1_0000,
            layout.phentsize < 0x1_0000,
            l == layout,
            layout == layout_of(b@),
            image_error(b@) is None,
            mt == kernel.ram_memory_type,
            kernel.ram_memory_type & !addrspace::MEMORY_TYPE_MASK == 0,
            s0.wf(m0),
            s0 == *old(space),
            m0 == old(m)@,
            space.grown(s0, m0, m@, *old(fa), *fa),
            still_listed(old(code)@, code@),
            load_error(b@, l, idx as int, mapped_pages(s0, m0)) is None,
            old(fa)@.len() <= fa@.len() + 3 * total_pages(b@, l, idx as int),
            forall|q: int|
                window_page(q) && !covered(b@, l, idx as int, q) ==> #[trigger] space.spec_leaf(
                    m@,
                    q,
                ) == s0.spec_leaf(m0, q),
            forall|k: int, q: int|
                0 <= k < idx && #[trigger] is_load(b@, l, k) && #[trigger] seg_page(
                    segment(b@, l, k),
                    q,
                ) ==> {
                    &&& window_page(q)
                    &&& page_loaded(*space, m@, b@, segment(b@, l, k), mt, q)
                    &&& segment(b@, l, k).flags & PF_X != 0 ==> code@.contains(
                        addrspace::target(space.spec_leaf(m@, q)) as u64,
                    )
                },
        decreases layout.phnum - idx,
    {
        proof {
            lemma_accepted_image(b@, idx as int);
            lemma_load_error_kept(
                b@,
                l,
                idx as int + 1,
                l.phnum as int,
                mapped_pages(s0, m0),
            );
            lemma_total_pages_grows(b@, l, idx as int + 1, l.phnum as int);
        }
        let at: usize = match layout.program_header(b, idx) {
            Err(text) => {
                return Err(text);
            },
            Ok(at) => at,
        };
        if bytes::read_u32_le(b, at) == PT_LOAD {
            let seg: Segment = read_segment(b, at);
            assert(is_load(b@, l, idx as int));
            assert(seg == segment(b@, l, idx as int));
            if seg.flags & PF_W != 0 && seg.flags & PF_X != 0 {
                return Err("segment is writable and executable");
            }
            if !addrspace::in_window(seg.vaddr, seg.memsz) {
                return Err("segment outside the user window");
            }
            if seg.vaddr + seg.memsz > IMAGE_LIMIT {
                return Err("segment overlaps the stack");
            }
            let ghost s1 = *space;
            let ghost m1 = m@;
            let ghost fa1 = *fa;
            let ghost code1 = code@;
            let r: Result<(), &'static str> = load_segment(b, space, kernel, fa, m, &seg, code);
            proof {
                addrspace::lemma_grown_trans(s0, s1, *space, m0, m1, m@, *old(fa), fa1, *fa);
                lemma_overlap_now(b@, l, idx as int, s0, m0, s1, m1, mt);
            }
            match r {
                Err(text) => {
                    return Err(text);
                },
                Ok(()) => {},
            }
            proof {
                assert(!overlaps(b@, l, idx as int, mapped_pages(s0, m0)));
                assert forall|k: int, q: int|
                    0 <= k < idx + 1 && #[trigger] is_load(b@, l, k) && #[trigger] seg_page(
                        segment(b@, l, k),
                        q,
                    ) implies {
                    &&& window_page(q)
                    &&& page_loaded(*space, m@, b@, segment(b@, l, k), mt, q)
                    &&& segment(b@, l, k).flags & PF_X != 0 ==> code@.contains(
                        addrspace::target(space.spec_leaf(m@, q)) as u64,
                    )
                } by {
                    if k < idx {
                        assert(page_loaded(s1, m1, b@, segment(b@, l, k), mt, q));
                        assert(s1.mapped(m1, q));
                        assert(!seg_page(seg, q));
                        assert(space.spec_leaf(m@, q) == s1.spec_leaf(m1, q));
                        lemma_page_loaded_kept(
                            s1,
                            *space,
                            m1,
                            m@,
                            fa1,
                            *fa,
                            b@,
                            segment(b@, l, k),
                            mt,
                            q,
                        );
                        if segment(b@, l, k).flags & PF_X != 0 {
                            assert(code1.contains(addrspace::target(s1.spec_leaf(m1, q)) as u64));
                        }
                    }
                }
                assert forall|q: int|
                    window_page(q) && !covered(
                        b@,
                        l,
                        idx as int + 1,
                        q,
                    ) implies #[trigger] space.spec_leaf(m@, q) == s0.spec_leaf(m0, q) by {
                    if seg_page(seg, q) {
                        assert(is_load(b@, l, idx as int));
                    }
                    if covered(b@, l, idx as int, q) {
                        let k = choose|k: int|
                            0 <= k < idx && #[trigger] is_load(b@, l, k) && seg_page(
                                segment(b@, l, k),
                                q,
                            );
                        assert(is_load(b@, l, k));
                    }
                    assert(s1.spec_leaf(m1, q) == s0.spec_leaf(m0, q));
                }
            }
        } else {
            proof {
                assert(!is_load(b@, l, idx as int));
                assert forall|q: int|
                    window_page(q) && !covered(
                        b@,
                        l,
                        idx as int + 1,
                        q,
                    ) implies #[trigger] space.spec_leaf(m@, q) == s0.spec_leaf(m0, q) by {
                    if covered(b@, l, idx as int, q) {
                        let k = choose|k: int|
                            0 <= k < idx && #[trigger] is_load(b@, l, k) && seg_page(
                                segment(b@, l, k),
                                q,
                            );
                        assert(is_load(b@, l, k));
                    }
                }
            }
        }
        idx = idx + 1;
    }
    if !addrspace::in_window(layout.entry, 4) {
        return Err("entry point outside the user window");
    }
    Ok(layout.entry)
}

proof fn lemma_load_error_kept(
    b: Seq<u8>,
    l: ImageLayout,
    n: int,
    total: int,
    taken: Set<int>,
)
    requires
        0 <= n <= total,
    ensures
        load_error(b, l, n, taken) is Some ==> load_error(b, l, total, taken) == load_error(b, l, n, taken),
    decreases total - n,
{
    if n < total {
        lemma_load_error_kept(b, l, n + 1, total, taken);
    }
}

proof fn lemma_total_pages_grows(b: Seq<u8>, l: ImageLayout, n: int, total: int)
    requires
        0 <= n <= total,
    ensures
        total_pages(b, l, n) <= total_pages(b, l, total),
    decreases total - n,
{
    if n < total {
        lemma_total_pages_grows(b, l, n + 1, total);
    }
}

/// While the image is loaded in order, segment `idx` meets a mapped page
/// exactly when it overlaps.
proof fn lemma_overlap_now(
    b: Seq<u8>,
    l: ImageLayout,
    idx: int,
    s0: AddressSpace,
    m0: Seq<u8>,
    s1: AddressSpace,
    m1: Seq<u8>,
    mt: u64,
)
    requires
        is_load(b, l, idx),
        place_error(segment(b, l, idx)) is None,
        forall|q: int|
            window_page(q) && !covered(b, l, idx, q) ==> #[trigger] s1.spec_leaf(m1, q)
                == s0.spec_leaf(m0, q),
        forall|k: int, q: int|
            0 <= k < idx && #[trigger] is_load(b, l, k) && #[trigger] seg_page(
                segment(b, l, k),
                q,
            ) ==> page_loaded(s1, m1, b, segment(b, l, k), mt, q),
    ensures
        overlaps(b, l, idx, mapped_pages(s0, m0)) <==> exists|q: int| #[trigger]
            seg_page(segment(b, l, idx), q) && s1.mapped(m1, q),
{
    let seg = segment(b, l, idx);
    assert forall|q: int| #[trigger] seg_page(seg, q) implies (s1.mapped(m1, q) <==> (s0.mapped(
        m0,
        q,
    ) || covered(b, l, idx, q))) by {
        assert(window_page(q));
        if covered(b, l, idx, q) {
            let k = choose|k: int|
                0 <= k < idx && #[trigger] is_load(b, l, k) && seg_page(segment(b, l, k), q);
            assert(page_loaded(s1, m1, b, segment(b, l, k), mt, q));
        } else {
            assert(s1.spec_leaf(m1, q) == s0.spec_leaf(m0, q));
        }
    }
    if overlaps(b, l, idx, mapped_pages(s0, m0)) {
        let q = choose|q: int| #[trigger]
            seg_page(seg, q) && (s0.mapped(m0, q) || covered(b, l, idx, q));
        assert(seg_page(seg, q) && s1.mapped(m1, q));
    }
    if exists|q: int| #[trigger] seg_page(seg, q) && s1.mapped(m1, q) {
        let q = choose|q: int| #[trigger] seg_page(seg, q) && s1.mapped(m1, q);
        assert(seg_page(seg, q) && (s0.mapped(m0, q) || covered(b, l, idx, q)));
    }
}

/// Without a reason to refuse the image, every segment is well placed.
pub proof fn lemma_place_ok(b: Seq<u8>, l: ImageLayout, k: int, n: int, taken: Set<int>)
    requires
        load_error(b, l, n, taken) is None,
        0 <= k < n,
        is_load(b, l, k),
    ensures
        place_error(segment(b, l, k)) is None,
        !overlaps(b, l, k, taken),
{
    lemma_load_error_kept(b, l, k + 1, n, taken);
    if load_error(b, l, k, taken) is Some {
        lemma_load_error_kept(b, l, k, n, taken);
    }
}

/// No loaded page is both writable and executable, and none lies where the
/// stack or its guard page goes.
pub proof fn law_loaded_pages(b: Seq<u8>, k: int, q: int, taken: Set<int>)
    requires
        refusal(b, taken) is None,
        0 <= k < layout_of(b).phnum,
        is_load(b, layout_of(b), k),
        seg_page(segment(b, layout_of(b), k), q),
    ensures
        !(segment(b, layout_of(b), k).flags & PF_W != 0 && segment(b, layout_of(b), k).flags & PF_X
            != 0),
        perm_of(segment(b, layout_of(b), k).flags) == Perm::ReadWrite ==> segment(
            b,
            layout_of(b),
            k,
        ).flags & PF_X == 0,
        USER_BASE <= q,
        q + 4096 <= USER_BASE + USER_SIZE - USER_STACK_SIZE - 4096,
{
    lemma_place_ok(b, layout_of(b), k, layout_of(b).phnum as int, taken);
}

/// Where the file says that program header `k` is.
pub open spec fn phdr_at(b: Seq<u8>, k: int) -> int {
    bytes::u64_at(b, 32) + k * bytes::u16_at(b, 54)
}

/// The file has a program header `k`, and it describes something to load.
pub open spec fn loads(b: Seq<u8>, k: int) -> bool {
    0 <= k < bytes::u16_at(b, 56) && bytes::u32_at(b, phdr_at(b, k)) == 1
}

/// What is loaded begins at this address.
pub open spec fn load_start(b: Seq<u8>, k: int) -> int {
    bytes::u64_at(b, phdr_at(b, k) + 16)
}

/// What is loaded takes this many bytes.
pub open spec fn load_size(b: Seq<u8>, k: int) -> int {
    bytes::u64_at(b, phdr_at(b, k) + 40)
}

/// What is loaded has this many bytes in the file.
pub open spec fn load_filled(b: Seq<u8>, k: int) -> int {
    bytes::u64_at(b, phdr_at(b, k) + 32)
}

/// What is loaded is in the file from here on.
pub open spec fn load_from(b: Seq<u8>, k: int) -> int {
    bytes::u64_at(b, phdr_at(b, k) + 8)
}

/// What is loaded may be executed.
pub open spec fn load_executes(b: Seq<u8>, k: int) -> bool {
    bytes::u32_at(b, phdr_at(b, k) + 4) % 2 == 1
}

/// What is loaded may be written.
pub open spec fn load_writes(b: Seq<u8>, k: int) -> bool {
    bytes::u32_at(b, phdr_at(b, k) + 4) / 2 % 2 == 1
}

/// A 64-bit little-endian ELF file for this machine, executable, with program
/// headers of a size that can be read.
pub open spec fn has_elf_header(b: Seq<u8>) -> bool {
    &&& b.len() >= 64
    &&& b[0] == 0x7F && b[1] == 0x45 && b[2] == 0x4C && b[3] == 0x46
    &&& b[4] == 2 && b[5] == 1
    &&& bytes::u16_at(b, 18) == 183
    &&& bytes::u16_at(b, 16) == 2 || bytes::u16_at(b, 16) == 3
    &&& bytes::u16_at(b, 54) >= 56
}

/// Every program header is in the file.
pub open spec fn headers_in_file(b: Seq<u8>) -> bool {
    forall|k: int| 0 <= k < bytes::u16_at(b, 56) ==> #[trigger] phdr_at(b, k) + 56 <= b.len()
}

/// What program header `k` loads is in the file, has room for what it holds, and
/// ends before the last page of all.
pub open spec fn load_in_bounds(b: Seq<u8>, k: int) -> bool {
    &&& load_filled(b, k) <= load_size(b, k)
    &&& load_from(b, k) + load_filled(b, k) <= b.len()
    &&& load_start(b, k) + load_size(b, k) + 4095 <= u64::MAX
}

pub proof fn lemma_raw_layout(b: Seq<u8>)
    ensures
        layout_of(b).entry == bytes::u64_at(b, 24),
        layout_of(b).phoff == bytes::u64_at(b, 32),
        layout_of(b).phentsize == bytes::u16_at(b, 54),
        layout_of(b).phnum == bytes::u16_at(b, 56),
        forall|k: int| #[trigger] header_at(layout_of(b), k) == phdr_at(b, k),
{
    bytes::lemma_raw(b, 24);
    bytes::lemma_raw(b, 32);
    bytes::lemma_raw(b, 54);
    bytes::lemma_raw(b, 56);
}

pub proof fn lemma_raw_segment(b: Seq<u8>, k: int)
    ensures
        is_load(b, layout_of(b), k) == (bytes::u32_at(b, phdr_at(b, k)) == 1),
        segment(b, layout_of(b), k).vaddr == load_start(b, k),
        segment(b, layout_of(b), k).memsz == load_size(b, k),
        segment(b, layout_of(b), k).filesz == load_filled(b, k),
        segment(b, layout_of(b), k).offset == load_from(b, k),
        (segment(b, layout_of(b), k).flags & PF_X != 0) == load_executes(b, k),
        (segment(b, layout_of(b), k).flags & PF_W != 0) == load_writes(b, k),
{
    lemma_raw_layout(b);
    let at = header_at(layout_of(b), k);
    assert(at == phdr_at(b, k));
    bytes::lemma_raw(b, at);
    bytes::lemma_raw(b, at + 4);
    bytes::lemma_raw(b, at + 8);
    bytes::lemma_raw(b, at + 16);
    bytes::lemma_raw(b, at + 32);
    bytes::lemma_raw(b, at + 40);
    let f = segment(b, layout_of(b), k).flags;
    assert((f & 1 != 0) == (f % 2 == 1) && (f & 2 != 0) == (f / 2 % 2 == 1)) by (bit_vector);
}

proof fn lemma_headers_accepted(b: Seq<u8>, n: int)
    requires
        b.len() <= u64::MAX,
        0 <= n <= bytes::u16_at(b, 56),
    ensures
        headers_error(b, layout_of(b), n) is None <==> forall|k: int|
            0 <= k < n ==> #[trigger] phdr_at(b, k) + 56 <= b.len() && (bytes::u32_at(b, phdr_at(b, k)) == 1
                ==> load_in_bounds(b, k)),
    decreases n,
{
    lemma_raw_layout(b);
    if n > 0 {
        lemma_headers_accepted(b, n - 1);
        lemma_raw_segment(b, n - 1);
        assert(header_at(layout_of(b), n - 1) == phdr_at(b, n - 1));
        if headers_error(b, layout_of(b), n) is None {
            assert forall|k: int| 0 <= k < n implies #[trigger] phdr_at(b, k) + 56 <= b.len() && (
            bytes::u32_at(b, phdr_at(b, k)) == 1 ==> load_in_bounds(b, k)) by {
                if k == n - 1 {
                    assert(header_error(b, layout_of(b), k) is None);
                }
            }
        } else if headers_error(b, layout_of(b), n - 1) is None {
            let k = n - 1;
            assert(!(phdr_at(b, k) + 56 <= b.len() && (bytes::u32_at(b, phdr_at(b, k)) == 1
                ==> load_in_bounds(b, k))));
        }
    }
}

/// Exactly the well-formed images are accepted: an executable ELF file for this
/// machine, all of whose program headers are in it, at least one of which loads
/// something, each of them within bounds. What is accepted is read as the file
/// has it.
pub proof fn law_well_formed_images_are_accepted(b: Seq<u8>)
    requires
        b.len() <= u64::MAX,
    ensures
        image_error(b) is None <==> {
            &&& has_elf_header(b)
            &&& headers_in_file(b)
            &&& exists|k: int| #[trigger] loads(b, k)
            &&& forall|k: int| #[trigger] loads(b, k) ==> load_in_bounds(b, k)
        },
        layout_of(b).entry == bytes::u64_at(b, 24),
        layout_of(b).phnum == bytes::u16_at(b, 56),
{
    lemma_raw_layout(b);
    bytes::lemma_raw(b, 16);
    bytes::lemma_raw(b, 18);
    bytes::lemma_raw(b, 54);
    bytes::lemma_raw(b, 56);
    let l = layout_of(b);
    let n = bytes::u16_at(b, 56);
    lemma_headers_accepted(b, n);
    assert((file_error(b) is None) == has_elf_header(b));
    assert forall|k: int| 0 <= k < n implies #[trigger] is_load(b, l, k) == loads(b, k) by {
        lemma_raw_segment(b, k);
    }
    assert(has_load(b, l, n) <==> exists|k: int| #[trigger] loads(b, k)) by {
        if has_load(b, l, n) {
            let k = choose|k: int| 0 <= k < n && #[trigger] is_load(b, l, k);
            assert(loads(b, k));
        }
        if exists|k: int| #[trigger] loads(b, k) {
            let k = choose|k: int| #[trigger] loads(b, k);
            assert(is_load(b, l, k));
        }
    }
    if headers_error(b, l, n) is None {
        assert forall|k: int| 0 <= k < n implies #[trigger] phdr_at(b, k) + 56 <= b.len() by {}
        assert forall|k: int| #[trigger] loads(b, k) implies load_in_bounds(b, k) by {
            assert(phdr_at(b, k) + 56 <= b.len());
        }
    }
    if headers_in_file(b) && forall|k: int| #[trigger] loads(b, k) ==> load_in_bounds(b, k) {
        assert forall|k: int| 0 <= k < n implies #[trigger] phdr_at(b, k) + 56 <= b.len() && (
        bytes::u32_at(b, phdr_at(b, k)) == 1 ==> load_in_bounds(b, k)) by {
            if bytes::u32_at(b, phdr_at(b, k)) == 1 {
                assert(loads(b, k));
            }
        }
    }
}

/// What program header `k` loads has a place: it is not both writable and
/// executable, lies in the user window, and ends below the page under the stack.
pub open spec fn load_has_place(b: Seq<u8>, k: int) -> bool {
    &&& !(load_writes(b, k) && load_executes(b, k))
    &&& 0x4_0000_0000 <= load_start(b, k)
    &&& load_start(b, k) + load_size(b, k) <= 0x4_4000_0000 - 0x1_0000 - 0x1000
}

/// The page at `q` is one that program header `k` loads something into.
pub open spec fn load_takes(b: Seq<u8>, k: int, q: int) -> bool {
    q % 4096 == 0 && q + 4096 > load_start(b, k) && q < load_start(b, k) + load_size(b, k)
}

pub proof fn lemma_takes(b: Seq<u8>, k: int, q: int)
    ensures
        load_takes(b, k, q) <==> seg_page(segment(b, layout_of(b), k), q),
{
    lemma_raw_segment(b, k);
    lemma_page_of(segment(b, layout_of(b), k).vaddr as int, q);
}

proof fn lemma_page_of(v: int, q: int)
    requires
        0 <= v,
    ensures
        q % 4096 == 0 ==> (v - v % 4096 <= q <==> q + 4096 > v),
{
    if q % 4096 == 0 {
        let (i, j) = (v / 4096, q / 4096);
        assert(v == 4096 * i + v % 4096 && q == 4096 * j);
    }
}

/// Two program headers load into one page.
pub open spec fn load_clash(b: Seq<u8>, j: int, k: int) -> bool {
    loads(b, j) && loads(b, k) && exists|q: int| #[trigger]
        load_takes(b, j, q) && load_takes(b, k, q)
}

proof fn lemma_places_accepted(b: Seq<u8>, n: int)
    requires
        image_error(b) is None,
        0 <= n <= bytes::u16_at(b, 56),
    ensures
        load_error(b, layout_of(b), n, Set::empty()) is None <==> {
            &&& forall|k: int| k < n && #[trigger] loads(b, k) ==> load_has_place(b, k)
            &&& forall|j: int, k: int| 0 <= j < k < n ==> !#[trigger] load_clash(b, j, k)
        },
    decreases n,
{
    let l = layout_of(b);
    lemma_raw_layout(b);
    if n > 0 {
        lemma_places_accepted(b, n - 1);
        lemma_raw_segment(b, n - 1);
        bytes::lemma_raw(b, phdr_at(b, n - 1) + 16);
        bytes::lemma_raw(b, phdr_at(b, n - 1) + 40);
        let k = n - 1;
        assert(is_load(b, l, k) == loads(b, k));
        if loads(b, k) {
            assert(place_error(segment(b, l, k)) is None <==> load_has_place(b, k));
            assert(overlaps(b, l, k, Set::empty()) <==> exists|j: int|
                0 <= j < k && #[trigger] load_clash(b, j, k)) by {
                if overlaps(b, l, k, Set::empty()) {
                    let q = choose|q: int| #[trigger]
                        seg_page(segment(b, l, k), q) && (Set::<int>::empty().contains(q) || covered(
                            b,
                            l,
                            k,
                            q,
                        ));
                    let j = choose|j: int|
                        0 <= j < k && #[trigger] is_load(b, l, j) && seg_page(segment(b, l, j), q);
                    lemma_raw_segment(b, j);
                    lemma_takes(b, j, q);
                    lemma_takes(b, k, q);
                    assert(load_takes(b, j, q) && load_takes(b, k, q));
                    assert(load_clash(b, j, k));
                }
                if exists|j: int| 0 <= j < k && #[trigger] load_clash(b, j, k) {
                    let j = choose|j: int| 0 <= j < k && #[trigger] load_clash(b, j, k);
                    let q = choose|q: int| #[trigger]
                        load_takes(b, j, q) && load_takes(b, k, q);
                    lemma_raw_segment(b, j);
                    lemma_takes(b, j, q);
                    lemma_takes(b, k, q);
                    assert(is_load(b, l, j));
                    assert(covered(b, l, k, q));
                }
            }
        }
        if load_error(b, l, n, Set::empty()) is None {
            assert forall|i: int| i < n && #[trigger] loads(b, i) implies load_has_place(b, i) by {}
            assert forall|i: int, j: int| 0 <= i < j < n implies !#[trigger] load_clash(b, i, j) by {
                if load_clash(b, i, j) && j == k {
                    assert(loads(b, k));
                }
            }
        } else if load_error(b, l, n - 1, Set::empty()) is None {
            assert(loads(b, k));
        } else {
            if forall|i: int| i < n && #[trigger] loads(b, i) ==> load_has_place(b, i) {
                assert forall|i: int| i < n - 1 && #[trigger] loads(b, i) implies load_has_place(
                    b,
                    i,
                ) by {}
            }
        }
    }
}

/// Exactly the images that fit are loaded into an empty space: well-formed ones,
/// all of whose parts have a place, no two of them on one page, which begin to
/// run in the user window.
pub proof fn law_fitting_images_are_loaded(b: Seq<u8>)
    requires
        b.len() <= u64::MAX,
    ensures
        refusal(b, Set::empty()) is None <==> {
            &&& image_error(b) is None
            &&& forall|k: int| #[trigger] loads(b, k) ==> load_has_place(b, k)
            &&& forall|j: int, k: int| j != k ==> !#[trigger] load_clash(b, j, k)
            &&& 0x4_0000_0000 <= bytes::u64_at(b, 24) <= 0x4_4000_0000 - 4
        },
{
    lemma_raw_layout(b);
    bytes::lemma_raw(b, 24);
    bytes::lemma_raw(b, 56);
    if image_error(b) is None {
        let n = bytes::u16_at(b, 56);
        lemma_places_accepted(b, n);
        if load_error(b, layout_of(b), n, Set::empty()) is None {
            assert forall|k: int| #[trigger] loads(b, k) implies load_has_place(b, k) by {}
            assert forall|j: int, k: int| j != k implies !#[trigger] load_clash(b, j, k) by {
                if load_clash(b, j, k) {
                    let q = choose|q: int| #[trigger] load_takes(b, j, q) && load_takes(b, k, q);
                    assert(load_takes(b, k, q) && load_takes(b, j, q));
                    assert(load_clash(b, k, j));
                    if j < k {
                        assert(!load_clash(b, j, k));
                    } else {
                        assert(!load_clash(b, k, j));
                    }
                }
            }
        }
    }
}

/// What an image is refused for is what is wrong with it.
pub proof fn law_refusals_name_their_cause(b: Seq<u8>)
    requires
        b.len() <= u64::MAX,
    ensures
        image_error(b) == Some("ELF header too small"@) ==> b.len() < 64,
        image_error(b) == Some("bad ELF magic"@) ==> b.take(4) != seq![0x7Fu8, 0x45, 0x4C, 0x46],
        image_error(b) == Some("unsupported ELF class/data"@) ==> b[4] != 2 || b[5] != 1,
        image_error(b) == Some("unexpected ELF machine"@) ==> bytes::u16_at(b, 18) != 183,
        image_error(b) == Some("unsupported ELF type"@) ==> bytes::u16_at(b, 16) != 2 && bytes::u16_at(b, 16)
            != 3,
        image_error(b) == Some("bad program header size"@) ==> bytes::u16_at(b, 54) < 56,
        image_error(b) == Some("truncated program header"@) ==> exists|k: int|
            0 <= k < bytes::u16_at(b, 56) && #[trigger] phdr_at(b, k) + 56 > b.len(),
        image_error(b) == Some("ELF filesz exceeds memsz"@) ==> exists|k: int| #[trigger]
            loads(b, k) && load_filled(b, k) > load_size(b, k),
        image_error(b) == Some("ELF segment outside file"@) ==> exists|k: int| #[trigger]
            loads(b, k) && load_from(b, k) + load_filled(b, k) > b.len(),
        image_error(b) == Some("ELF segment address overflow"@) ==> exists|k: int| #[trigger]
            loads(b, k) && load_start(b, k) + load_size(b, k) + 4095 > u64::MAX,
        image_error(b) == Some("ELF has no loadable segments"@) ==> forall|k: int|
            !#[trigger] loads(b, k),
{
    lemma_texts_differ();
    lemma_raw_layout(b);
    bytes::lemma_raw(b, 16);
    bytes::lemma_raw(b, 18);
    bytes::lemma_raw(b, 54);
    bytes::lemma_raw(b, 56);
    let n = bytes::u16_at(b, 56);
    lemma_header_cause(b, n);
    if file_error(b) is None && headers_error(b, layout_of(b), n) is None && !has_load(
        b,
        layout_of(b),
        n,
    ) {
        assert forall|k: int| !#[trigger] loads(b, k) by {
            lemma_raw_segment(b, k);
            if loads(b, k) {
                assert(is_load(b, layout_of(b), k));
            }
        }
    }
    if b.len() >= 4 {
        assert(b.take(4)[0] == b[0] && b.take(4)[1] == b[1] && b.take(4)[2] == b[2] && b.take(4)[3]
            == b[3]);
    }
}

proof fn lemma_texts_differ()
    ensures
        "ELF header too small"@.len() == 20,
        "ELF header too small"@[0] == 'E',
        "bad ELF magic"@.len() == 13,
        "unsupported ELF class/data"@.len() == 26,
        "unexpected ELF machine"@.len() == 22,
        "unsupported ELF type"@.len() == 20,
        "unsupported ELF type"@[0] == 'u',
        "bad program header size"@.len() == 23,
        "program header offset overflow"@.len() == 30,
        "truncated program header"@.len() == 24,
        "truncated program header"@[0] == 't',
        "ELF filesz exceeds memsz"@.len() == 24,
        "ELF filesz exceeds memsz"@[0] == 'E',
        "ELF filesz exceeds memsz"@[4] == 'f',
        "ELF segment outside file"@.len() == 24,
        "ELF segment outside file"@[0] == 'E',
        "ELF segment outside file"@[4] == 's',
        "ELF segment address overflow"@.len() == 28,
        "ELF segment address overflow"@[4] == 's',
        "ELF has no loadable segments"@.len() == 28,
        "ELF has no loadable segments"@[4] == 'h',
{
    reveal_strlit("ELF header too small");
    reveal_strlit("bad ELF magic");
    reveal_strlit("unsupported ELF class/data");
    reveal_strlit("unexpected ELF machine");
    reveal_strlit("unsupported ELF type");
    reveal_strlit("bad program header size");
    reveal_strlit("program header offset overflow");
    reveal_strlit("truncated program header");
    reveal_strlit("ELF filesz exceeds memsz");
    reveal_strlit("ELF segment outside file");
    reveal_strlit("ELF segment address overflow");
    reveal_strlit("ELF has no loadable segments");
}

proof fn lemma_header_cause(b: Seq<u8>, n: int)
    requires
        b.len() <= u64::MAX,
        0 <= n <= bytes::u16_at(b, 56),
    ensures
        match headers_error(b, layout_of(b), n) {
            None => true,
            Some(t) => {
                ||| t == "program header offset overflow"@
                ||| t == "truncated program header"@ && exists|k: int|
                    0 <= k < n && #[trigger] phdr_at(b, k) + 56 > b.len()
                ||| t == "ELF filesz exceeds memsz"@ && exists|k: int| #[trigger]
                    loads(b, k) && load_filled(b, k) > load_size(b, k)
                ||| t == "ELF segment outside file"@ && exists|k: int| #[trigger]
                    loads(b, k) && load_from(b, k) + load_filled(b, k) > b.len()
                ||| t == "ELF segment address overflow"@ && exists|k: int| #[trigger]
                    loads(b, k) && load_start(b, k) + load_size(b, k) + 4095 > u64::MAX
            },
        },
    decreases n,
{
    if n > 0 {
        lemma_header_cause(b, n - 1);
        lemma_raw_layout(b);
        lemma_raw_segment(b, n - 1);
        let k = n - 1;
        let l = layout_of(b);
        assert(header_at(l, k) == phdr_at(b, k));
        if headers_error(b, l, n - 1) is None && header_error(b, l, k) is None && is_load(b, l, k) {
            assert(loads(b, k));
        }
    }
}

} // verus!
