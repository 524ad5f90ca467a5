//! Starting tasks: kernel stacks, user address spaces and first frames.
use vstd::prelude::*;

use crate::abi::{TaskRef, USER_STACK_SIZE};
use crate::addrspace;
use crate::addrspace::{AddressSpace, KernelMap, Perm, Role, SpaceError, PAGE};
use crate::bytes;
use crate::context;
use crate::context::{
    PendingFree, SpawnError, State, Task, CANARY, CANARY_WORDS, KERNEL_STACK_PAGES,
    KERNEL_STACK_SIZE, MAX_TASKS, PAINT, SAVED_FRAME,
};
use crate::elf;
use crate::frame_alloc;
use crate::frame_alloc::FrameAllocator;
use crate::handles::HandleTable;
use crate::kernel;
use crate::kernel::{Kernel, Owner};
use crate::mem;
use crate::mem::PhysMem;

verus! {

/// The registers that a new task starts with; all others are zero.
#[derive(Clone, Copy, Debug, PartialEq, Eq, Structural)]
pub struct Regs {
    pub x0: u64,
    pub x1: u64,
    pub x30: u64,
    pub sp_el0: u64,
    pub elr: u64,
    pub spsr: u64,
}

/// Word `i` of the frame that `r` describes.
pub open spec fn frame_word(r: Regs, i: int) -> u64 {
    if i == 0 {
        r.x0
    } else if i == 1 {
        r.x1
    } else if i == 30 {
        r.x30
    } else if i == 31 {
        r.sp_el0
    } else if i == 32 {
        r.elr
    } else if i == 33 {
        r.spsr
    } else {
        0
    }
}

/// A fresh kernel stack at `bottom`: the canary below, paint in the middle,
/// and the first frame at the top.
pub open spec fn fresh_stack(m: Seq<u8>, bottom: int, r: Regs) -> bool {
    let base = bottom + KERNEL_STACK_SIZE - SAVED_FRAME;
    &&& forall|i: int|
        0 <= i < CANARY_WORDS ==> mem::word(m, #[trigger] (bottom + 8 * i)) == CANARY
    &&& forall|a: int| bottom + 8 * CANARY_WORDS <= a < base ==> #[trigger] m[a] == PAINT
    &&& forall|i: int| 0 <= i < 102 ==> mem::word(m, #[trigger] (base + 8 * i)) == frame_word(r, i)
}

/// Paints a new kernel stack, writes its canary, and seeds the first frame.
fn prepare_stack(m: &mut PhysMem, bottom: u64, r: Regs)
    requires
        bottom + KERNEL_STACK_SIZE <= old(m)@.len(),
        bottom < 0x1_0000_0000,
    ensures
        final(m)@.len() == old(m)@.len(),
        forall|a: int|
            0 <= a < old(m)@.len() && !(bottom <= a < bottom + KERNEL_STACK_SIZE)
                ==> #[trigger] final(m)@[a] == old(m)@[a],
        fresh_stack(final(m)@, bottom as int, r),
{
    let ghost m0 = m@;
    let base: u64 = bottom + KERNEL_STACK_SIZE - SAVED_FRAME;
    let mut i: u64 = 0;
    while i < KERNEL_STACK_SIZE
        invariant
            i <= KERNEL_STACK_SIZE,
            bottom + KERNEL_STACK_SIZE <= m0.len(),
            bottom < 0x1_0000_0000,
            m@.len() == m0.len(),
            forall|a: int|
                0 <= a < m0.len() && !(bottom <= a < bottom + i) ==> #[trigger] m@[a] == m0[a],
            forall|a: int| bottom <= a < bottom + i ==> #[trigger] m@[a] == PAINT,
        decreases KERNEL_STACK_SIZE - i,
    {
        m.write_byte(bottom + i, PAINT);
        i = i + 1;
    }
    let ghost painted = m@;
    let mut w: u64 = 0;
    while w < CANARY_WORDS
        invariant
            w <= CANARY_WORDS,
            bottom + KERNEL_STACK_SIZE <= m0.len(),
            bottom < 0x1_0000_0000,
            m@.len() == m0.len(),
            painted.len() == m0.len(),
            forall|a: int|
                0 <= a < m0.len() && !(bottom <= a < bottom + 8 * w) ==> #[trigger] m@[a]
                    == painted[a],
            forall|j: int|
                0 <= j < w ==> mem::word(m@, #[trigger] (bottom + 8 * j)) == CANARY,
        decreases CANARY_WORDS - w,
    {
        let ghost before = m@;
        m.write_word(bottom + 8 * w, CANARY);
        proof {
            assert forall|j: int| 0 <= j < w + 1 implies mem::word(m@, #[trigger] (bottom + 8 * j))
                == CANARY by {
                if j < w {
                    mem::lemma_word_same(m@, before, bottom + 8 * j);
                }
            }
        }
        w = w + 1;
    }
    let ghost marked = m@;
    m.zero(base, SAVED_FRAME);
    proof {
        assert forall|j: int| 0 <= j < 102 implies mem::word(m@, #[trigger] (base + 8 * j)) == 0 by {
            mem::lemma_word_zero(m@, base + 8 * j);
        }
    }
    put_slot(m, base, 0, r.x0);
    put_slot(m, base, 1, r.x1);
    put_slot(m, base, 30, r.x30);
    put_slot(m, base, 31, r.sp_el0);
    put_slot(m, base, 32, r.elr);
    put_slot(m, base, 33, r.spsr);
    proof {
        assert forall|j: int| 0 <= j < CANARY_WORDS implies mem::word(
            m@,
            #[trigger] (bottom + 8 * j),
        ) == CANARY by {
            mem::lemma_word_same(m@, marked, bottom + 8 * j);
        }
    }
}

/// Writes word `i` of the frame at `base`.
fn put_slot(m: &mut PhysMem, base: u64, i: u64, v: u64)
    requires
        i < 102,
        base + SAVED_FRAME <= old(m)@.len(),
        base < 0x2_0000_0000,
    ensures
        final(m)@.len() == old(m)@.len(),
        forall|a: int|
            0 <= a < old(m)@.len() && !(base <= a < base + SAVED_FRAME) ==> #[trigger] final(m)@[a]
                == old(m)@[a],
        forall|j: int|
            0 <= j < 102 ==> mem::word(final(m)@, #[trigger] (base + 8 * j)) == if j == i {
                v
            } else {
                mem::word(old(m)@, base + 8 * j)
            },
{
    let ghost before = m@;
    m.write_word(base + 8 * i, v);
    proof {
        assert forall|j: int| 0 <= j < 102 && j != i implies mem::word(
            m@,
            #[trigger] (base + 8 * j),
        ) == mem::word(before, base + 8 * j) by {
            mem::lemma_word_same(m@, before, base + 8 * j);
        }
    }
}

/// A stack that nothing runs on any more may be freed.
pub open spec fn reapable(p: PendingFree, stack_ptr: u64) -> bool {
    p.used && !(p.kernel_stack_bottom <= stack_ptr < p.kernel_stack_bottom + p.kernel_stack_pages
        * 4096)
}

pub open spec fn no_pending() -> PendingFree {
    PendingFree { kernel_stack_bottom: 0, kernel_stack_pages: 0, used: false }
}

/// The waiting stacks after those that may be freed among the first `n` are gone.
pub open spec fn reaped(pending: Seq<PendingFree>, stack_ptr: u64, n: int) -> Seq<PendingFree> {
    Seq::new(
        pending.len(),
        |i: int|
            if i < n && reapable(pending[i], stack_ptr) {
                no_pending()
            } else {
                pending[i]
            },
    )
}

/// Frame number `f` belongs to a stack among the first `n` that may be freed.
pub open spec fn in_reaped(pending: Seq<PendingFree>, stack_ptr: u64, n: int, f: int) -> bool {
    exists|i: int|
        0 <= i < n && reapable(#[trigger] pending[i], stack_ptr) && kernel::in_stack(
            pending[i].kernel_stack_bottom,
            pending[i].kernel_stack_pages,
            f,
        )
}

/// What freeing the waiting stacks changes: they are gone, and their frames
/// are free.
pub open spec fn reap_done(k0: Kernel, k1: Kernel, stack_ptr: u64) -> bool {
    &&& k1.mem == k0.mem
    &&& k1.map == k0.map
    &&& k1.ipc == k0.ipc
    &&& k1.registry == k0.registry
    &&& k1.metrics == k0.metrics
    &&& k1.sched.tasks == k0.sched.tasks
    &&& k1.sched.current == k0.sched.current
    &&& k1.sched.hand_off == k0.sched.hand_off
    &&& k1.sched.init_task == k0.sched.init_task
    &&& k1.sched.generations == k0.sched.generations
    &&& k1.sched.kernel_ttbr0 == k0.sched.kernel_ttbr0
    &&& k1.sched.pending@ == reaped(k0.sched.pending@, stack_ptr, MAX_TASKS as int)
    &&& forall|f: int| #[trigger]
        k1.frames@.contains(f) <==> k0.frames@.contains(f) || in_reaped(
            k0.sched.pending@,
            stack_ptr,
            MAX_TASKS as int,
            f,
        )
}

/// Frees one waiting stack.
proof fn lemma_reap_one(
    m: Seq<u8>,
    fa: FrameAllocator,
    fb: FrameAllocator,
    map: KernelMap,
    tasks: Seq<Task>,
    p: Seq<PendingFree>,
    i: int,
)
    requires
        kernel::memory_ok(m, fa, map, tasks, p),
        0 <= i < p.len(),
        p[i].used,
        fb.wf(),
        fb.count() == fb@.len(),
        forall|f: int| #[trigger]
            fb@.contains(f) <==> fa@.contains(f) || kernel::in_stack(
                p[i].kernel_stack_bottom,
                p[i].kernel_stack_pages,
                f,
            ),
    ensures
        kernel::memory_ok(m, fb, map, tasks, p.update(i, no_pending())),
{
    let q = p.update(i, no_pending());
    assert(kernel::stack_ok(p[i].kernel_stack_bottom, p[i].kernel_stack_pages, m.len() as int));
    assert forall|a: Owner, f: int| #[trigger] kernel::uses(map, tasks, q, a, f) implies a
        != Owner::Pending(i) && kernel::uses(map, tasks, p, a, f) by {
        match a {
            Owner::Pending(j) => {
                if j != i {
                    assert(q[j] == p[j]);
                }
            },
            _ => {},
        }
    }
    assert forall|a: Owner, f: int| #[trigger] kernel::uses(map, tasks, q, a, f) implies !fb@.contains(
        f,
    ) by {
        assert(kernel::uses(map, tasks, p, a, f));
        if kernel::in_stack(p[i].kernel_stack_bottom, p[i].kernel_stack_pages, f) {
            assert(kernel::uses(map, tasks, p, Owner::Pending(i), f));
        }
    }
    assert forall|f: int|
        #![trigger fb@.contains(f)]
        map.l1 as int / 4096 <= f && f * 4096 < map.l1 + 8 * map.l1_entries implies !fb@.contains(
        f,
    ) by {
        assert(kernel::uses(map, tasks, q, Owner::Table, f));
    }
    assert forall|k: int| 0 <= k < q.len() && (#[trigger] q[k]).used implies kernel::stack_ok(
        q[k].kernel_stack_bottom,
        q[k].kernel_stack_pages,
        m.len() as int,
    ) by {
        assert(q[k] == p[k]);
    }
}

/// Frees the stacks of retired tasks, except one that `stack_ptr` lies in.
pub fn reap_pending_frees(k: &mut Kernel, stack_ptr: u64)
    requires
        old(k).wf(),
    ensures
        final(k).wf(),
        reap_done(*old(k), *final(k), stack_ptr),
{
    let ghost p = old(k).sched.pending@;
    let mut i: usize = 0;
    assert(reaped(p, stack_ptr, 0) =~= p);
    while i < MAX_TASKS
        invariant
            i <= MAX_TASKS,
            p == old(k).sched.pending@,
            k.wf(),
            k.mem == old(k).mem,
            k.map == old(k).map,
            k.ipc == old(k).ipc,
            k.registry == old(k).registry,
            k.metrics == old(k).metrics,
            k.sched.tasks == old(k).sched.tasks,
            k.sched.current == old(k).sched.current,
            k.sched.hand_off == old(k).sched.hand_off,
            k.sched.init_task == old(k).sched.init_task,
            k.sched.generations == old(k).sched.generations,
            k.sched.kernel_ttbr0 == old(k).sched.kernel_ttbr0,
            k.sched.pending@ == reaped(p, stack_ptr, i as int),
            forall|f: int| #[trigger]
                k.frames@.contains(f) <==> old(k).frames@.contains(f) || in_reaped(
                    p,
                    stack_ptr,
                    i as int,
                    f,
                ),
        decreases MAX_TASKS - i,
    {
        let slot: PendingFree = k.sched.pending[i];
        assert(slot == p[i as int]);
        let ghost fa = k.frames;
        if slot.used {
            assert(kernel::stack_ok(
                k.sched.pending@[i as int].kernel_stack_bottom,
                k.sched.pending@[i as int].kernel_stack_pages,
                k.mem@.len() as int,
            ));
            let end: u64 = slot.kernel_stack_bottom + slot.kernel_stack_pages as u64 * 4096;
            if !(slot.kernel_stack_bottom <= stack_ptr && stack_ptr < end) {
                proof {
                    frame_alloc::lemma_free_finite(k.frames);
                    assert forall|f: int|
                        slot.kernel_stack_bottom as int / 4096 <= f < slot.kernel_stack_bottom as int
                            / 4096 + slot.kernel_stack_pages implies !#[trigger] k.frames@.contains(
                        f,
                    ) by {
                        assert(kernel::uses(
                            k.map,
                            k.sched.tasks@,
                            k.sched.pending@,
                            Owner::Pending(i as int),
                            f,
                        ));
                    }
                }
                frame_alloc::deallocate_contiguous(
                    &mut k.frames,
                    slot.kernel_stack_bottom,
                    slot.kernel_stack_pages,
                );
                proof {
                    lemma_reap_one(
                        k.mem@,
                        fa,
                        k.frames,
                        k.map,
                        k.sched.tasks@,
                        k.sched.pending@,
                        i as int,
                    );
                    context::lemma_waiting_update(
                        k.sched.pending@,
                        i as int,
                        no_pending(),
                        MAX_TASKS as int,
                    );
                }
                k.sched.pending[i] = PendingFree {
                    kernel_stack_bottom: 0,
                    kernel_stack_pages: 0,
                    used: false,
                };
                assert(reapable(p[i as int], stack_ptr));
            }
        }
        proof {
            assert(k.sched.pending@ =~= reaped(p, stack_ptr, i + 1));
            assert forall|f: int| #[trigger] k.frames@.contains(f) <==> old(k).frames@.contains(f)
                || in_reaped(p, stack_ptr, i + 1, f) by {
                if in_reaped(p, stack_ptr, i as int, f) {
                    let j = choose|j: int|
                        0 <= j < i && reapable(#[trigger] p[j], stack_ptr) && kernel::in_stack(
                            p[j].kernel_stack_bottom,
                            p[j].kernel_stack_pages,
                            f,
                        );
                    assert(reapable(p[j], stack_ptr));
                }
                if in_reaped(p, stack_ptr, i + 1, f) {
                    let j = choose|j: int|
                        0 <= j < i + 1 && reapable(#[trigger] p[j], stack_ptr) && kernel::in_stack(
                            p[j].kernel_stack_bottom,
                            p[j].kernel_stack_pages,
                            f,
                        );
                    if j < i {
                        assert(in_reaped(p, stack_ptr, i as int, f));
                    }
                }
            }
        }
        i = i + 1;
    }
}

/// With no stack to spare, nothing stays waiting.
pub proof fn lemma_reap_all(p: Seq<PendingFree>, m: Seq<u8>, size: int)
    requires
        p.len() == MAX_TASKS,
        forall|k: int|
            0 <= k < p.len() && (#[trigger] p[k]).used ==> kernel::stack_ok(
                p[k].kernel_stack_bottom,
                p[k].kernel_stack_pages,
                size,
            ),
    ensures
        forall|k: int| 0 <= k < p.len() ==> !(#[trigger] reaped(p, 0, MAX_TASKS as int)[k]).used,
        context::waiting(reaped(p, 0, MAX_TASKS as int), MAX_TASKS as int) == 0,
{
    let q = reaped(p, 0, MAX_TASKS as int);
    assert forall|k: int| 0 <= k < p.len() implies !(#[trigger] q[k]).used by {
        if p[k].used {
            assert(kernel::stack_ok(p[k].kernel_stack_bottom, p[k].kernel_stack_pages, size));
        }
    }
    context::lemma_waiting_full(q, MAX_TASKS as int);
}

/// Where the user stack ends: the top of the window.
pub const USER_TOP: u64 = 0x4_4000_0000;

/// A page of the user stack.
pub open spec fn stack_page(q: int) -> bool {
    q % 4096 == 0 && USER_TOP - USER_STACK_SIZE <= q < USER_TOP
}

/// A page of the user stack is mapped for reading and writing and holds zeros.
pub open spec fn stack_page_ok(s: AddressSpace, m: Seq<u8>, memory_type: u64, q: int) -> bool {
    let e = s.spec_leaf(m, q);
    let pa = addrspace::target(e);
    &&& e == addrspace::page_entry(pa as u64, memory_type, Perm::ReadWrite)
    &&& addrspace::valid(e)
    &&& forall|o: int| 0 <= o < 4096 ==> m[#[trigger] (pa + o)] == 0
}

/// The space holds exactly the image and the stack: every segment at its
/// place, sixteen zeroed stack pages, and nothing else, so that the page below
/// the stack is a guard.
pub open spec fn user_image(s: AddressSpace, m: Seq<u8>, b: Seq<u8>, memory_type: u64) -> bool {
    let l = elf::layout_of(b);
    &&& forall|k: int, q: int|
        0 <= k < l.phnum && #[trigger] elf::is_load(b, l, k) && #[trigger] elf::seg_page(
            elf::segment(b, l, k),
            q,
        ) ==> elf::page_loaded(s, m, b, elf::segment(b, l, k), memory_type, q)
    &&& forall|q: int| #[trigger] stack_page(q) ==> stack_page_ok(s, m, memory_type, q)
    &&& forall|q: int|
        #![trigger s.mapped(m, q)]
        elf::window_page(q) ==> (s.mapped(m, q) <==> elf::covered(b, l, l.phnum as int, q)
            || stack_page(q))
}

/// The frames of every executable page of the image are in `code`.
pub open spec fn code_listed(s: AddressSpace, m: Seq<u8>, b: Seq<u8>, code: Seq<u64>) -> bool {
    let l = elf::layout_of(b);
    forall|k: int, q: int|
        0 <= k < l.phnum && #[trigger] elf::is_load(b, l, k) && #[trigger] elf::seg_page(
            elf::segment(b, l, k),
            q,
        ) && elf::segment(b, l, k).flags & elf::PF_X != 0 ==> code.contains(
            addrspace::target(s.spec_leaf(m, q)) as u64,
        )
}

/// A space in the making: the frames that left the pool are its own, and
/// memory outside them is untouched.
pub open spec fn building(
    m0: Seq<u8>,
    f0: Set<int>,
    s: AddressSpace,
    m: Seq<u8>,
    fa: FrameAllocator,
) -> bool {
    &&& s.wf(m)
    &&& s.apart(fa@)
    &&& fa.wf()
    &&& fa.count() == fa@.len()
    &&& m.len() == m0.len()
    &&& addrspace::pool_ok(fa@, m.len() as int)
    &&& forall|f: int| #[trigger] fa@.contains(f) ==> f0.contains(f)
    &&& forall|f: int| #[trigger]
        f0.contains(f) && !fa@.contains(f) ==> s.roles().dom().contains(f * 4096)
    &&& forall|x: int| #[trigger]
        s.roles().dom().contains(x) ==> f0.contains(x / 4096) && !fa@.contains(x / 4096)
    &&& forall|a: int|
        #![trigger m[a]]
        0 <= a < m.len() && !s.roles().dom().contains(a - a % 4096) ==> m[a] == m0[a]
}

proof fn lemma_building_grows(
    m0: Seq<u8>,
    f0: Set<int>,
    s: AddressSpace,
    t: AddressSpace,
    m: Seq<u8>,
    n: Seq<u8>,
    fa: FrameAllocator,
    fb: FrameAllocator,
)
    requires
        building(m0, f0, s, m, fa),
        t.grown(s, m, n, fa, fb),
    ensures
        building(m0, f0, t, n, fb),
{
    assert forall|f: int| #[trigger] f0.contains(f) && !fb@.contains(f) implies t.roles().dom().contains(
        f * 4096,
    ) by {
        if fa@.contains(f) {
        } else {
            assert(s.roles().dom().contains(f * 4096));
        }
    }
    assert forall|x: int| #[trigger] t.roles().dom().contains(x) implies f0.contains(x / 4096)
        && !fb@.contains(x / 4096) by {
        if s.roles().dom().contains(x) {
            assert(f0.contains(x / 4096) && !fa@.contains(x / 4096));
        } else {
            assert(fa@.contains(x / 4096));
        }
    }
    assert forall|a: int|
        #![trigger n[a]]
        0 <= a < n.len() && !t.roles().dom().contains(a - a % 4096) implies n[a] == m0[a] by {
        assert(!s.roles().dom().contains(a - a % 4096));
        assert(n[a] == m[a]);
        assert(m[a] == m0[a]);
    }
}

/// What is left of the pool after at most `spent` frames are taken has no run
/// of frames for a kernel stack.
pub open spec fn no_room(f0: Set<int>, left: Set<int>, spent: int) -> bool {
    &&& left.subset_of(f0)
    &&& f0.len() <= left.len() + spent
    &&& forall|t: int| !#[trigger] frame_alloc::run(t, KERNEL_STACK_PAGES as int).subset_of(left)
}

/// Maps the sixteen pages of the user stack.
#[verifier::spinoff_prover]
#[verifier::rlimit(60)]
fn map_stack(
    s: &mut AddressSpace,
    kernel: &KernelMap,
    fa: &mut FrameAllocator,
    m: &mut PhysMem,
) -> (r: Result<(), SpawnError>)
    requires
        old(s).wf(old(m)@),
        old(s).apart(old(fa)@),
        old(fa).wf(),
        addrspace::pool_ok(old(fa)@, old(m)@.len() as int),
        kernel.ram_memory_type & !addrspace::MEMORY_TYPE_MASK == 0,
        forall|q: int| #[trigger] stack_page(q) ==> !old(s).mapped(old(m)@, q),
    ensures
        final(s).grown(*old(s), old(m)@, final(m)@, *old(fa), *final(fa)),
        old(fa)@.len() <= final(fa)@.len() + 48,
        forall|q: int|
            elf::window_page(q) && !stack_page(q) ==> #[trigger] final(s).spec_leaf(final(m)@, q)
                == old(s).spec_leaf(old(m)@, q),
        match r {
            Ok(()) => forall|q: int| #[trigger]
                stack_page(q) ==> stack_page_ok(
                    *final(s),
                    final(m)@,
                    kernel.ram_memory_type,
                    q,
                ),
            Err(e) => e == SpawnError::OutOfMemory && final(fa)@ == Set::<int>::empty(),
        },
{
    let ghost s0 = *old(s);
    let ghost m0 = old(m)@;
    let ghost mt = kernel.ram_memory_type;
    let base: u64 = USER_TOP - USER_STACK_SIZE;
    let mut va: u64 = base;
    proof {
        addrspace::lemma_grown_refl(s0, m0, *fa);
    }
    while va < USER_TOP
        invariant
            base == USER_TOP - USER_STACK_SIZE,
            base <= va <= USER_TOP,
            va % 4096 == 0,
            s0 == *old(s),
            m0 == old(m)@,
            mt == kernel.ram_memory_type,
            kernel.ram_memory_type & !addrspace::MEMORY_TYPE_MASK == 0,
            s.grown(s0, m0, m@, *old(fa), *fa),
            old(fa)@.len() <= fa@.len() + 3 * ((va - base) / 4096),
            forall|q: int| #[trigger] stack_page(q) ==> !s0.mapped(m0, q),
            forall|q: int|
                elf::window_page(q) && !(base <= q < va) ==> #[trigger] s.spec_leaf(m@, q)
                    == s0.spec_leaf(m0, q),
            forall|q: int| #[trigger] stack_page(q) && q < va ==> stack_page_ok(*s, m@, mt, q),
        decreases USER_TOP - va,
    {
        let ghost s1 = *s;
        let ghost m1 = m@;
        let ghost fa1 = *fa;
        proof {
            assert(stack_page(va as int));
            assert(elf::window_page(va as int));
            assert(s1.spec_leaf(m1, va as int) == s0.spec_leaf(m0, va as int));
            frame_alloc::lemma_free_finite(*fa);
        }
        let r: Result<u64, SpaceError> = s.map_new_page(kernel, fa, m, va, Perm::ReadWrite);
        proof {
            frame_alloc::lemma_free_finite(*fa);
            addrspace::lemma_grown_trans(s0, s1, *s, m0, m1, m@, *old(fa), fa1, *fa);
            assert forall|q: int|
                elf::window_page(q) && (q != va || r is Err) implies #[trigger] s.spec_leaf(m@, q)
                == s1.spec_leaf(m1, q) by {
                if q != va && addrspace::l2_index(q) == addrspace::l2_index(va as int)
                    && addrspace::l3_index(q) == addrspace::l3_index(va as int) {
                    elf::lemma_page_slots(q, va as int);
                }
                assert(0 <= addrspace::l2_index(q) < 512 && 0 <= addrspace::l3_index(q) < 512);
            }
        }
        match r {
            Err(_) => {
                proof {
                    assert forall|q: int|
                        elf::window_page(q) && !stack_page(q) implies #[trigger] s.spec_leaf(m@, q)
                        == s0.spec_leaf(m0, q) by {
                        assert(s1.spec_leaf(m1, q) == s0.spec_leaf(m0, q));
                    }
                }
                return Err(SpawnError::OutOfMemory);
            },
            Ok(pa) => {
                proof {
                    addrspace::lemma_page_entry(pa, mt, Perm::ReadWrite);
                    assert(AddressSpace::frame_ok(pa as int, m@.len() as int)) by {
                        assert(s.roles().dom().contains(pa as int));
                    }
                    assert forall|q: int|
                        #[trigger] stack_page(q) && q < va + 4096 implies stack_page_ok(
                        *s,
                        m@,
                        mt,
                        q,
                    ) by {
                        if q == va {
                            assert forall|o: int| 0 <= o < 4096 implies m@[#[trigger] (pa + o)]
                                == 0 by {}
                        } else {
                            assert(elf::window_page(q));
                            lemma_stack_page_kept(s1, *s, m1, m@, fa1, *fa, mt, q);
                        }
                    }
                    assert forall|q: int|
                        elf::window_page(q) && !(base <= q < va
                            + 4096) implies #[trigger] s.spec_leaf(m@, q) == s0.spec_leaf(
                        m0,
                        q,
                    ) by {
                        assert(s1.spec_leaf(m1, q) == s0.spec_leaf(m0, q));
                    }
                }
            },
        }
        va = va + PAGE;
    }
    Ok(())
}

/// A stack page keeps its zeros while the space grows elsewhere.
proof fn lemma_stack_page_kept(
    s: AddressSpace,
    t: AddressSpace,
    m: Seq<u8>,
    n: Seq<u8>,
    fa: FrameAllocator,
    fb: FrameAllocator,
    mt: u64,
    q: int,
)
    requires
        s.wf(m),
        t.grown(s, m, n, fa, fb),
        t.spec_leaf(n, q) == s.spec_leaf(m, q),
        stack_page_ok(s, m, mt, q),
    ensures
        stack_page_ok(t, n, mt, q),
{
    let e = s.spec_leaf(m, q);
    let pa = addrspace::target(e);
    assert(s.owns(pa, Role::Page(addrspace::l2_index(q), addrspace::l3_index(q))));
    assert(s.is_page(pa));
    assert(mem::same_page(m, n, pa));
    assert forall|o: int| 0 <= o < 4096 implies n[#[trigger] (pa + o)] == 0 by {
        assert(m[pa + o] == n[pa + o]);
    }
}

/// Loads the image and maps the stack into a new space.
#[verifier::spinoff_prover]
#[verifier::rlimit(60)]
fn build_space(
    id: u16,
    image: &[u8],
    kernel: &KernelMap,
    fa: &mut FrameAllocator,
    m: &mut PhysMem,
    code: &mut Vec<u64>,
) -> (r: Result<(AddressSpace, u64), SpawnError>)
    requires
        old(fa).wf(),
        old(fa).count() == old(fa)@.len(),
        addrspace::pool_ok(old(fa)@, old(m)@.len() as int),
        kernel.wf(old(m)@.len() as int, old(fa)@),
    ensures
        final(fa).wf(),
        final(fa).count() == final(fa)@.len(),
        final(m)@.len() == old(m)@.len(),
        elf::still_listed(old(code)@, final(code)@),
        forall|a: int|
            0 <= a < old(m)@.len() && !old(fa)@.contains(a / 4096) ==> #[trigger] final(m)@[a]
                == old(m)@[a],
        match r {
            Ok((s, entry)) => {
                &&& building(old(m)@, old(fa)@, s, final(m)@, *final(fa))
                &&& s.spec_asid() == id
                &&& elf::refusal(image@, Set::empty()) is None
                &&& entry == elf::layout_of(image@).entry
                &&& user_image(s, final(m)@, image@, kernel.ram_memory_type)
                &&& code_listed(s, final(m)@, image@, final(code)@)
                &&& old(fa)@.len() <= final(fa)@.len() + frames_bound(image@)
            },
            Err(e) => {
                &&& final(fa)@ == old(fa)@
                &&& spawn_failed(e, image@, old(fa)@)
            },
        },
{
    let ghost m0 = old(m)@;
    let ghost f0 = old(fa)@;
    let ghost mt = kernel.ram_memory_type;
    let ghost l = elf::layout_of(image@);
    let ghost b = image@;
    proof {
        frame_alloc::lemma_free_finite(*old(fa));
        lemma_total_pages_nonneg(b, l, l.phnum as int);
    }
    let mut s: AddressSpace = match AddressSpace::new(id, kernel, fa, m) {
        Err(_) => {
            proof {
                assert(no_room(f0, Set::<int>::empty(), frames_bound(b))) by {
                    lemma_empty_has_no_run();
                }
            }
            return Err(SpawnError::OutOfMemory);
        },
        Ok(s) => s,
    };
    let ghost s1 = s;
    let ghost m1 = m@;
    let ghost fa1 = *fa;
    proof {
        frame_alloc::lemma_free_finite(fa1);
        assert(s1.owns(s1.root(), Role::Root));
        assert(AddressSpace::frame_ok(s1.root(), m1.len() as int));
        assert(building(m0, f0, s1, m1, fa1));
        assert(addrspace::valid(0) == false) by {
            addrspace::lemma_zero_entry();
        }
        assert(elf::mapped_pages(s1, m1) =~= Set::<int>::empty());
    }
    let loaded: Result<u64, &'static str> = elf::load_into(image, &mut s, kernel, fa, m, code);
    let ghost s2 = s;
    let ghost m2 = m@;
    let ghost fa2 = *fa;
    proof {
        frame_alloc::lemma_free_finite(fa2);
        lemma_building_grows(m0, f0, s1, s2, m1, m2, fa1, fa2);
        lemma_building_local(m0, f0, s2, m2, fa2);
    }
    let entry: u64 = match loaded {
        Err(text) => {
            give_back(s, fa, m, Ghost(m0), Ghost(f0));
            return Err(SpawnError::BadImage(text));
        },
        Ok(entry) => entry,
    };
    proof {
        assert forall|q: int| #[trigger] stack_page(q) implies !s2.mapped(m2, q) by {
            assert(elf::window_page(q));
            if elf::covered(b, l, l.phnum as int, q) {
                let k = choose|k: int|
                    0 <= k < l.phnum && #[trigger] elf::is_load(b, l, k) && elf::seg_page(
                        elf::segment(b, l, k),
                        q,
                    );
                elf::lemma_place_ok(b, l, k, l.phnum as int, Set::empty());
            } else {
                assert(s2.spec_leaf(m2, q) == s1.spec_leaf(m1, q));
                addrspace::lemma_zero_entry();
            }
        }
    }
    let stacked: Result<(), SpawnError> = map_stack(&mut s, kernel, fa, m);
    let ghost s3 = s;
    let ghost m3 = m@;
    let ghost fa3 = *fa;
    proof {
        frame_alloc::lemma_free_finite(fa3);
        lemma_building_grows(m0, f0, s2, s3, m2, m3, fa2, fa3);
        lemma_building_local(m0, f0, s3, m3, fa3);
    }
    match stacked {
        Err(e) => {
            give_back(s, fa, m, Ghost(m0), Ghost(f0));
            proof {
                assert(no_room(f0, Set::<int>::empty(), frames_bound(b))) by {
                    lemma_empty_has_no_run();
                }
            }
            return Err(e);
        },
        Ok(()) => {},
    }
    proof {
        assert forall|k: int, q: int|
            0 <= k < l.phnum && #[trigger] elf::is_load(b, l, k) && #[trigger] elf::seg_page(
                elf::segment(b, l, k),
                q,
            ) implies elf::page_loaded(s3, m3, b, elf::segment(b, l, k), mt, q) by {
            elf::lemma_place_ok(b, l, k, l.phnum as int, Set::empty());
            assert(elf::window_page(q));
            assert(!stack_page(q));
            assert(s3.spec_leaf(m3, q) == s2.spec_leaf(m2, q));
            assert(elf::page_loaded(s2, m2, b, elf::segment(b, l, k), mt, q));
            elf::lemma_page_loaded_kept(
                s2,
                s3,
                m2,
                m3,
                fa2,
                fa3,
                b,
                elf::segment(b, l, k),
                mt,
                q,
            );
        }
        assert(code_listed(s3, m3, b, code@)) by {
            assert forall|k: int, q: int|
                0 <= k < l.phnum && #[trigger] elf::is_load(b, l, k) && #[trigger] elf::seg_page(
                    elf::segment(b, l, k),
                    q,
                ) && elf::segment(b, l, k).flags & elf::PF_X != 0 implies code@.contains(
                addrspace::target(s3.spec_leaf(m3, q)) as u64,
            ) by {
                elf::lemma_place_ok(b, l, k, l.phnum as int, Set::empty());
                assert(elf::window_page(q));
                assert(!stack_page(q));
                assert(s3.spec_leaf(m3, q) == s2.spec_leaf(m2, q));
            }
        }
        assert forall|q: int| #![trigger s3.mapped(m3, q)] elf::window_page(q) implies (s3.mapped(
            m3,
            q,
        ) <==> elf::covered(b, l, l.phnum as int, q) || stack_page(q)) by {
            if stack_page(q) {
                assert(stack_page_ok(s3, m3, mt, q));
            } else {
                assert(s3.spec_leaf(m3, q) == s2.spec_leaf(m2, q));
                if elf::covered(b, l, l.phnum as int, q) {
                    let k = choose|k: int|
                        0 <= k < l.phnum && #[trigger] elf::is_load(b, l, k) && elf::seg_page(
                            elf::segment(b, l, k),
                            q,
                        );
                    assert(elf::page_loaded(s3, m3, b, elf::segment(b, l, k), mt, q));
                } else {
                    assert(s2.spec_leaf(m2, q) == s1.spec_leaf(m1, q));
                    addrspace::lemma_zero_entry();
                }
            }
        }
    }
    Ok((s, entry))
}

/// The most frames that an image and its stack can take.
pub open spec fn frames_bound(b: Seq<u8>) -> int {
    1 + 3 * elf::total_pages(b, elf::layout_of(b), elf::layout_of(b).phnum as int) + 48
}

/// Why a user task could not be built: the image is refused (or memory ran out
/// while it was loaded), or what memory was left had no room.
pub open spec fn spawn_failed(e: SpawnError, b: Seq<u8>, f0: Set<int>) -> bool {
    match e {
        SpawnError::NoSlot => false,
        SpawnError::BadImage(text) => elf::refusal(b, Set::empty()) == Some(text@) || (text@
            == "out of memory"@ && elf::image_error(b) is None && f0.len() < frames_bound(b)),
        SpawnError::OutOfMemory => exists|left: Set<int>| #[trigger]
            no_room(f0, left, frames_bound(b)),
    }
}

proof fn lemma_empty_has_no_run()
    ensures
        forall|t: int|
            !#[trigger] frame_alloc::run(t, KERNEL_STACK_PAGES as int).subset_of(
                Set::<int>::empty(),
            ),
{
    assert forall|t: int|
        !#[trigger] frame_alloc::run(t, KERNEL_STACK_PAGES as int).subset_of(
            Set::<int>::empty(),
        ) by {
        assert(frame_alloc::run(t, KERNEL_STACK_PAGES as int).contains(t));
    }
}

proof fn lemma_total_pages_nonneg(b: Seq<u8>, l: elf::ImageLayout, n: int)
    ensures
        elf::total_pages(b, l, n) >= 0,
    decreases n,
{
    if n > 0 {
        lemma_total_pages_nonneg(b, l, n - 1);
    }
}

/// A space in the making touches only frames that were free.
proof fn lemma_building_local(
    m0: Seq<u8>,
    f0: Set<int>,
    s: AddressSpace,
    m: Seq<u8>,
    fa: FrameAllocator,
)
    requires
        building(m0, f0, s, m, fa),
    ensures
        forall|a: int|
            0 <= a < m0.len() && !f0.contains(a / 4096) ==> #[trigger] m[a] == m0[a],
{
    assert forall|a: int| 0 <= a < m0.len() && !f0.contains(a / 4096) implies #[trigger] m[a]
        == m0[a] by {
        let x = a - a % 4096;
        assert(x / 4096 == a / 4096);
        if s.roles().dom().contains(x) {
            assert(f0.contains(x / 4096));
        }
    }
}

/// Gives back every frame of a space in the making.
fn give_back(
    s: AddressSpace,
    fa: &mut FrameAllocator,
    m: &PhysMem,
    Ghost(m0): Ghost<Seq<u8>>,
    Ghost(f0): Ghost<Set<int>>,
)
    requires
        building(m0, f0, s, m@, *old(fa)),
    ensures
        final(fa).wf(),
        final(fa)@ == f0,
        final(fa).count() == final(fa)@.len(),
{
    proof {
        frame_alloc::lemma_free_finite(*old(fa));
        addrspace::lemma_frames_bounded(s, m@);
    }
    s.release(fa, m);
    proof {
        assert forall|f: int| #[trigger] fa@.contains(f) <==> f0.contains(f) by {
            if s.roles().dom().contains(f * 4096) {
                assert(f0.contains((f * 4096) / 4096));
            }
        }
        assert(fa@ =~= f0);
        addrspace::lemma_released_count(s, m@, *old(fa), *fa);
    }
}

/// The registers that a user task starts with.
pub open spec fn user_regs(arg0: u64, arg1: u64, entry: u64) -> Regs {
    Regs { x0: arg0, x1: arg1, x30: 0, sp_el0: USER_TOP, elr: entry, spsr: 0 }
}

/// The registers that a kernel task starts with.
pub open spec fn kernel_regs(entry: u64) -> Regs {
    Regs { x0: 0, x1: 0, x30: entry, sp_el0: 0, elr: entry, spsr: 5 }
}

/// Frame number `f` is one that task `t` stands on.
pub open spec fn task_uses(t: Task, f: int) -> bool {
    ||| t.space matches Some(s) && s.roles().dom().contains(f * 4096)
    ||| kernel::in_stack(t.kernel_stack_bottom, t.kernel_stack_pages, f)
}

/// A ready task with a fresh kernel stack, whose frames came out of `f0` and
/// left `f1`.
pub open spec fn new_task(
    t: Task,
    m: Seq<u8>,
    f0: Set<int>,
    f1: Set<int>,
    regs: Regs,
) -> bool {
    &&& t.state == State::Ready
    &&& t.wait is None
    &&& t.shape()
    &&& kernel::task_mem_ok(t, m)
    &&& t.kernel_stack_pages == KERNEL_STACK_PAGES
    &&& t.sp == t.kernel_stack_bottom + KERNEL_STACK_SIZE - SAVED_FRAME
    &&& fresh_stack(m, t.kernel_stack_bottom as int, regs)
    &&& forall|f: int| #[trigger] f1.contains(f) <==> f0.contains(f) && !task_uses(t, f)
    &&& forall|f: int| #[trigger] task_uses(t, f) ==> f0.contains(f)
    &&& t.space matches Some(s) ==> forall|f: int|
        #![trigger s.roles().dom().contains(f * 4096)]
        kernel::in_stack(t.kernel_stack_bottom, t.kernel_stack_pages, f)
            ==> !s.roles().dom().contains(f * 4096)
}

/// The stack that starts at a run of free frames.
proof fn lemma_stack_from_run(fa: FrameAllocator, size: int, bottom: u64)
    requires
        addrspace::pool_ok(fa@, size),
        bottom % 4096 == 0,
        frame_alloc::run(bottom as int / 4096, KERNEL_STACK_PAGES as int).subset_of(fa@),
    ensures
        kernel::stack_ok(bottom, KERNEL_STACK_PAGES, size),
        forall|f: int| #[trigger]
            kernel::in_stack(bottom, KERNEL_STACK_PAGES, f) == frame_alloc::run(
                bottom as int / 4096,
                KERNEL_STACK_PAGES as int,
            ).contains(f),
{
    let s = bottom as int / 4096;
    let r = frame_alloc::run(s, KERNEL_STACK_PAGES as int);
    assert(r.contains(s));
    assert(r.contains(s + 7));
    assert(fa@.contains(s));
    assert(fa@.contains(s + 7));
    frame_alloc::law_free_frames_in_range(fa, s);
    frame_alloc::law_free_frames_in_range(fa, s + 7);
}

/// Builds the task for slot `id`, whose number is also the number of its
/// address space. On an error everything taken is given back.
fn build_el0(
    id: usize,
    image: &[u8],
    handles: HandleTable,
    arg0: u64,
    arg1: u64,
    kernel: &KernelMap,
    fa: &mut FrameAllocator,
    m: &mut PhysMem,
    code: &mut Vec<u64>,
) -> (r: Result<(Task, u64), SpawnError>)
    requires
        id < MAX_TASKS,
        handles.wf(),
        old(fa).wf(),
        old(fa).count() == old(fa)@.len(),
        addrspace::pool_ok(old(fa)@, old(m)@.len() as int),
        kernel.wf(old(m)@.len() as int, old(fa)@),
    ensures
        final(fa).wf(),
        final(fa).count() == final(fa)@.len(),
        final(m)@.len() == old(m)@.len(),
        elf::still_listed(old(code)@, final(code)@),
        forall|a: int|
            0 <= a < old(m)@.len() && !old(fa)@.contains(a / 4096) ==> #[trigger] final(m)@[a]
                == old(m)@[a],
        match r {
            Ok((t, entry)) => {
                &&& elf::refusal(image@, Set::empty()) is None
                &&& entry == elf::layout_of(image@).entry
                &&& new_task(
                    t,
                    final(m)@,
                    old(fa)@,
                    final(fa)@,
                    user_regs(arg0, arg1, entry),
                )
                &&& t.handles == handles
                &&& user_task(t, final(m)@, id, image@, kernel.ram_memory_type)
                &&& code_listed(t.space.unwrap(), final(m)@, image@, final(code)@)
            },
            Err(e) => final(fa)@ == old(fa)@ && spawn_failed(e, image@, old(fa)@),
        },
{
    let ghost m0 = old(m)@;
    let ghost f0 = old(fa)@;
    let (s, entry): (AddressSpace, u64) = match build_space(id as u16, image, kernel, fa, m, code) {
        Err(e) => {
            return Err(e);
        },
        Ok((s, entry)) => (s, entry),
    };
    let ghost m1 = m@;
    let ghost fa1 = *fa;
    proof {
        frame_alloc::lemma_free_finite(*old(fa));
        frame_alloc::lemma_free_finite(fa1);
        lemma_building_local(m0, f0, s, m1, fa1);
    }
    let bottom: u64 = match frame_alloc::allocate_contiguous(fa, KERNEL_STACK_PAGES) {
        None => {
            proof {
                assert(fa1@.subset_of(f0));
                assert(no_room(f0, fa1@, frames_bound(image@)));
            }
            give_back(s, fa, m, Ghost(m0), Ghost(f0));
            return Err(SpawnError::OutOfMemory);
        },
        Some(bottom) => bottom,
    };
    proof {
        lemma_stack_from_run(fa1, m1.len() as int, bottom);
        frame_alloc::lemma_free_finite(*fa);
        frame_alloc::lemma_run_taken(fa1, *fa, bottom as int / 4096, KERNEL_STACK_PAGES as int);
    }
    prepare_stack(
        m,
        bottom,
        Regs { x0: arg0, x1: arg1, x30: 0, sp_el0: USER_TOP, elr: entry, spsr: 0 },
    );
    proof {
        assert forall|x: int| #[trigger] s.roles().dom().contains(x) implies mem::same_page(
            m1,
            m@,
            x,
        ) by {
            assert(AddressSpace::frame_ok(x, m1.len() as int));
            assert forall|a: int| x <= a < x + 4096 implies #[trigger] m1[a] == m@[a] by {
                if bottom <= a < bottom + KERNEL_STACK_SIZE {
                    assert(a / 4096 == x / 4096);
                    assert(kernel::in_stack(bottom, KERNEL_STACK_PAGES, a / 4096));
                    assert(fa1@.contains(x / 4096));
                }
            }
        }
        addrspace::lemma_tables_kept(s, m1, m@);
        lemma_user_image_kept(s, m1, m@, image@, kernel.ram_memory_type);
        assert forall|q: int| #[trigger] s.spec_leaf(m@, q) == s.spec_leaf(m1, q) by {
            assert(0 <= addrspace::l2_index(q) < 512 && 0 <= addrspace::l3_index(q) < 512);
        }
        assert(code_listed(s, m@, image@, code@));
        assert forall|a: int| 0 <= a < m0.len() && !f0.contains(a / 4096) implies #[trigger] m@[a]
            == m0[a] by {
            if bottom <= a < bottom + KERNEL_STACK_SIZE {
                assert(kernel::in_stack(bottom, KERNEL_STACK_PAGES, a / 4096));
                assert(fa1@.contains(a / 4096));
            }
            assert(m1[a] == m0[a]);
        }
        assert(s.owns(s.root(), Role::Root));
        assert(AddressSpace::frame_ok(s.root(), m@.len() as int));
    }
    let ttbr0: u64 = s.ttbr0();
    let t = Task {
        sp: bottom + KERNEL_STACK_SIZE - SAVED_FRAME,
        kernel_stack_bottom: bottom,
        kernel_stack_pages: KERNEL_STACK_PAGES,
        ttbr0,
        space: Some(s),
        handles,
        wait: None,
        state: State::Ready,
    };
    proof {
        assert forall|f: int| kernel::in_stack(bottom, KERNEL_STACK_PAGES, f) implies
            !#[trigger] s.roles().dom().contains(f * 4096) by {
            assert(fa1@.contains(f));
            if s.roles().dom().contains(f * 4096) {
                assert(!fa1@.contains((f * 4096) / 4096));
            }
        }
        assert forall|f: int| #[trigger] fa@.contains(f) <==> f0.contains(f) && !task_uses(t, f) by {
            if s.roles().dom().contains(f * 4096) {
                assert(!fa1@.contains((f * 4096) / 4096));
            }
        }
        assert forall|f: int| #[trigger] task_uses(t, f) implies f0.contains(f) by {
            if s.roles().dom().contains(f * 4096) {
                assert(f0.contains((f * 4096) / 4096));
            } else {
                assert(fa1@.contains(f));
            }
        }
    }
    Ok((t, entry))
}

/// A user task: its space holds the image and the stack, and its table is the
/// one that it runs on.
pub open spec fn user_task(t: Task, m: Seq<u8>, id: usize, b: Seq<u8>, memory_type: u64) -> bool {
    t.space matches Some(s) && s.spec_asid() == id as u16 && t.ttbr0 == s.root() + (id as u16)
        * 0x1_0000_0000_0000 && user_image(s, m, b, memory_type)
}

/// The image and the stack are in the space's own frames.
proof fn lemma_user_image_kept(s: AddressSpace, m: Seq<u8>, n: Seq<u8>, b: Seq<u8>, mt: u64)
    requires
        s.wf(m),
        s.wf(n),
        m.len() == n.len(),
        user_image(s, m, b, mt),
        forall|x: int| #[trigger] s.roles().dom().contains(x) ==> mem::same_page(m, n, x),
        forall|i: int, j: int|
            0 <= i < 512 && 0 <= j < 512 ==> #[trigger] addrspace::leaf(n, s.root(), i, j)
                == addrspace::leaf(m, s.root(), i, j),
    ensures
        user_image(s, n, b, mt),
{
    let l = elf::layout_of(b);
    assert forall|q: int| #[trigger] s.spec_leaf(n, q) == s.spec_leaf(m, q) by {
        assert(0 <= addrspace::l2_index(q) < 512 && 0 <= addrspace::l3_index(q) < 512);
    }
    assert forall|q: int, o: int|
        addrspace::valid(s.spec_leaf(m, q)) && 0 <= o < 4096 implies n[#[trigger] (addrspace::target(
        s.spec_leaf(m, q),
    ) + o)] == m[addrspace::target(s.spec_leaf(m, q)) + o] by {
        assert(0 <= addrspace::l2_index(q) < 512 && 0 <= addrspace::l3_index(q) < 512);
        let pa = addrspace::target(s.spec_leaf(m, q));
        assert(s.owns(pa, Role::Page(addrspace::l2_index(q), addrspace::l3_index(q))));
        assert(mem::same_page(m, n, pa));
        assert(m[pa + o] == n[pa + o]);
    }
    assert forall|k: int, q: int|
        0 <= k < l.phnum && #[trigger] elf::is_load(b, l, k) && #[trigger] elf::seg_page(
            elf::segment(b, l, k),
            q,
        ) implies elf::page_loaded(s, n, b, elf::segment(b, l, k), mt, q) by {
        assert(elf::page_loaded(s, m, b, elf::segment(b, l, k), mt, q));
    }
    assert forall|q: int| #[trigger] stack_page(q) implies stack_page_ok(s, n, mt, q) by {
        assert(stack_page_ok(s, m, mt, q));
    }
    assert forall|q: int| #![trigger s.mapped(n, q)] elf::window_page(q) implies (s.mapped(n, q)
        <==> elf::covered(b, l, l.phnum as int, q) || stack_page(q)) by {
        assert(s.mapped(m, q) <==> elf::covered(b, l, l.phnum as int, q) || stack_page(q));
    }
}

/// A slot with nothing in it.
pub open spec fn is_vacant(t: Task) -> bool {
    &&& t.sp == 0
    &&& t.kernel_stack_bottom == 0
    &&& t.kernel_stack_pages == 0
    &&& t.ttbr0 == 0
    &&& t.space is None
    &&& t.handles.wf()
    &&& forall|i: int| 0 <= i < t.handles@.len() ==> #[trigger] t.handles@[i] is None
    &&& t.wait is None
    &&& t.state == State::Free
}

pub(crate) fn vacant() -> (t: Task)
    ensures
        is_vacant(t),
        t.shape(),
{
    Task {
        sp: 0,
        kernel_stack_bottom: 0,
        kernel_stack_pages: 0,
        ttbr0: 0,
        space: None,
        handles: HandleTable::empty(),
        wait: None,
        state: State::Free,
    }
}

/// The lowest free slot above 0, or 16 when there is none.
pub open spec fn free_slot(tasks: Seq<Task>, from: int) -> int
    decreases MAX_TASKS - from,
{
    if from >= MAX_TASKS {
        MAX_TASKS as int
    } else if tasks[from].state == State::Free {
        from
    } else {
        free_slot(tasks, from + 1)
    }
}

/// Claims a free slot for a spawn, which then fills it with `install` or gives
/// it back with `release`.
fn claim_slot(k: &mut Kernel) -> (r: Option<usize>)
    requires
        old(k).wf(),
    ensures
        final(k).wf(),
        final(k).same_tables(*old(k)),
        final(k).mem == old(k).mem,
        final(k).ipc == old(k).ipc,
        final(k).metrics == old(k).metrics,
        final(k).sched.same_but_tasks(old(k).sched),
        match r {
            Some(id) => {
                &&& 1 <= id < MAX_TASKS
                &&& id == free_slot(old(k).sched.tasks@, 1)
                &&& old(k).sched.tasks@[id as int].state == State::Free
                &&& final(k).sched.tasks@ == old(k).sched.tasks@.update(
                    id as int,
                    Task { state: State::Reserved, ..old(k).sched.tasks@[id as int] },
                )
            },
            None => free_slot(old(k).sched.tasks@, 1) == MAX_TASKS && final(k).sched == old(k).sched,
        },
{
    let mut id: usize = 1;
    while id < MAX_TASKS
        invariant
            1 <= id <= MAX_TASKS,
            *k == *old(k),
            k.wf(),
            free_slot(k.sched.tasks@, 1) == free_slot(k.sched.tasks@, id as int),
        decreases MAX_TASKS - id,
    {
        let free: bool = match k.sched.tasks[id].state {
            State::Free => true,
            _ => false,
        };
        if free {
            proof {
                assert(k.sched.tasks@[id as int].shape());
            }
            k.sched.tasks[id].state = State::Reserved;
            proof {
                let t0 = old(k).sched.tasks@;
                let t1 = k.sched.tasks@;
                context::lemma_stacks_same(t0, t1, MAX_TASKS as int);
                assert forall|i: int|
                    0 <= i < MAX_TASKS && (#[trigger] t1[i]).kernel_stack_pages
                        > 0 implies kernel::sp_ok(t1[i].sp, t1[i].kernel_stack_bottom) by {
                    assert(kernel::task_mem_ok(t0[i], k.mem@));
                }
                kernel::lemma_tasks_kept(k.mem@, k.frames, k.map, t0, t1, k.sched.pending@);
            }
            return Some(id);
        }
        id = id + 1;
    }
    None
}

/// A slot without stack and space may change hands without touching memory.
proof fn lemma_swap_empty(
    m: Seq<u8>,
    frames: FrameAllocator,
    map: KernelMap,
    tasks: Seq<Task>,
    id: int,
    t: Task,
    pending: Seq<PendingFree>,
)
    requires
        kernel::memory_ok(m, frames, map, tasks, pending),
        0 <= id < tasks.len(),
        tasks[id].is_empty(),
        t.is_empty(),
    ensures
        kernel::memory_ok(m, frames, map, tasks.update(id, t), pending),
{
    let tasks2 = tasks.update(id, t);
    assert forall|i: int| 0 <= i < tasks2.len() implies kernel::task_mem_ok(
        #[trigger] tasks2[i],
        m,
    ) by {
        assert(kernel::task_mem_ok(tasks[i], m));
    }
    assert forall|a: Owner, f: int| #[trigger] kernel::uses(map, tasks2, pending, a, f) implies
        kernel::uses(map, tasks, pending, a, f) by {
        match a {
            Owner::Space(i) => {
                assert(0 <= i < tasks2.len());
            },
            Owner::Stack(i) => {
                assert(0 <= i < tasks2.len());
            },
            _ => {},
        }
    }
}

/// Gives back a slot claimed by `claim_slot` whose spawn failed.
fn release(k: &mut Kernel, id: usize)
    requires
        old(k).wf(),
        1 <= id < MAX_TASKS,
        old(k).sched.tasks@[id as int].state == State::Reserved,
    ensures
        final(k).wf(),
        final(k).same_tables(*old(k)),
        final(k).mem == old(k).mem,
        final(k).ipc == old(k).ipc,
        final(k).metrics == old(k).metrics,
        final(k).sched.same_but_tasks(old(k).sched),
        is_vacant(final(k).sched.tasks@[id as int]),
        final(k).sched.tasks@ == old(k).sched.tasks@.update(
            id as int,
            final(k).sched.tasks@[id as int],
        ),
{
    let t: Task = vacant();
    let ghost gt = t;
    proof {
        assert(k.sched.tasks@[id as int].shape());
        lemma_swap_empty(
            k.mem@,
            k.frames,
            k.map,
            k.sched.tasks@,
            id as int,
            gt,
            k.sched.pending@,
        );
        context::lemma_stacks_update(k.sched.tasks@, id as int, gt, MAX_TASKS as int);
    }
    k.sched.tasks[id] = t;
}

/// Putting a new task into an empty slot: its frames came out of the pool, and
/// memory changed only where frames were free.
proof fn lemma_add_task(
    m0: Seq<u8>,
    m1: Seq<u8>,
    fa0: FrameAllocator,
    fa1: FrameAllocator,
    map: KernelMap,
    tasks: Seq<Task>,
    pending: Seq<PendingFree>,
    id: int,
    t: Task,
    regs: Regs,
)
    requires
        kernel::memory_ok(m0, fa0, map, tasks, pending),
        m1.len() == m0.len(),
        0 <= id < tasks.len(),
        tasks[id].is_empty(),
        fa1.wf(),
        fa1.count() == fa1@.len(),
        new_task(t, m1, fa0@, fa1@, regs),
        forall|a: int|
            0 <= a < m0.len() && !fa0@.contains(a / 4096) ==> #[trigger] m1[a] == m0[a],
    ensures
        kernel::memory_ok(m1, fa1, map, tasks.update(id, t), pending),
{
    lemma_free_memory_changed(m0, m1, fa0, map, tasks, pending);
    let tasks2 = tasks.update(id, t);
    assert forall|i: int| 0 <= i < tasks2.len() implies kernel::task_mem_ok(
        #[trigger] tasks2[i],
        m1,
    ) by {
        assert(kernel::task_mem_ok(tasks[i], m1));
    }
    assert forall|a: Owner, f: int| #[trigger]
        kernel::uses(map, tasks2, pending, a, f) && a != Owner::Space(id) && a != Owner::Stack(
            id,
        ) implies kernel::uses(map, tasks, pending, a, f) && !fa0@.contains(f) by {
        match a {
            Owner::Space(i) => {
                assert(tasks2[i] == tasks[i]);
            },
            Owner::Stack(i) => {
                assert(tasks2[i] == tasks[i]);
            },
            _ => {},
        }
        assert(kernel::uses(map, tasks, pending, a, f));
    }
    assert forall|a: Owner, f: int| #[trigger]
        kernel::uses(map, tasks2, pending, a, f) && (a == Owner::Space(id) || a == Owner::Stack(
            id,
        )) implies task_uses(t, f) && fa0@.contains(f) by {
        assert(task_uses(t, f));
    }
    assert forall|a: Owner, b: Owner, f: int| #[trigger]
        kernel::uses(map, tasks2, pending, a, f) && #[trigger] kernel::uses(
            map,
            tasks2,
            pending,
            b,
            f,
        ) implies a == b by {
        if a == Owner::Space(id) && b == Owner::Stack(id) || a == Owner::Stack(id) && b
            == Owner::Space(id) {
            let s = t.space.unwrap();
            assert(s.roles().dom().contains(f * 4096));
        }
        if a != Owner::Space(id) && a != Owner::Stack(id) {
            assert(kernel::uses(map, tasks, pending, a, f));
        }
        if b != Owner::Space(id) && b != Owner::Stack(id) {
            assert(kernel::uses(map, tasks, pending, b, f));
        }
    }
    assert forall|a: Owner, f: int| #[trigger] kernel::uses(map, tasks2, pending, a, f) implies
        !fa1@.contains(f) by {
        if a != Owner::Space(id) && a != Owner::Stack(id) {
            assert(!fa0@.contains(f));
        } else {
            assert(task_uses(t, f));
        }
    }
    assert forall|f: int| #[trigger] fa1@.contains(f) implies 0 < f && (f + 1) * 4096
        <= m1.len() by {
        assert(fa0@.contains(f));
    }
    assert forall|f: int|
        #![trigger fa1@.contains(f)]
        map.l1 as int / 4096 <= f && f * 4096 < map.l1 + 8 * map.l1_entries implies !fa1@.contains(
        f,
    ) by {
        assert(!fa0@.contains(f));
    }
}

/// Memory that changes only in free frames disturbs nobody.
proof fn lemma_free_memory_changed(
    m0: Seq<u8>,
    m1: Seq<u8>,
    fa: FrameAllocator,
    map: KernelMap,
    tasks: Seq<Task>,
    pending: Seq<PendingFree>,
)
    requires
        kernel::memory_ok(m0, fa, map, tasks, pending),
        m1.len() == m0.len(),
        forall|a: int|
            0 <= a < m0.len() && !fa@.contains(a / 4096) ==> #[trigger] m1[a] == m0[a],
    ensures
        kernel::memory_ok(m1, fa, map, tasks, pending),
{
    assert forall|i: int, x: int|
        0 <= i < tasks.len() && (#[trigger] tasks[i]).space is Some
            && #[trigger] tasks[i].space.unwrap().is_table(x) implies mem::same_page(
        m0,
        m1,
        x,
    ) by {
        assert(kernel::task_mem_ok(tasks[i], m0));
        assert(AddressSpace::frame_ok(x, m0.len() as int));
        let f = x / 4096;
        assert(f * 4096 == x);
        assert(kernel::uses(map, tasks, pending, Owner::Space(i), f));
        assert forall|a: int| x <= a < x + 4096 implies #[trigger] m0[a] == m1[a] by {
            assert(a / 4096 == f);
        }
    }
    kernel::lemma_memory_kept(m0, m1, fa, map, tasks, pending);
}

/// The task in slot `id` is new; every other slot, and everything beside the
/// tasks, is as before.
pub open spec fn task_installed(k0: Kernel, k1: Kernel, id: int) -> bool {
    &&& 1 <= id < MAX_TASKS
    &&& k1.sched.tasks@ == k0.sched.tasks@.update(id, k1.sched.tasks@[id])
    &&& k1.sched.generations@ == k0.sched.generations@.update(
        id,
        k0.sched.generations@[id].wrapping_add(1),
    )
    &&& k1.sched.current == k0.sched.current
    &&& k1.sched.hand_off == k0.sched.hand_off
    &&& k1.sched.init_task == k0.sched.init_task
    &&& k1.sched.kernel_ttbr0 == k0.sched.kernel_ttbr0
    &&& k1.map == k0.map
    &&& k1.ipc == k0.ipc
    &&& k1.registry == k0.registry
    &&& k1.metrics == k0.metrics
}

/// Fills a claimed slot with a ready task and counts its generation.
fn install(k: &mut Kernel, id: usize, task: Task) -> (r: TaskRef)
    requires
        old(k).sched.wf(),
        old(k).ipc.wf(),
        old(k).registry.wf(),
        old(k).metrics.wf(),
        1 <= id < MAX_TASKS,
        old(k).sched.tasks@[id as int].state == State::Reserved,
        context::waiting(old(k).sched.pending@, MAX_TASKS as int) == 0,
        task.shape(),
        task.state == State::Ready,
        kernel::memory_ok(
            old(k).mem@,
            old(k).frames,
            old(k).map,
            old(k).sched.tasks@.update(id as int, task),
            old(k).sched.pending@,
        ),
    ensures
        final(k).wf(),
        task_installed(*old(k), *final(k), id as int),
        final(k).sched.tasks@[id as int] == task,
        final(k).sched.pending == old(k).sched.pending,
        final(k).mem == old(k).mem,
        final(k).frames == old(k).frames,
        r.id == id,
        r.generation == final(k).sched.generations@[id as int],
{
    let ghost gt = task;
    proof {
        assert(k.sched.tasks@[id as int].shape());
        context::lemma_stacks_update(k.sched.tasks@, id as int, gt, MAX_TASKS as int);
        lemma_two_without_stack(k.sched.tasks@, 0, id as int, MAX_TASKS as int);
    }
    k.sched.tasks[id] = task;
    k.sched.generations[id] = k.sched.generations[id].wrapping_add(1);
    TaskRef { id: id as u16, generation: k.sched.generations[id] }
}

/// Two slots without a stack leave room for one more among the rest.
proof fn lemma_two_without_stack(tasks: Seq<Task>, i: int, j: int, n: int)
    requires
        0 <= i < j < n <= tasks.len(),
        tasks[i].kernel_stack_pages == 0,
        tasks[j].kernel_stack_pages == 0,
    ensures
        context::stacks(tasks, n) <= n - 2,
    decreases n,
{
    if j == n - 1 {
        lemma_one_without_stack(tasks, i, n - 1);
    } else {
        lemma_two_without_stack(tasks, i, j, n - 1);
    }
}

proof fn lemma_one_without_stack(tasks: Seq<Task>, i: int, n: int)
    requires
        0 <= i < n <= tasks.len(),
        tasks[i].kernel_stack_pages == 0,
    ensures
        context::stacks(tasks, n) <= n - 1,
    decreases n,
{
    context::lemma_stacks_bound(tasks, n - 1);
    if i < n - 1 {
        lemma_one_without_stack(tasks, i, n - 1);
    }
}

/// The frames that are free once every waiting stack has been freed.
pub open spec fn free_after_reap(k: Kernel) -> Set<int> {
    Set::new(
        |f: int|
            k.frames@.contains(f) || in_reaped(k.sched.pending@, 0, MAX_TASKS as int, f),
    )
}

/// A spawn that failed left everything as it was, but for the waiting stacks,
/// which are freed, and for bytes in free frames.
pub open spec fn spawn_undone(k0: Kernel, k1: Kernel) -> bool {
    &&& forall|i: int|
        0 <= i < MAX_TASKS ==> #[trigger] k1.sched.tasks@[i] == k0.sched.tasks@[i] || (is_vacant(
            k1.sched.tasks@[i],
        ) && k0.sched.tasks@[i].state == State::Free)
    &&& k1.sched.generations == k0.sched.generations
    &&& k1.sched.current == k0.sched.current
    &&& k1.sched.hand_off == k0.sched.hand_off
    &&& k1.sched.init_task == k0.sched.init_task
    &&& k1.sched.kernel_ttbr0 == k0.sched.kernel_ttbr0
    &&& k1.map == k0.map
    &&& k1.ipc == k0.ipc
    &&& k1.registry == k0.registry
    &&& k1.metrics == k0.metrics
    &&& k1.frames@ == free_after_reap(k0)
}

/// Memory outside the frames in `free` is the same.
pub open spec fn kept_outside(m: Seq<u8>, n: Seq<u8>, free: Set<int>) -> bool {
    &&& n.len() == m.len()
    &&& forall|a: int| 0 <= a < m.len() && !free.contains(a / 4096) ==> #[trigger] n[a] == m[a]
}

/// What starting a kernel task at `entry` changes, and what it returns.
pub open spec fn kernel_task_started(
    k0: Kernel,
    k1: Kernel,
    entry: u64,
    r: Result<TaskRef, SpawnError>,
) -> bool {
    let id = free_slot(k0.sched.tasks@, 1);
    let t = k1.sched.tasks@[id];
    &&& kept_outside(k0.mem@, k1.mem@, free_after_reap(k0))
    &&& match r {
        Ok(task) => {
            &&& task.id == id
            &&& task.generation == k1.sched.generations@[id]
            &&& task_installed(k0, k1, id)
            &&& new_task(t, k1.mem@, free_after_reap(k0), k1.frames@, kernel_regs(entry))
            &&& t.space is None
            &&& t.ttbr0 == k0.sched.kernel_ttbr0
            &&& forall|i: int| 0 <= i < t.handles@.len() ==> #[trigger] t.handles@[i] is None
        },
        Err(e) => {
            &&& spawn_undone(k0, k1)
            &&& e == if id == MAX_TASKS {
                SpawnError::NoSlot
            } else {
                SpawnError::OutOfMemory
            }
            &&& e == SpawnError::OutOfMemory ==> forall|s: int|
                !#[trigger] frame_alloc::run(s, KERNEL_STACK_PAGES as int).subset_of(
                    free_after_reap(k0),
                )
        },
    }
}

/// What starting a user task from `image` changes, and what it returns.
pub open spec fn user_task_started(
    k0: Kernel,
    k1: Kernel,
    image: Seq<u8>,
    handles: HandleTable,
    arg0: u64,
    arg1: u64,
    r: Result<TaskRef, SpawnError>,
) -> bool {
    let id = free_slot(k0.sched.tasks@, 1);
    let t = k1.sched.tasks@[id];
    &&& kept_outside(k0.mem@, k1.mem@, free_after_reap(k0))
    &&& match r {
        Ok(task) => {
            &&& task.id == id
            &&& task.generation == k1.sched.generations@[id]
            &&& task_installed(k0, k1, id)
            &&& elf::refusal(image, Set::empty()) is None
            &&& new_task(
                t,
                k1.mem@,
                free_after_reap(k0),
                k1.frames@,
                user_regs(arg0, arg1, elf::layout_of(image).entry),
            )
            &&& t.handles == handles
            &&& user_task(t, k1.mem@, id as usize, image, k0.map.ram_memory_type)
        },
        Err(e) => {
            &&& spawn_undone(k0, k1)
            &&& if id == MAX_TASKS {
                e == SpawnError::NoSlot
            } else {
                spawn_failed(e, image, free_after_reap(k0))
            }
        },
    }
}

/// Starts a kernel task at `entry`, with interrupts open.
pub fn spawn(k: &mut Kernel, entry: u64) -> (r: Result<TaskRef, SpawnError>)
    requires
        old(k).wf(),
    ensures
        final(k).wf(),
        kernel_task_started(*old(k), *final(k), entry, r),
{
    reap_pending_frees(k, 0);
    let ghost k1 = *k;
    proof {
        assert(k1.frames@ =~= free_after_reap(*old(k)));
        lemma_reap_all(old(k).sched.pending@, k.mem@, k.mem@.len() as int);
        frame_alloc::lemma_free_finite(k1.frames);
    }
    let id: usize = match claim_slot(k) {
        None => {
            return Err(SpawnError::NoSlot);
        },
        Some(id) => id,
    };
    let ghost k2 = *k;
    let bottom: u64 = match frame_alloc::allocate_contiguous(&mut k.frames, KERNEL_STACK_PAGES) {
        None => {
            release(k, id);
            return Err(SpawnError::OutOfMemory);
        },
        Some(bottom) => bottom,
    };
    proof {
        lemma_stack_from_run(k2.frames, k2.mem@.len() as int, bottom);
        frame_alloc::lemma_run_taken(
            k2.frames,
            k.frames,
            bottom as int / 4096,
            KERNEL_STACK_PAGES as int,
        );
    }
    prepare_stack(
        &mut k.mem,
        bottom,
        Regs { x0: 0, x1: 0, x30: entry, sp_el0: 0, elr: entry, spsr: 5 },
    );
    let task = Task {
        sp: bottom + KERNEL_STACK_SIZE - SAVED_FRAME,
        kernel_stack_bottom: bottom,
        kernel_stack_pages: KERNEL_STACK_PAGES,
        ttbr0: k.sched.kernel_ttbr0,
        space: None,
        handles: HandleTable::empty(),
        wait: None,
        state: State::Ready,
    };
    proof {
        assert forall|a: int|
            0 <= a < k2.mem@.len() && !k2.frames@.contains(a / 4096) implies #[trigger] k.mem@[a]
            == k2.mem@[a] by {
            if bottom <= a < bottom + KERNEL_STACK_SIZE {
                assert(kernel::in_stack(bottom, KERNEL_STACK_PAGES, a / 4096));
            }
        }
        assert(new_task(task, k.mem@, k2.frames@, k.frames@, kernel_regs(entry)));
        assert(k2.sched.tasks@[id as int].shape());
        lemma_add_task(
            k2.mem@,
            k.mem@,
            k2.frames,
            k.frames,
            k.map,
            k2.sched.tasks@,
            k.sched.pending@,
            id as int,
            task,
            kernel_regs(entry),
        );
    }
    let r: TaskRef = install(k, id, task);
    proof {
        assert(k.sched.tasks@ =~= old(k).sched.tasks@.update(
            id as int,
            k.sched.tasks@[id as int],
        ));
    }
    Ok(r)
}

/// Starts a user task from an image, in an address space of its own. `arg0`
/// and `arg1` arrive in the first two registers at the entry point. The frames
/// of executable pages are added to `code`.
pub fn spawn_el0(
    k: &mut Kernel,
    image: &[u8],
    handles: HandleTable,
    arg0: u64,
    arg1: u64,
    code: &mut Vec<u64>,
) -> (r: Result<TaskRef, SpawnError>)
    requires
        old(k).wf(),
        handles.wf(),
    ensures
        final(k).wf(),
        user_task_started(*old(k), *final(k), image@, handles, arg0, arg1, r),
        elf::still_listed(old(code)@, final(code)@),
        r matches Ok(task) ==> code_listed(
            final(k).sched.tasks@[task.id as int].space.unwrap(),
            final(k).mem@,
            image@,
            final(code)@,
        ),
{
    reap_pending_frees(k, 0);
    let ghost k1 = *k;
    proof {
        assert(k1.frames@ =~= free_after_reap(*old(k)));
        lemma_reap_all(old(k).sched.pending@, k.mem@, k.mem@.len() as int);
    }
    let id: usize = match claim_slot(k) {
        None => {
            return Err(SpawnError::NoSlot);
        },
        Some(id) => id,
    };
    let ghost k2 = *k;
    let ghost entry = elf::layout_of(image@).entry;
    let built: Result<(Task, u64), SpawnError> = build_el0(
        id,
        image,
        handles,
        arg0,
        arg1,
        &k.map,
        &mut k.frames,
        &mut k.mem,
        code,
    );
    match built {
        Err(e) => {
            proof {
                lemma_free_memory_changed(
                    k2.mem@,
                    k.mem@,
                    k2.frames,
                    k.map,
                    k2.sched.tasks@,
                    k.sched.pending@,
                );
            }
            release(k, id);
            Err(e)
        },
        Ok((task, _)) => {
            proof {
                assert(k2.sched.tasks@[id as int].shape());
                lemma_add_task(
                    k2.mem@,
                    k.mem@,
                    k2.frames,
                    k.frames,
                    k.map,
                    k2.sched.tasks@,
                    k.sched.pending@,
                    id as int,
                    task,
                    user_regs(arg0, arg1, entry),
                );
            }
            let r: TaskRef = install(k, id, task);
            proof {
                assert(k.sched.tasks@ =~= old(k).sched.tasks@.update(
                    id as int,
                    k.sched.tasks@[id as int],
                ));
            }
            Ok(r)
        },
    }
}

/// The page below a user stack is not mapped: a stack that grows too far faults.
pub proof fn law_guard_page_is_not_mapped(s: AddressSpace, m: Seq<u8>, b: Seq<u8>, memory_type: u64)
    requires
        elf::refusal(b, Set::empty()) is None,
        user_image(s, m, b, memory_type),
    ensures
        !s.mapped(m, USER_TOP - USER_STACK_SIZE - 4096),
{
    let q = USER_TOP - USER_STACK_SIZE - 4096;
    let l = elf::layout_of(b);
    assert(elf::window_page(q));
    if elf::covered(b, l, l.phnum as int, q) {
        let k = choose|k: int|
            0 <= k < l.phnum && #[trigger] elf::is_load(b, l, k) && elf::seg_page(
                elf::segment(b, l, k),
                q,
            );
        elf::law_loaded_pages(b, k, q, Set::empty());
    }
}

/// No page of a user task is both writable and executable.
pub proof fn law_writable_pages_do_not_execute(
    s: AddressSpace,
    m: Seq<u8>,
    b: Seq<u8>,
    memory_type: u64,
    q: int,
)
    requires
        elf::refusal(b, Set::empty()) is None,
        user_image(s, m, b, memory_type),
        elf::window_page(q),
        s.mapped(m, q),
        addrspace::allows(s.spec_leaf(m, q), true),
    ensures
        s.spec_leaf(m, q) & addrspace::UXN != 0,
{
    let e = s.spec_leaf(m, q);
    let l = elf::layout_of(b);
    let pa = addrspace::target(e) as u64;
    let x = pa | addrspace::VALID | addrspace::TABLE_OR_PAGE | addrspace::AF | addrspace::NG
        | memory_type;
    lemma_entry_bits(x);
    if !stack_page(q) {
        let k = choose|k: int|
            0 <= k < l.phnum && #[trigger] elf::is_load(b, l, k) && elf::seg_page(
                elf::segment(b, l, k),
                q,
            );
        assert(elf::page_loaded(s, m, b, elf::segment(b, l, k), memory_type, q));
    }
}

/// What an entry's permission bits say, whatever its other bits are.
proof fn lemma_entry_bits(x: u64)
    ensures
        (x | addrspace::perm_bits(Perm::ReadWrite)) & addrspace::UXN != 0,
        !addrspace::allows(x | addrspace::perm_bits(Perm::ReadOnly), true),
        !addrspace::allows(x | addrspace::perm_bits(Perm::ReadExec), true),
{
    assert((x | (0x40u64 | 0x20_0000_0000_0000u64 | 0x40_0000_0000_0000u64))
        & 0x40_0000_0000_0000u64 != 0 && (x | (0xC0u64 | 0x20_0000_0000_0000u64
        | 0x40_0000_0000_0000u64)) & 0xC0u64 != 0x40u64 && (x | (0xC0u64 | 0x20_0000_0000_0000u64))
        & 0xC0u64 != 0x40u64) by (bit_vector);
}

/// A task sees what its image says: where program header `k` loads something, the
/// bytes of the file, and zeros behind them. It may write there exactly if the
/// header says so.
pub proof fn law_task_sees_its_image(
    s: AddressSpace,
    m: Seq<u8>,
    b: Seq<u8>,
    memory_type: u64,
    k: int,
    va: int,
)
    requires
        b.len() <= u64::MAX,
        elf::refusal(b, Set::empty()) is None,
        s.wf(m),
        user_image(s, m, b, memory_type),
        memory_type & !addrspace::MEMORY_TYPE_MASK == 0,
        elf::loads(b, k),
        elf::load_start(b, k) <= va < elf::load_start(b, k) + elf::load_size(b, k),
    ensures
        s.spec_translate(m, va, false) is Some,
        m[s.at(m, va, false)] == if va < elf::load_start(b, k) + elf::load_filled(b, k) {
            b[elf::load_from(b, k) + (va - elf::load_start(b, k))]
        } else {
            0
        },
        s.spec_translate(m, va, true) is Some <==> elf::load_writes(b, k),
        (s.spec_leaf(m, va - va % 4096) & addrspace::UXN == 0) == elf::load_executes(b, k),
{
    elf::law_fitting_images_are_loaded(b);
    elf::lemma_raw_segment(b, k);
    elf::lemma_raw_layout(b);
    let q = va - va % 4096;
    let seg = elf::segment(b, elf::layout_of(b), k);
    assert(q % 4096 == 0);
    elf::lemma_takes(b, k, q);
    assert(elf::load_takes(b, k, q));
    assert(elf::is_load(b, elf::layout_of(b), k));
    assert(elf::load_has_place(b, k));
    assert(elf::page_loaded(s, m, b, seg, memory_type, q));
    assert(elf::window_page(q));
    let pa = addrspace::target(s.spec_leaf(m, q));
    assert(0 <= addrspace::l2_index(q) < 512 && 0 <= addrspace::l3_index(q) < 512);
    assert(s.owns(pa, Role::Page(addrspace::l2_index(q), addrspace::l3_index(q))));
    assert(AddressSpace::frame_ok(pa, m.len() as int));
    addrspace::law_mapped_page_translates(
        s,
        m,
        q,
        va,
        pa as u64,
        memory_type,
        elf::perm_of(seg.flags),
    );
    assert(m[pa + (va - q)] == elf::image_byte(b, seg, q + (va - q)));
    let x = pa as u64 | addrspace::VALID | addrspace::TABLE_OR_PAGE | addrspace::AF | addrspace::NG
        | memory_type;
    lemma_entry_bits(x);
    lemma_no_uxn(pa as u64, memory_type);
}

proof fn lemma_no_uxn(pa: u64, mt: u64)
    requires
        pa % 4096 == 0,
        pa < 0x1_0000_0000,
        mt & !addrspace::MEMORY_TYPE_MASK == 0,
    ensures
        addrspace::page_entry(pa, mt, Perm::ReadExec) & addrspace::UXN == 0,
        addrspace::page_entry(pa, mt, Perm::ReadOnly) & addrspace::UXN != 0,
        addrspace::page_entry(pa, mt, Perm::ReadWrite) & addrspace::UXN != 0,
{
    assert((pa | 1u64 | 2u64 | 0x400u64 | 0x800u64 | mt | (0xC0u64 | 0x20_0000_0000_0000u64))
        & 0x40_0000_0000_0000u64 == 0 && (pa | 1u64 | 2u64 | 0x400u64 | 0x800u64 | mt | (0xC0u64
        | 0x20_0000_0000_0000u64 | 0x40_0000_0000_0000u64)) & 0x40_0000_0000_0000u64 != 0 && (pa
        | 1u64 | 2u64 | 0x400u64 | 0x800u64 | mt | (0x40u64 | 0x20_0000_0000_0000u64
        | 0x40_0000_0000_0000u64)) & 0x40_0000_0000_0000u64 != 0) by (bit_vector)
        requires
            pa < 0x1_0000_0000u64,
            mt & !0x31Cu64 == 0,
    ;
}

/// A task has a stack of 64 KiB at the end of its window, zeroed, to read and
/// write.
pub proof fn law_task_has_a_stack(
    s: AddressSpace,
    m: Seq<u8>,
    b: Seq<u8>,
    memory_type: u64,
    va: int,
)
    requires
        s.wf(m),
        user_image(s, m, b, memory_type),
        memory_type & !addrspace::MEMORY_TYPE_MASK == 0,
        0x4_4000_0000 - 0x1_0000 <= va < 0x4_4000_0000,
    ensures
        s.spec_translate(m, va, true) is Some,
        s.spec_translate(m, va, false) == s.spec_translate(m, va, true),
        m[s.at(m, va, false)] == 0,
{
    let q = va - va % 4096;
    assert(stack_page(q));
    assert(stack_page_ok(s, m, memory_type, q));
    let pa = addrspace::target(s.spec_leaf(m, q));
    assert(0 <= addrspace::l2_index(q) < 512 && 0 <= addrspace::l3_index(q) < 512);
    assert(s.owns(pa, Role::Page(addrspace::l2_index(q), addrspace::l3_index(q))));
    assert(AddressSpace::frame_ok(pa, m.len() as int));
    addrspace::law_mapped_page_translates(s, m, q, va, pa as u64, memory_type, Perm::ReadWrite);
    assert(m[pa + (va - q)] == 0);
}

/// A task reaches nothing but the pages of its image and its stack.
pub proof fn law_task_reaches_only_its_own(
    s: AddressSpace,
    m: Seq<u8>,
    b: Seq<u8>,
    memory_type: u64,
    va: int,
    write: bool,
)
    requires
        user_image(s, m, b, memory_type),
        s.spec_translate(m, va, write) is Some,
    ensures
        0x4_4000_0000 - 0x1_0000 <= va < 0x4_4000_0000 || exists|k: int| #[trigger]
            elf::loads(b, k) && elf::load_takes(b, k, va - va % 4096),
{
    let q = va - va % 4096;
    let l = elf::layout_of(b);
    assert(va / 4096 == q / 4096);
    assert(va / 0x20_0000 == (va / 4096) / 512);
    assert(q / 0x20_0000 == (q / 4096) / 512);
    assert(s.spec_leaf(m, q) == s.spec_leaf(m, va));
    assert(elf::window_page(q));
    assert(s.mapped(m, q));
    if !stack_page(q) {
        let k = choose|k: int|
            0 <= k < l.phnum && #[trigger] elf::is_load(b, l, k) && elf::seg_page(
                elf::segment(b, l, k),
                q,
            );
        elf::lemma_raw_segment(b, k);
        elf::lemma_raw_layout(b);
        elf::lemma_takes(b, k, q);
        assert(elf::loads(b, k));
    }
}

/// A user task begins where its image says, in user mode, at the end of its
/// window, with its two arguments in the first two registers and zeros in all
/// others.
pub proof fn law_user_task_begins_at_its_entry(
    k0: Kernel,
    k1: Kernel,
    image: Seq<u8>,
    handles: HandleTable,
    arg0: u64,
    arg1: u64,
    r: Result<TaskRef, SpawnError>,
    i: int,
)
    requires
        user_task_started(k0, k1, image, handles, arg0, arg1, r),
        r is Ok,
        0 <= i < 102,
    ensures
        ({
            let t = k1.sched.tasks@[r->Ok_0.id as int];
            &&& t.state == State::Ready
            &&& t.handles == handles
            &&& t.space is Some
            &&& mem::word(k1.mem@, t.sp + 8 * i) == if i == 0 {
                arg0
            } else if i == 1 {
                arg1
            } else if i == 31 {
                0x4_4000_0000
            } else if i == 32 {
                bytes::u64_at(image, 24) as u64
            } else {
                0
            }
        }),
{
    elf::lemma_raw_layout(image);
}

/// A kernel task begins at its entry point, in the kernel's mode with interrupts
/// on, with no space and no handle of its own.
pub proof fn law_kernel_task_begins_at_its_entry(
    k0: Kernel,
    k1: Kernel,
    entry: u64,
    r: Result<TaskRef, SpawnError>,
)
    requires
        kernel_task_started(k0, k1, entry, r),
        r is Ok,
    ensures
        ({
            let t = k1.sched.tasks@[r->Ok_0.id as int];
            &&& t.state == State::Ready
            &&& t.space is None
            &&& t.ttbr0 == k0.sched.kernel_ttbr0
            &&& mem::word(k1.mem@, t.sp + 8 * 32) == entry
            &&& mem::word(k1.mem@, t.sp + 8 * 33) == 5
            &&& forall|i: int| 0 <= i < t.handles@.len() ==> #[trigger] t.handles@[i] is None
        }),
{
}

/// A stack that waits is freed, all of its frames, once the processor runs on another;
/// the stack that it runs on waits on.
pub proof fn law_waiting_stacks_are_freed(k0: Kernel, k1: Kernel, stack_ptr: u64, i: int, f: int)
    requires
        reap_done(k0, k1, stack_ptr),
        k0.sched.wf(),
        0 <= i < 16,
        k0.sched.pending@[i].used,
        ({
            let p = k0.sched.pending@[i];
            p.kernel_stack_bottom % 4096 == 0 && p.kernel_stack_bottom as int / 4096 <= f
                < p.kernel_stack_bottom as int / 4096 + p.kernel_stack_pages
        }),
    ensures
        ({
            let p = k0.sched.pending@[i];
            let on = p.kernel_stack_bottom <= stack_ptr < p.kernel_stack_bottom
                + p.kernel_stack_pages * 4096;
            &&& on ==> k1.sched.pending@[i] == p
            &&& !on ==> !k1.sched.pending@[i].used && k1.frames@.contains(f)
            &&& k1.sched.tasks == k0.sched.tasks
            &&& k1.mem == k0.mem
        }),
{
    let p = k0.sched.pending@[i];
    if reapable(p, stack_ptr) {
        assert(kernel::in_stack(p.kernel_stack_bottom, p.kernel_stack_pages, f));
        assert(in_reaped(k0.sched.pending@, stack_ptr, 16, f));
    }
}

/// A new task takes the lowest free slot above 0, in a new life of that slot; every
/// other task, and every other life, is as before. Without a free slot there is none.
pub proof fn law_new_task_takes_a_free_slot(
    k0: Kernel,
    k1: Kernel,
    image: Seq<u8>,
    handles: HandleTable,
    arg0: u64,
    arg1: u64,
    r: Result<TaskRef, SpawnError>,
    i: int,
)
    requires
        k0.sched.wf(),
        user_task_started(k0, k1, image, handles, arg0, arg1, r),
        1 <= i < 16,
    ensures
        (forall|j: int| 1 <= j < 16 ==> (#[trigger] k0.sched.tasks@[j]).state != State::Free) ==> r
            == Err::<TaskRef, SpawnError>(SpawnError::NoSlot),
        r matches Ok(task) ==> {
            let id = task.id as int;
            &&& 1 <= id < 16
            &&& k0.sched.tasks@[id].state == State::Free
            &&& i < id ==> k0.sched.tasks@[i].state != State::Free
            &&& i != id ==> k1.sched.tasks@[i] == k0.sched.tasks@[i] && k1.sched.generations@[i]
                == k0.sched.generations@[i]
            &&& task.generation == k1.sched.generations@[id]
            &&& k0.sched.generations@[id] < u32::MAX ==> task.generation
                == k0.sched.generations@[id] + 1
        },
{
    lemma_free_slot(k0.sched.tasks@, 1);
}

proof fn lemma_free_slot(tasks: Seq<Task>, from: int)
    requires
        1 <= from <= 16,
        tasks.len() == 16,
    ensures
        from <= free_slot(tasks, from) <= 16,
        free_slot(tasks, from) < 16 ==> tasks[free_slot(tasks, from)].state == State::Free,
        forall|j: int|
            from <= j < free_slot(tasks, from) ==> (#[trigger] tasks[j]).state != State::Free,
    decreases 16 - from,
{
    if from < 16 && tasks[from].state != State::Free {
        lemma_free_slot(tasks, from + 1);
    }
}

} // verus!
