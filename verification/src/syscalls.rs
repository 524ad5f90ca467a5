//! System calls from user tasks.
//!
//! Every pointer is checked against the caller's own address space before use,
//! and errors are returned, not fatal.
use vstd::prelude::*;

use crate::abi::sys;
use crate::abi::{
    Error, ExitReason, Grant, Handle, Message, Rights, SpawnRequest, TaskRef, MAX_BINARY_NAME,
    MAX_HANDLES, MAX_LOG, NAME_LEN, RIGHT_RECV, RIGHT_SEND,
};
use crate::addrspace;
use crate::boot_images;
use crate::boot_images::{BootImages, Builtin};
use crate::bytes;
use crate::context;
use crate::context::{SpawnError, Switch, Task, UserWait, MAX_TASKS};
use crate::delivery;
use crate::elf;
use crate::handles;
use crate::handles::{HandleTable, Slot};
use crate::ipc;
use crate::ipc::{Chan, IpcView};
use crate::kernel;
use crate::kernel::Kernel;
use crate::lifecycle;
use crate::lifecycle::Retirement;
use crate::mem;
use crate::registry;
use crate::spawn;
use crate::text;
use crate::wire;
use crate::wire::UserData;

verus! {

#[derive(Clone, Copy, Debug, PartialEq, Eq, Structural)]
pub enum Outcome {
    /// Resume the caller with this value in its first register.
    Return(i64),
    /// The caller gave up the processor; it resumes with 0.
    Yield,
    /// The caller exited; never resume it.
    Exited,
    /// The caller is waiting; its result is written when it is woken.
    Blocked,
    /// A send woke the given task, which runs next; the caller resumes with 0.
    HandOff(usize),
    /// init exited: nothing supervises the system, which halts.
    Halt,
}

/// What a call leaves for the machine to do: text for the console, and frames
/// that hold new code.
pub struct Effects {
    pub console: Vec<char>,
    pub code: Vec<u64>,
}

/// What the kernel was booted with.
pub struct Programs {
    pub images: BootImages,
    pub builtins: Vec<Builtin>,
}

pub open spec fn failed(e: Error) -> Outcome {
    Outcome::Return(e.spec_code() as i64)
}

fn err(e: Error) -> (o: Outcome)
    ensures
        o == failed(e),
{
    Outcome::Return(e.code())
}

/// The task that makes the call.
pub open spec fn caller(k: Kernel) -> Task {
    k.sched.tasks@[k.sched.current as int]
}

/// The channel behind the caller's `handle`, if the handle carries `need`.
pub open spec fn caller_channel(k: Kernel, handle: u64, need: u32) -> Result<u32, Error> {
    if caller(k).space is None {
        Err(Error::NotPermitted)
    } else if handle > u32::MAX {
        Err(Error::NoSuchHandle)
    } else {
        caller(k).handles.spec_lookup(Handle(handle as u32), Rights(need))
    }
}

fn channel(k: &Kernel, handle: u64, need: Rights) -> (r: Result<u32, Error>)
    requires
        k.wf(),
    ensures
        r == caller_channel(*k, handle, need.0),
{
    let cur: usize = k.sched.current;
    assert(k.sched.tasks@[cur as int].shape());
    if k.sched.tasks[cur].space.is_none() {
        return Err(Error::NotPermitted);
    }
    if handle > 0xFFFF_FFFF {
        return Err(Error::NoSuchHandle);
    }
    k.sched.tasks[cur].handles.lookup(Handle(handle as u32), need)
}

/// The error that a task sees for an error of the channels.
pub open spec fn seen_error(e: ipc::Error) -> Error {
    match e {
        ipc::Error::Full => Error::Full,
        _ => Error::NoSuchHandle,
    }
}

/// What sending the message at `ptr` through `handle` changes and returns.
pub open spec fn send_done(
    k0: Kernel,
    k1: Kernel,
    handle: u64,
    ptr: u64,
    now_ns: u64,
    o: Outcome,
) -> bool {
    match caller_channel(k0, handle, RIGHT_SEND) {
        Err(e) => o == failed(e) && delivery::untouched(k0, k1),
        Ok(id) => {
            let s = caller(k0).space.unwrap();
            if !addrspace::holds::<Message>(s, k0.mem@, ptr as int, false) {
                o == failed(Error::BadPointer) && delivery::untouched(k0, k1)
            } else {
                match delivery::send_error(k0.ipc@, id) {
                    Some(e) => o == failed(seen_error(e)) && delivery::untouched(k0, k1),
                    None => exists|msg: Message, woken: Option<usize>|
                        {
                            &&& #[trigger] msg.spelled() == s.user_bytes(k0.mem@, ptr as int, 40)
                            &&& #[trigger] delivery::sent(
                                k0,
                                k1,
                                k0.sched.current as u16,
                                id,
                                msg,
                                now_ns,
                                woken,
                            )
                            &&& o == match woken {
                                Some(w) => Outcome::HandOff(w),
                                None => Outcome::Return(0),
                            }
                        },
                }
            }
        },
    }
}

/// The caller still owns the kernel stack that its frame was saved on, or has
/// none any more.
pub open spec fn stack_kept(k0: Kernel, k1: Kernel) -> bool {
    let t0 = caller(k0);
    let t1 = k1.sched.tasks@[k0.sched.current as int];
    &&& k1.sched.current == k0.sched.current
    &&& t0.kernel_stack_pages > 0 && t1.kernel_stack_pages > 0 ==> t1.kernel_stack_bottom
        == t0.kernel_stack_bottom
}

fn send(k: &mut Kernel, handle: u64, ptr: u64, now_ns: u64) -> (o: Outcome)
    requires
        old(k).wf(),
    ensures
        final(k).wf(),
        send_done(*old(k), *final(k), handle, ptr, now_ns, o),
        stack_kept(*old(k), *final(k)),
{
    let id: u32 = match channel(k, handle, Rights::send()) {
        Err(e) => {
            return err(e);
        },
        Ok(id) => id,
    };
    let cur: usize = k.sched.current;
    let msg: Message = match &k.sched.tasks[cur].space {
        None => {
            return err(Error::NotPermitted);
        },
        Some(space) => {
            assert(kernel::task_mem_ok(k.sched.tasks@[cur as int], k.mem@));
            match addrspace::read_user::<Message>(space, &k.mem, ptr) {
                Err(e) => {
                    return err(e);
                },
                Ok(msg) => msg,
            }
        },
    };
    let r: Result<Option<usize>, ipc::Error> = delivery::send(k, id, &msg, now_ns);
    proof {
        let s = caller(*old(k)).space.unwrap();
        assert(msg.spelled() == s.user_bytes(old(k).mem@, ptr as int, 40));
        if r is Ok {
            assert(delivery::sent(
                *old(k),
                *k,
                old(k).sched.current as u16,
                id,
                msg,
                now_ns,
                r->Ok_0,
            ));
        }
    }
    match r {
        Ok(Some(woken)) => Outcome::HandOff(woken),
        Ok(None) => Outcome::Return(0),
        Err(ipc::Error::Full) => err(Error::Full),
        Err(_) => err(Error::NoSuchHandle),
    }
}

/// What receiving into `buf` changes and returns.
pub open spec fn recv_done(
    k0: Kernel,
    k1: Kernel,
    handle: u64,
    buf: u64,
    deadline_ns: u64,
    blocking: bool,
    now_ns: u64,
    o: Outcome,
) -> bool {
    match caller_channel(k0, handle, RIGHT_RECV) {
        Err(e) => o == failed(e) && delivery::untouched(k0, k1),
        Ok(id) => {
            let s = caller(k0).space.unwrap();
            let cur = k0.sched.current;
            if !addrspace::holds::<Message>(s, k0.mem@, buf as int, true) {
                o == failed(Error::BadPointer) && delivery::untouched(k0, k1)
            } else if !k0.ipc@.live(id) {
                o == failed(Error::NoSuchHandle) && delivery::untouched(k0, k1)
            } else if k0.ipc@.chans[id as int].queue.len() > 0 {
                exists|ka: Kernel, kb: Kernel|
                    {
                        let msg = k0.ipc@.chans[id as int].queue[0].msg;
                        &&& #[trigger] delivery::took(k0, ka, id, now_ns)
                        &&& #[trigger] delivery::refill_done(ka, kb, id, now_ns)
                        &&& s.wf(kb.mem@)
                        &&& kernel::translations_kept(k0.sched.tasks@, k0.mem@, kb.mem@)
                        &&& s.user_written(kb.mem@, k1.mem@, buf as int, msg.spelled())
                        &&& k1.same_tables(kb)
                        &&& k1.sched == kb.sched
                        &&& k1.ipc@ == kb.ipc@
                        &&& k1.metrics@ == kb.metrics@
                        &&& o == Outcome::Return(0)
                    }
            } else if !blocking {
                o == failed(Error::WouldBlock) && delivery::found_empty(k0, k1, id)
            } else if deadline_ns != 0 && now_ns >= deadline_ns {
                o == failed(Error::Timeout) && delivery::found_empty(k0, k1, id)
            } else {
                let v = delivery::consumed_by(k0.ipc@, id, cur);
                &&& o == Outcome::Blocked
                &&& k1.same_tables(k0)
                &&& k1.mem@ == k0.mem@
                &&& k1.metrics@ == k0.metrics@
                &&& k1.ipc@ == v.with_chan(
                    id,
                    (Chan { waiter: Some(cur), ..v.chans[id as int] }),
                )
                &&& k1.sched.same_but_tasks(k0.sched)
                &&& k1.sched.tasks@ == k0.sched.tasks@.update(
                    cur as int,
                    Task {
                        wait: Some(UserWait { channel: id, buf, deadline_ns }),
                        state: context::State::Blocked,
                        ..caller(k0)
                    },
                )
            }
        },
    }
}

/// Receives into `buf`. Blocking with nothing waiting, the caller switches
/// away; a later send delivers straight into `buf`, or the tick after
/// `deadline_ns` (0 is none) wakes it with `Timeout`.
fn recv(
    k: &mut Kernel,
    handle: u64,
    buf: u64,
    deadline_ns: u64,
    blocking: bool,
    now_ns: u64,
) -> (o: Outcome)
    requires
        old(k).wf(),
    ensures
        final(k).wf(),
        recv_done(*old(k), *final(k), handle, buf, deadline_ns, blocking, now_ns, o),
        stack_kept(*old(k), *final(k)),
{
    let id: u32 = match channel(k, handle, Rights::recv()) {
        Err(e) => {
            return err(e);
        },
        Ok(id) => id,
    };
    let cur: usize = k.sched.current;
    match &k.sched.tasks[cur].space {
        None => {
            return err(Error::NotPermitted);
        },
        Some(space) => {
            assert(kernel::task_mem_ok(k.sched.tasks@[cur as int], k.mem@));
            match addrspace::check_writable::<Message>(space, &k.mem, buf) {
                Err(e) => {
                    return err(e);
                },
                Ok(()) => {},
            }
        },
    }
    let ghost s = caller(*old(k)).space.unwrap();
    match delivery::try_dequeue(k, id, now_ns) {
        Err(_) => err(Error::NoSuchHandle),
        Ok(Some(message)) => {
            let ghost kb = *k;
            proof {
                assert(kb.sched.tasks@[cur as int].space == Some(s));
                assert(kernel::translations_kept(old(k).sched.tasks@, old(k).mem@, kb.mem@));
                assert(old(k).sched.tasks@[cur as int].space is Some);
                assert forall|a: int| buf <= a < buf + 40 implies (#[trigger] s.spec_translate(
                    kb.mem@,
                    a,
                    true,
                )) is Some by {
                    assert(s.spec_translate(old(k).mem@, a, true) is Some);
                }
                assert(addrspace::holds::<Message>(s, kb.mem@, buf as int, true));
            }
            let code: i64 = context::write_to_task(k, cur, buf, &message);
            proof {
                assert(code == 0);
                let ka = choose|km: Kernel| #[trigger]
                    delivery::took(*old(k), km, id, now_ns) && delivery::refill_done(
                        km,
                        kb,
                        id,
                        now_ns,
                    );
                assert(delivery::took(*old(k), ka, id, now_ns));
                assert(delivery::refill_done(ka, kb, id, now_ns));
                assert(kernel::task_mem_ok(kb.sched.tasks@[cur as int], kb.mem@));
            }
            Outcome::Return(code)
        },
        Ok(None) => {
            if !blocking {
                return err(Error::WouldBlock);
            }
            if deadline_ns != 0 && now_ns >= deadline_ns {
                return err(Error::Timeout);
            }
            proof {
                ipc::law_bounds(old(k).ipc);
            }
            match ipc::register_waiter(&mut k.ipc, id, cur) {
                Err(_) => err(Error::NoSuchHandle),
                Ok(()) => {
                    let ghost k1 = *k;
                    context::set_user_wait(&mut k.sched, id, buf, deadline_ns);
                    proof {
                        lemma_states_changed(k1, k.sched.tasks@);
                    }
                    Outcome::Blocked
                },
            }
        },
    }
}

/// Tasks that keep stack, space and saved frame keep memory sound.
proof fn lemma_states_changed(k: Kernel, t1: Seq<Task>)
    requires
        k.wf(),
        t1.len() == k.sched.tasks@.len(),
        forall|i: int|
            0 <= i < t1.len() ==> {
                &&& (#[trigger] t1[i]).space == k.sched.tasks@[i].space
                &&& t1[i].kernel_stack_bottom == k.sched.tasks@[i].kernel_stack_bottom
                &&& t1[i].kernel_stack_pages == k.sched.tasks@[i].kernel_stack_pages
                &&& t1[i].sp == k.sched.tasks@[i].sp
            },
    ensures
        kernel::memory_ok(k.mem@, k.frames, k.map, t1, k.sched.pending@),
{
    let t0 = k.sched.tasks@;
    assert forall|i: int|
        0 <= i < t0.len() && (#[trigger] t1[i]).kernel_stack_pages > 0 implies kernel::sp_ok(
        t1[i].sp,
        t1[i].kernel_stack_bottom,
    ) by {
        assert(kernel::task_mem_ok(t0[i], k.mem@));
    }
    kernel::lemma_tasks_kept(k.mem@, k.frames, k.map, t0, t1, k.sched.pending@);
}

/// The caller is init.
pub open spec fn is_init(k: Kernel) -> bool {
    k.sched.current != 0 && k.sched.current == k.sched.init_task
}

/// What creating a channel changes and returns: a new channel, with both
/// rights in the lowest free handle of init.
pub open spec fn create_done(k0: Kernel, k1: Kernel, o: Outcome) -> bool {
    let hs = caller(k0).handles@;
    let full = forall|i: int| 0 <= i < MAX_HANDLES ==> #[trigger] hs[i] is Some;
    if !is_init(k0) {
        o == failed(Error::NotPermitted) && delivery::untouched(k0, k1)
    } else if full || k0.ipc@.next_id == ipc::MAX_CHANNELS {
        o == failed(Error::TableFull) && delivery::untouched(k0, k1)
    } else {
        let id = k0.ipc@.next_id as u32;
        let init = k0.sched.current;
        exists|h: int|
            {
                &&& 0 <= h < MAX_HANDLES
                &&& #[trigger] hs[h] is None
                &&& forall|i: int| 0 <= i < h ==> #[trigger] hs[i] is Some
                &&& o == Outcome::Return(h as i64)
                &&& k1.same_tables(k0)
                &&& k1.mem@ == k0.mem@
                &&& k1.metrics@ == k0.metrics@
                &&& k1.ipc@ == (IpcView {
                    next_id: k0.ipc@.next_id + 1,
                    ..k0.ipc@.with_chan(id, Chan::fresh())
                }).received_by(id, init, None)
                &&& k1.sched.same_but_tasks(k0.sched)
                &&& k1.sched.tasks@.len() == MAX_TASKS
                &&& forall|i: int|
                    0 <= i < MAX_TASKS ==> kernel::same_but_handles(
                        #[trigger] k1.sched.tasks@[i],
                        k0.sched.tasks@[i],
                    ) && k1.sched.tasks@[i].handles@ == if i == init {
                        hs.update(
                            h,
                            Some(Slot { channel: id, rights: Rights(RIGHT_SEND | RIGHT_RECV) }),
                        )
                    } else {
                        k0.sched.tasks@[i].handles@
                    }
            }
    }
}

/// init only: a new channel, with SEND and RECV in one handle.
fn channel_create(k: &mut Kernel) -> (o: Outcome)
    requires
        old(k).wf(),
    ensures
        final(k).wf(),
        create_done(*old(k), *final(k), o),
        stack_kept(*old(k), *final(k)),
{
    let init: usize = k.sched.current;
    if init == 0 || init != k.sched.init_task {
        return err(Error::NotPermitted);
    }
    assert(k.sched.tasks@[init as int].shape());
    // Room first: a channel, once created, is never freed.
    if k.sched.tasks[init].handles.is_full() {
        return err(Error::TableFull);
    }
    let id: u32 = match ipc::create(&mut k.ipc) {
        Err(_) => {
            return err(Error::TableFull);
        },
        Ok(id) => id,
    };
    let rights: Rights = Rights::send().union(Rights::recv());
    let r: Result<Handle, Error> = k.sched.tasks[init].handles.insert(
        Slot { channel: id, rights },
    );
    match r {
        Err(e) => {
            assert(false);
            err(e)
        },
        Ok(h) => {
            proof {
                assert forall|i: int| 0 <= i < MAX_TASKS implies kernel::same_but_handles(
                    #[trigger] k.sched.tasks@[i],
                    old(k).sched.tasks@[i],
                ) && k.sched.tasks@[i].handles.wf() by {
                    assert(old(k).sched.tasks@[i].shape());
                }
                kernel::lemma_handles_changed(*old(k), k.sched);
            }
            ipc::set_receiver(&mut k.ipc, id, init);
            proof {
                assert(caller(*old(k)).handles@[h.0 as int] is None);
            }
            Outcome::Return(h.0 as i64)
        },
    }
}

/// A service name becomes the prefix of the task's log lines, so it must be
/// printable and unable to fake a prefix.
pub open spec fn good_name(name: Seq<u8>) -> bool {
    forall|i: int|
        0 <= i < name.len() ==> 0x21 <= #[trigger] name[i] <= 0x7E && name[i] != 0x5B && name[i]
            != 0x5D
}

pub fn valid_name(name: &[u8]) -> (r: bool)
    ensures
        r == good_name(name@),
{
    let mut i: usize = 0;
    while i < name.len()
        invariant
            i <= name@.len(),
            forall|j: int|
                0 <= j < i ==> 0x21 <= #[trigger] name@[j] <= 0x7E && name@[j] != 0x5B && name@[j]
                    != 0x5D,
        decreases name@.len() - i,
    {
        let b: u8 = name[i];
        if b < 0x21 || b > 0x7E || b == 0x5B || b == 0x5D {
            assert(name@[i as int] == b);
            return false;
        }
        i = i + 1;
    }
    true
}

/// What marks the name of a task inside the kernel: `builtin:`.
pub open spec fn builtin_mark() -> Seq<u8> {
    seq![0x62u8, 0x75, 0x69, 0x6C, 0x74, 0x69, 0x6E, 0x3A]
}

/// The bytes that the caller sees at `[va, va + len)`.
pub open spec fn caller_bytes(k: Kernel, va: u64, len: u64) -> Seq<u8> {
    caller(k).space.unwrap().user_bytes(k.mem@, va as int, len as int)
}

/// The caller may read all of `[va, va + len)`.
pub open spec fn caller_reads(k: Kernel, va: u64, len: u64) -> bool {
    caller(k).space.unwrap().accessible(k.mem@, va as int, len as int, false)
}

/// The request that the caller left at `ptr`.
pub open spec fn request_at(k: Kernel, ptr: u64) -> SpawnRequest {
    wire::request_of(caller_bytes(k, ptr, 56))
}

/// Every grant of the request can be read.
pub open spec fn grants_readable(k: Kernel, q: SpawnRequest) -> bool {
    forall|i: int| 0 <= i < q.grants_len ==> #[trigger] grant_readable(k, q, i)
}

/// Grant `i` of the request can be read.
pub open spec fn grant_readable(k: Kernel, q: SpawnRequest, i: int) -> bool {
    q.grants_ptr + 8 * i <= u64::MAX && addrspace::holds::<Grant>(
        caller(k).space.unwrap(),
        k.mem@,
        q.grants_ptr + 8 * i,
        false,
    )
}

pub open spec fn grant_at(k: Kernel, q: SpawnRequest, i: int) -> Grant {
    wire::grant_of(caller(k).space.unwrap().user_bytes(k.mem@, q.grants_ptr + 8 * i, 8))
}

pub open spec fn grants_of(k: Kernel, q: SpawnRequest) -> Seq<Grant> {
    Seq::new(q.grants_len as nat, |i: int| grant_at(k, q, i))
}

/// The slot that a grant names in the table `hs`.
pub open spec fn slot_of(hs: Seq<Option<Slot>>, g: Grant) -> Option<Slot> {
    if g.handle.0 < MAX_HANDLES {
        hs[g.handle.0 as int]
    } else {
        None
    }
}

pub open spec fn carries(r: Rights, right: u32) -> bool {
    r.0 & right == right
}

/// An earlier grant already moves the receive right of `channel`.
pub open spec fn moved_before(hs: Seq<Option<Slot>>, grants: Seq<Grant>, i: int, channel: u32) -> bool {
    exists|j: int|
        0 <= j < i && carries((#[trigger] grants[j]).rights, RIGHT_RECV) && (slot_of(
            hs,
            grants[j],
        ) matches Some(x) && x.channel == channel)
}

/// Some other task than `init` receives on `channel`.
pub open spec fn taken(v: IpcView, channel: u32, init: usize) -> bool {
    v.live(channel) && v.chans[channel as int].receiver != ipc::NO_TASK
        && v.chans[channel as int].receiver != init
}

/// Why grant `i` is refused, if it is. A grant may only carry rights that init
/// holds on that handle, and a channel has one receiver: not twice in one
/// request, and not while an earlier child still holds it.
pub open spec fn grant_error(
    v: IpcView,
    hs: Seq<Option<Slot>>,
    init: usize,
    grants: Seq<Grant>,
    i: int,
) -> Option<Error> {
    let g = grants[i];
    let both = RIGHT_SEND | RIGHT_RECV;
    if both & g.rights.0 != g.rights.0 {
        Some(Error::Invalid)
    } else {
        match slot_of(hs, g) {
            None => Some(Error::NoSuchHandle),
            Some(x) => {
                let again = moved_before(hs, grants, i, x.channel);
                if carries(g.rights, RIGHT_RECV) && (again || !carries(x.rights, RIGHT_RECV)) {
                    if again || taken(v, x.channel, init) {
                        Some(Error::ReceiverTaken)
                    } else {
                        Some(Error::NoRight)
                    }
                } else if carries(g.rights, RIGHT_SEND) && !carries(x.rights, RIGHT_SEND) {
                    Some(Error::NoRight)
                } else {
                    None
                }
            },
        }
    }
}

/// The first reason among the first `n` grants to refuse them, if any.
pub open spec fn grants_error(
    v: IpcView,
    hs: Seq<Option<Slot>>,
    init: usize,
    grants: Seq<Grant>,
    n: int,
) -> Option<Error>
    decreases n,
{
    if n <= 0 {
        None
    } else if grants_error(v, hs, init, grants, n - 1) is Some {
        grants_error(v, hs, init, grants, n - 1)
    } else {
        grant_error(v, hs, init, grants, n - 1)
    }
}

/// The child's handles: the first `n` grants, in order.
pub open spec fn child_table(hs: Seq<Option<Slot>>, grants: Seq<Grant>, n: int) -> Seq<Option<Slot>> {
    Seq::new(
        MAX_HANDLES as nat,
        |i: int|
            if i < n {
                Some(
                    Slot {
                        channel: slot_of(hs, grants[i]).unwrap().channel,
                        rights: grants[i].rights,
                    },
                )
            } else {
                None
            },
    )
}

/// The channels and init's table after the receive rights among the first `n`
/// grants have moved to task `id`.
pub open spec fn bound(
    v: IpcView,
    hs: Seq<Option<Slot>>,
    grants: Seq<Grant>,
    n: int,
    id: usize,
    init: usize,
) -> (IpcView, Seq<Option<Slot>>)
    decreases n,
{
    if n <= 0 {
        (v, hs)
    } else {
        let b = bound(v, hs, grants, n - 1, id, init);
        let g = grants[n - 1];
        if carries(g.rights, RIGHT_RECV) && slot_of(b.1, g) is Some {
            let x = slot_of(b.1, g).unwrap();
            (
                b.0.received_by(x.channel, id, Some((init as u16, g.handle.0))),
                b.1.update(
                    g.handle.0 as int,
                    Some(Slot { rights: Rights(x.rights.0 & !RIGHT_RECV), ..x }),
                ),
            )
        } else {
            b
        }
    }
}

/// Why a request to start a service is refused before anything is done, if it is.
pub open spec fn spawn_refusal(k: Kernel, programs: Programs, ptr: u64) -> Option<Error> {
    let q = request_at(k, ptr);
    let name = caller_bytes(k, q.name_ptr, q.name_len);
    let binary = caller_bytes(k, q.binary_ptr, q.binary_len);
    if !is_init(k) || caller(k).space is None {
        Some(Error::NotPermitted)
    } else if !addrspace::holds::<SpawnRequest>(
        caller(k).space.unwrap(),
        k.mem@,
        ptr as int,
        false,
    ) {
        Some(Error::BadPointer)
    } else if q.name_len == 0 || q.name_len > NAME_LEN || q.binary_len == 0 || q.binary_len
        > MAX_BINARY_NAME || q.grants_len > MAX_HANDLES {
        Some(Error::Invalid)
    } else if !caller_reads(k, q.name_ptr, q.name_len) {
        Some(Error::BadPointer)
    } else if !good_name(name) {
        Some(Error::Invalid)
    } else if !caller_reads(k, q.binary_ptr, q.binary_len) {
        Some(Error::BadPointer)
    } else if !vstd::utf8::valid_utf8(binary) {
        Some(Error::Invalid)
    } else if builtin_mark().is_prefix_of(binary) {
        if q.grants_len != 0 {
            Some(Error::Invalid)
        } else if builtin_entry(programs, binary) is None {
            Some(Error::NotFound)
        } else {
            None
        }
    } else if programs.images.spec_find(binary) is None {
        Some(Error::NotFound)
    } else if !grants_readable(k, q) {
        Some(Error::BadPointer)
    } else {
        grants_error(
            k.ipc@,
            caller(k).handles@,
            k.sched.current,
            grants_of(k, q),
            q.grants_len as int,
        )
    }
}

/// Where the built-in named by `binary`, mark included, begins.
pub open spec fn builtin_entry(programs: Programs, binary: Seq<u8>) -> Option<u64> {
    boot_images::spec_builtin(
        programs.builtins@,
        binary.subrange(8, binary.len() as int),
        0,
    )
}

pub open spec fn spec_spawn_error(e: SpawnError) -> Error {
    match e {
        SpawnError::NoSlot => Error::TableFull,
        SpawnError::OutOfMemory => Error::OutOfMemory,
        SpawnError::BadImage(_) => Error::Invalid,
    }
}

fn spawn_error(e: SpawnError) -> (r: Error)
    ensures
        r == spec_spawn_error(e),
{
    match e {
        SpawnError::NoSlot => Error::TableFull,
        SpawnError::OutOfMemory => Error::OutOfMemory,
        SpawnError::BadImage(_) => Error::Invalid,
    }
}

/// Task `id` has been given its name and its receive rights.
pub open spec fn introduced(
    k0: Kernel,
    k1: Kernel,
    id: usize,
    init: usize,
    grants: Seq<Grant>,
    name: Seq<u8>,
) -> bool {
    let b = bound(
        k0.ipc@,
        k0.sched.tasks@[init as int].handles@,
        grants,
        grants.len() as int,
        id,
        init,
    );
    &&& k1.mem@ == k0.mem@
    &&& k1.frames == k0.frames
    &&& k1.map == k0.map
    &&& k1.metrics@ == k0.metrics@
    &&& k1.ipc@ == b.0
    &&& registry::spawn_named(k0.registry, k1.registry, id, registry::cut(name))
    &&& k1.sched.same_but_tasks(k0.sched)
    &&& k1.sched.tasks@.len() == MAX_TASKS
    &&& forall|i: int|
        0 <= i < MAX_TASKS ==> kernel::same_but_handles(
            #[trigger] k1.sched.tasks@[i],
            k0.sched.tasks@[i],
        ) && k1.sched.tasks@[i].handles@ == if i == init {
            b.1
        } else {
            k0.sched.tasks@[i].handles@
        }
}

/// The task of a service that is part of the kernel, started at `entry` and made
/// known as `name`.
pub open spec fn builtin_started(
    k0: Kernel,
    k1: Kernel,
    entry: u64,
    name: Seq<u8>,
    o: Outcome,
) -> bool {
    exists|ka: Kernel, r: Result<TaskRef, SpawnError>|
        {
            &&& #[trigger] spawn::kernel_task_started(k0, ka, entry, r)
            &&& match r {
                Ok(task) => o == Outcome::Return(task.id as i64) && introduced(
                    ka,
                    k1,
                    task.id as usize,
                    k0.sched.current,
                    Seq::empty(),
                    name,
                ),
                Err(e) => o == failed(spec_spawn_error(e)) && k1 == ka,
            }
        }
}

/// The task of a service that runs `image` with the handles `child`, started
/// and made known as `name`.
pub open spec fn image_started(
    k0: Kernel,
    k1: Kernel,
    image: Seq<u8>,
    child: HandleTable,
    grants: Seq<Grant>,
    arg: u64,
    name: Seq<u8>,
    binary: Seq<u8>,
    fx0: Effects,
    fx1: Effects,
    o: Outcome,
) -> bool {
    exists|ka: Kernel, r: Result<TaskRef, SpawnError>|
        {
            &&& #[trigger] spawn::user_task_started(
                k0,
                ka,
                image,
                child,
                grants.len() as u64,
                arg,
                r,
            )
            &&& match r {
                Ok(task) => {
                    &&& o == Outcome::Return(task.id as i64)
                    &&& introduced(ka, k1, task.id as usize, k0.sched.current, grants, name)
                    &&& spawn::code_listed(
                        ka.sched.tasks@[task.id as int].space.unwrap(),
                        ka.mem@,
                        image,
                        fx1.code@,
                    )
                },
                Err(e) => o == failed(spec_spawn_error(e)) && k1 == ka,
            }
            &&& fx1.console@ == fx0.console@ + complaint(binary, r)
        }
}

/// What the console shows of starting `binary`: why its image was refused.
pub open spec fn complaint(binary: Seq<u8>, r: Result<TaskRef, SpawnError>) -> Seq<char> {
    match r {
        Err(SpawnError::BadImage(reason)) => "refused "@ + vstd::utf8::decode_utf8(binary) + ": "@
            + reason@ + "\n"@,
        _ => Seq::empty(),
    }
}

/// What a request to start a service changes and returns. The effects name the
/// frames that hold code no processor has fetched yet, and say why an image was
/// refused.
pub open spec fn spawn_done(
    k0: Kernel,
    k1: Kernel,
    programs: Programs,
    ptr: u64,
    fx0: Effects,
    fx1: Effects,
    o: Outcome,
) -> bool {
    let q = request_at(k0, ptr);
    let name = caller_bytes(k0, q.name_ptr, q.name_len);
    let binary = caller_bytes(k0, q.binary_ptr, q.binary_len);
    if spawn_refusal(k0, programs, ptr) is Some {
        &&& o == failed(spawn_refusal(k0, programs, ptr).unwrap())
        &&& delivery::untouched(k0, k1)
        &&& fx1.console@ == fx0.console@
    } else if builtin_mark().is_prefix_of(binary) {
        &&& builtin_started(k0, k1, builtin_entry(programs, binary).unwrap(), name, o)
        &&& fx1.console@ == fx0.console@
    } else {
        exists|child: HandleTable|
            {
                &&& child@ == child_table(
                    caller(k0).handles@,
                    grants_of(k0, q),
                    q.grants_len as int,
                )
                &&& #[trigger] image_started(
                    k0,
                    k1,
                    programs.images.spec_find(binary).unwrap(),
                    child,
                    grants_of(k0, q),
                    q.arg,
                    name,
                    binary,
                    fx0,
                    fx1,
                    o,
                )
            }
    }
}

/// Reads `len` bytes of the caller's memory.
fn read_bytes(k: &Kernel, va: u64, len: u64) -> (r: Result<Vec<u8>, Error>)
    requires
        k.wf(),
        caller(*k).space is Some,
        len <= MAX_LOG,
    ensures
        match r {
            Ok(data) => caller_reads(*k, va, len) && data@ == caller_bytes(*k, va, len),
            Err(e) => e == Error::BadPointer && !caller_reads(*k, va, len),
        },
{
    let cur: usize = k.sched.current;
    assert(kernel::task_mem_ok(k.sched.tasks@[cur as int], k.mem@));
    match &k.sched.tasks[cur].space {
        None => Err(Error::NotPermitted),
        Some(space) => {
            let mut data: Vec<u8> = vec![0u8;len as usize];
            match addrspace::copy_from_user(space, &k.mem, va, &mut data) {
                Err(e) => Err(e),
                Ok(()) => Ok(data),
            }
        },
    }
}

/// Reads the grants of a request.
fn read_grants(k: &Kernel, q: &SpawnRequest) -> (r: Result<Vec<Grant>, Error>)
    requires
        k.wf(),
        caller(*k).space is Some,
        q.grants_len <= MAX_HANDLES,
    ensures
        match r {
            Ok(grants) => grants_readable(*k, *q) && grants@ == grants_of(*k, *q),
            Err(e) => e == Error::BadPointer && !grants_readable(*k, *q),
        },
{
    let cur: usize = k.sched.current;
    assert(kernel::task_mem_ok(k.sched.tasks@[cur as int], k.mem@));
    let mut grants: Vec<Grant> = Vec::new();
    let n: usize = q.grants_len as usize;
    match &k.sched.tasks[cur].space {
        None => Err(Error::NotPermitted),
        Some(space) => {
            let mut i: usize = 0;
            while i < n
                invariant
                    i <= n,
                    n == q.grants_len,
                    n <= MAX_HANDLES,
                    space.wf(k.mem@),
                    caller(*k).space == Some(*space),
                    forall|j: int| 0 <= j < i ==> #[trigger] grant_readable(*k, *q, j),
                    grants@ =~= Seq::new(i as nat, |j: int| grant_at(*k, *q, j)),
                decreases n - i,
            {
                let va: u64 = match q.grants_ptr.checked_add(8 * (i as u64)) {
                    None => {
                        assert(!grant_readable(*k, *q, i as int));
                        return Err(Error::BadPointer);
                    },
                    Some(va) => va,
                };
                match addrspace::read_user::<Grant>(space, &k.mem, va) {
                    Err(e) => {
                        assert(!grant_readable(*k, *q, i as int));
                        return Err(e);
                    },
                    Ok(g) => {
                        proof {
                            wire::law_grant_round_trip(g);
                            assert(g == grant_at(*k, *q, i as int));
                            assert(grant_readable(*k, *q, i as int));
                        }
                        grants.push(g);
                    },
                }
                i = i + 1;
            }
            assert(grants@ =~= grants_of(*k, *q));
            Ok(grants)
        },
    }
}

/// Whether an earlier grant already moves the receive right of `channel`.
fn is_moved_before(table: &HandleTable, grants: &Vec<Grant>, i: usize, channel: u32) -> (r: bool)
    requires
        table.wf(),
        i <= grants@.len(),
    ensures
        r == moved_before(table@, grants@, i as int, channel),
{
    let mut j: usize = 0;
    while j < i
        invariant
            table.wf(),
            j <= i <= grants@.len(),
            forall|x: int|
                0 <= x < j ==> !(carries((#[trigger] grants@[x]).rights, RIGHT_RECV) && (slot_of(
                    table@,
                    grants@[x],
                ) matches Some(y) && y.channel == channel)),
        decreases i - j,
    {
        let g: Grant = grants[j];
        if g.rights.contains(Rights::recv()) {
            match table.get(g.handle) {
                Some(y) => {
                    if y.channel == channel {
                        assert(carries(grants@[j as int].rights, RIGHT_RECV));
                        return true;
                    }
                },
                None => {},
            }
        }
        j = j + 1;
    }
    false
}

/// Resolves every grant against init's table; nothing changes. The result is
/// the child's table.
fn resolve(k: &Kernel, grants: &Vec<Grant>) -> (r: Result<HandleTable, Error>)
    requires
        k.wf(),
        grants@.len() <= MAX_HANDLES,
    ensures
        ({
            let hs = caller(*k).handles@;
            let n = grants@.len() as int;
            match r {
                Ok(child) => {
                    &&& child.wf()
                    &&& grants_error(k.ipc@, hs, k.sched.current, grants@, n) is None
                    &&& child@ == child_table(hs, grants@, n)
                },
                Err(e) => grants_error(k.ipc@, hs, k.sched.current, grants@, n) == Some(e),
            }
        }),
{
    let init: usize = k.sched.current;
    assert(k.sched.tasks@[init as int].shape());
    let table: &HandleTable = &k.sched.tasks[init].handles;
    let mut child: HandleTable = HandleTable::empty();
    let mut i: usize = 0;
    assert(child@ =~= child_table(table@, grants@, 0));
    while i < grants.len()
        invariant
            k.wf(),
            init == k.sched.current,
            init < MAX_TASKS,
            *table == caller(*k).handles,
            table.wf(),
            child.wf(),
            i <= grants@.len() <= MAX_HANDLES,
            grants_error(k.ipc@, table@, init, grants@, i as int) is None,
            child@ == child_table(table@, grants@, i as int),
        decreases grants@.len() - i,
    {
        proof {
            lemma_grants_error_kept(
                k.ipc@,
                table@,
                init,
                grants@,
                i as int + 1,
                grants@.len() as int,
            );
            ipc::law_bounds(k.ipc);
        }
        let g: Grant = grants[i];
        let ghost e0 = grant_error(k.ipc@, table@, init, grants@, i as int);
        if !Rights::send().union(Rights::recv()).contains(g.rights) {
            assert(e0 == Some(Error::Invalid));
            return Err(Error::Invalid);
        }
        let slot: Slot = match table.get(g.handle) {
            None => {
                assert(e0 == Some(Error::NoSuchHandle));
                return Err(Error::NoSuchHandle);
            },
            Some(slot) => slot,
        };
        if g.rights.contains(Rights::recv()) {
            let again: bool = is_moved_before(table, grants, i, slot.channel);
            if again || !slot.rights.contains(Rights::recv()) {
                let other: bool = match ipc::receiver(&k.ipc, slot.channel) {
                    Some(r) => r != init,
                    None => false,
                };
                if again || other {
                    assert(e0 == Some(Error::ReceiverTaken));
                    return Err(Error::ReceiverTaken);
                }
                assert(e0 == Some(Error::NoRight));
                return Err(Error::NoRight);
            }
        }
        if g.rights.contains(Rights::send()) && !slot.rights.contains(Rights::send()) {
            assert(e0 == Some(Error::NoRight));
            return Err(Error::NoRight);
        }
        assert(e0 is None);
        let ghost before = child@;
        match child.insert(Slot { channel: slot.channel, rights: g.rights }) {
            Err(e) => {
                assert(before[i as int] is None);
                assert(false);
                return Err(e);
            },
            Ok(h) => {
                proof {
                    assert(before[i as int] is None);
                    assert forall|j: int| 0 <= j < i implies #[trigger] before[j] is Some by {}
                    if h.0 < i {
                        assert(before[h.0 as int] is Some);
                    }
                    assert(h.0 == i);
                    assert(child@ =~= child_table(table@, grants@, i + 1));
                }
            },
        }
        i = i + 1;
    }
    Ok(child)
}

proof fn lemma_grants_error_kept(
    v: IpcView,
    hs: Seq<Option<Slot>>,
    init: usize,
    grants: Seq<Grant>,
    n: int,
    total: int,
)
    requires
        0 <= n <= total,
    ensures
        grants_error(v, hs, init, grants, n) is Some ==> grants_error(v, hs, init, grants, total)
            == grants_error(v, hs, init, grants, n),
    decreases total - n,
{
    if n < total {
        lemma_grants_error_kept(v, hs, init, grants, n + 1, total);
    }
}

/// Moves the granted receive rights to task `id` and names it, before it can run.
fn introduce(k: &mut Kernel, id: usize, init: usize, grants: &Vec<Grant>, name: &[u8])
    requires
        old(k).wf(),
        init < MAX_TASKS,
    ensures
        final(k).wf(),
        introduced(*old(k), *final(k), id, init, grants@, name@),
{
    let ghost hs = old(k).sched.tasks@[init as int].handles@;
    let mut i: usize = 0;
    while i < grants.len()
        invariant
            init < MAX_TASKS,
            hs == old(k).sched.tasks@[init as int].handles@,
            i <= grants@.len(),
            k.wf(),
            k.same_tables(*old(k)),
            k.mem == old(k).mem,
            k.metrics == old(k).metrics,
            k.sched.same_but_tasks(old(k).sched),
            (k.ipc@, k.sched.tasks@[init as int].handles@) == bound(
                old(k).ipc@,
                hs,
                grants@,
                i as int,
                id,
                init,
            ),
            forall|j: int|
                0 <= j < MAX_TASKS ==> kernel::same_but_handles(
                    #[trigger] k.sched.tasks@[j],
                    old(k).sched.tasks@[j],
                ),
            forall|j: int|
                0 <= j < MAX_TASKS && j != init ==> (#[trigger] k.sched.tasks@[j]).handles@ == old(k).sched.tasks@[j].handles@,
        decreases grants@.len() - i,
    {
        let g: Grant = grants[i];
        let ghost k1 = *k;
        assert(k.sched.tasks@[init as int].shape());
        if g.rights.contains(Rights::recv()) {
            let mut channel: Option<u32> = None;
            match k.sched.tasks[init].handles.get_mut(g.handle) {
                None => {},
                Some(slot) => {
                    slot.rights = slot.rights.without(Rights::recv());
                    channel = Some(slot.channel);
                },
            }
            proof {
                assert forall|j: int| 0 <= j < MAX_TASKS implies kernel::same_but_handles(
                    #[trigger] k.sched.tasks@[j],
                    k1.sched.tasks@[j],
                ) && k.sched.tasks@[j].handles.wf() by {
                    assert(k1.sched.tasks@[j].shape());
                    if j != init {
                        assert(k.sched.tasks@[j] == k1.sched.tasks@[j]);
                    }
                }
                kernel::lemma_handles_changed(k1, k.sched);
                assert forall|j: int| 0 <= j < MAX_TASKS implies kernel::same_but_handles(
                    #[trigger] k.sched.tasks@[j],
                    old(k).sched.tasks@[j],
                ) by {
                    assert(kernel::same_but_handles(k.sched.tasks@[j], k1.sched.tasks@[j]));
                    assert(kernel::same_but_handles(k1.sched.tasks@[j], old(k).sched.tasks@[j]));
                }
            }
            match channel {
                None => {},
                Some(c) => {
                    ipc::set_receiver_with_home(&mut k.ipc, c, id, init, g.handle.0);
                },
            }
        }
        i = i + 1;
    }
    registry::on_spawn(&mut k.registry, id, name);
}

/// What the request says: the name and the binary, once both are accepted.
fn read_request(k: &Kernel, ptr: u64) -> (r: Result<(SpawnRequest, Vec<u8>, Vec<u8>), Error>)
    requires
        k.wf(),
    ensures
        match r {
            Ok((q, name, binary)) => {
                &&& is_init(*k)
                &&& caller(*k).space is Some
                &&& addrspace::holds::<SpawnRequest>(
                    caller(*k).space.unwrap(),
                    k.mem@,
                    ptr as int,
                    false,
                )
                &&& q == request_at(*k, ptr)
                &&& 0 < q.name_len <= NAME_LEN
                &&& 0 < q.binary_len <= MAX_BINARY_NAME
                &&& q.grants_len <= MAX_HANDLES
                &&& caller_reads(*k, q.name_ptr, q.name_len)
                &&& name@ == caller_bytes(*k, q.name_ptr, q.name_len)
                &&& good_name(name@)
                &&& caller_reads(*k, q.binary_ptr, q.binary_len)
                &&& binary@ == caller_bytes(*k, q.binary_ptr, q.binary_len)
                &&& vstd::utf8::valid_utf8(binary@)
            },
            Err(e) => forall|programs: Programs| #[trigger]
                spawn_refusal(*k, programs, ptr) == Some(e),
        },
{
    let init: usize = k.sched.current;
    if init == 0 || init != k.sched.init_task {
        return Err(Error::NotPermitted);
    }
    let q: SpawnRequest = match &k.sched.tasks[init].space {
        None => {
            return Err(Error::NotPermitted);
        },
        Some(space) => {
            assert(kernel::task_mem_ok(k.sched.tasks@[init as int], k.mem@));
            match addrspace::read_user::<SpawnRequest>(space, &k.mem, ptr) {
                Err(e) => {
                    return Err(e);
                },
                Ok(q) => q,
            }
        },
    };
    proof {
        wire::law_request_round_trip(q);
        assert(q == request_at(*k, ptr));
    }
    if q.name_len == 0 || q.name_len > NAME_LEN as u64 || q.binary_len == 0 || q.binary_len
        > MAX_BINARY_NAME as u64 || q.grants_len > MAX_HANDLES as u64 {
        return Err(Error::Invalid);
    }
    let name: Vec<u8> = match read_bytes(k, q.name_ptr, q.name_len) {
        Err(e) => {
            return Err(e);
        },
        Ok(name) => name,
    };
    if !valid_name(name.as_slice()) {
        return Err(Error::Invalid);
    }
    let binary: Vec<u8> = match read_bytes(k, q.binary_ptr, q.binary_len) {
        Err(e) => {
            return Err(e);
        },
        Ok(binary) => binary,
    };
    if text::utf8_text(binary.as_slice()).is_none() {
        return Err(Error::Invalid);
    }
    Ok((q, name, binary))
}

pub proof fn lemma_free_slot_is_free(tasks: Seq<Task>, from: int)
    ensures
        spawn::free_slot(tasks, from) < MAX_TASKS ==> tasks[spawn::free_slot(
            tasks,
            from,
        )].state == context::State::Free,
    decreases MAX_TASKS - from,
{
    if from < MAX_TASKS && tasks[from].state != context::State::Free {
        lemma_free_slot_is_free(tasks, from + 1);
    }
}

/// A task that is started takes no slot whose task has a stack.
proof fn lemma_start_keeps_stack(k0: Kernel, ka: Kernel)
    requires
        k0.wf(),
        spawn::task_installed(k0, ka, spawn::free_slot(k0.sched.tasks@, 1)) || spawn::spawn_undone(
            k0,
            ka,
        ),
    ensures
        stack_kept(k0, ka),
{
    lemma_free_slot_is_free(k0.sched.tasks@, 1);
    assert(caller(k0).shape());
}

fn start_builtin(k: &mut Kernel, entry: u64, name: &[u8]) -> (o: Outcome)
    requires
        old(k).wf(),
    ensures
        final(k).wf(),
        builtin_started(*old(k), *final(k), entry, name@, o),
        stack_kept(*old(k), *final(k)),
{
    let init: usize = k.sched.current;
    let r: Result<TaskRef, SpawnError> = spawn::spawn(k, entry);
    let ghost ka = *k;
    assert(spawn::kernel_task_started(*old(k), ka, entry, r));
    proof {
        lemma_start_keeps_stack(*old(k), ka);
    }
    match r {
        Err(e) => err(spawn_error(e)),
        Ok(task) => {
            let none: Vec<Grant> = Vec::new();
            introduce(k, task.id as usize, init, &none, name);
            assert(none@ =~= Seq::<Grant>::empty());
            Outcome::Return(task.id as i64)
        },
    }
}

fn start_image(
    k: &mut Kernel,
    image: &[u8],
    child: HandleTable,
    grants: &Vec<Grant>,
    arg: u64,
    name: &[u8],
    binary: &[u8],
    fx: &mut Effects,
) -> (o: Outcome)
    requires
        old(k).wf(),
        child.wf(),
        grants@.len() <= MAX_HANDLES,
        vstd::utf8::valid_utf8(binary@),
    ensures
        final(k).wf(),
        image_started(
            *old(k),
            *final(k),
            image@,
            child,
            grants@,
            arg,
            name@,
            binary@,
            *old(fx),
            *final(fx),
            o,
        ),
        elf::still_listed(old(fx).code@, final(fx).code@),
        stack_kept(*old(k), *final(k)),
{
    let init: usize = k.sched.current;
    let ghost ct = child;
    let r: Result<TaskRef, SpawnError> = spawn::spawn_el0(
        k,
        image,
        child,
        grants.len() as u64,
        arg,
        &mut fx.code,
    );
    let ghost ka = *k;
    assert(spawn::user_task_started(*old(k), ka, image@, ct, grants@.len() as u64, arg, r));
    proof {
        lemma_start_keeps_stack(*old(k), ka);
    }
    complain(&mut fx.console, binary, &r);
    match r {
        Err(e) => err(spawn_error(e)),
        Ok(task) => {
            introduce(k, task.id as usize, init, grants, name);
            Outcome::Return(task.id as i64)
        },
    }
}

/// Says why an image was refused.
fn complain(out: &mut Vec<char>, binary: &[u8], r: &Result<TaskRef, SpawnError>)
    requires
        vstd::utf8::valid_utf8(binary@),
    ensures
        final(out)@ == old(out)@ + complaint(binary@, *r),
{
    if let Err(SpawnError::BadImage(reason)) = r {
        text::push_str(out, "refused ");
        if let Some(s) = text::utf8_text(binary) {
            proof {
                vstd::utf8::encode_utf8_decode_utf8(s@);
            }
            text::push_str(out, s);
        }
        text::push_str(out, ": ");
        text::push_str(out, reason);
        text::push_str(out, "\n");
    }
    assert(out@ =~= old(out)@ + complaint(binary@, *r));
}

/// init only: starts a service. SEND grants are copied from init's handles;
/// RECV grants move out of init's slot into the child, and come home when the
/// child exits.
fn spawn(k: &mut Kernel, programs: &Programs, request_ptr: u64, fx: &mut Effects) -> (o: Outcome)
    requires
        old(k).wf(),
    ensures
        final(k).wf(),
        spawn_done(*old(k), *final(k), *programs, request_ptr, *old(fx), *final(fx), o),
        elf::still_listed(old(fx).code@, final(fx).code@),
        stack_kept(*old(k), *final(k)),
{
    let ghost k0 = *old(k);
    let (q, name, binary): (SpawnRequest, Vec<u8>, Vec<u8>) = match read_request(k, request_ptr) {
        Err(e) => {
            assert(spawn_refusal(k0, *programs, request_ptr) == Some(e));
            return err(e);
        },
        Ok(t) => t,
    };
    let mark: [u8; 8] = [0x62, 0x75, 0x69, 0x6C, 0x74, 0x69, 0x6E, 0x3A];
    assert(mark@ =~= builtin_mark());
    if text::starts_with(binary.as_slice(), mark.as_slice()) {
        if q.grants_len != 0 {
            return err(Error::Invalid);
        }
        let rest: &[u8] = vstd::slice::slice_subrange(binary.as_slice(), 8, binary.len());
        let entry: u64 = match boot_images::builtin(&programs.builtins, rest) {
            None => {
                return err(Error::NotFound);
            },
            Some(entry) => entry,
        };
        start_builtin(k, entry, name.as_slice())
    } else {
        let image: &[u8] = match programs.images.find(binary.as_slice()) {
            None => {
                return err(Error::NotFound);
            },
            Some(image) => image,
        };
        let grants: Vec<Grant> = match read_grants(k, &q) {
            Err(e) => {
                return err(e);
            },
            Ok(grants) => grants,
        };
        let child: HandleTable = match resolve(k, &grants) {
            Err(e) => {
                return err(e);
            },
            Ok(child) => child,
        };
        let ghost ct = child;
        let o: Outcome = start_image(
            k,
            image,
            child,
            &grants,
            q.arg,
            name.as_slice(),
            binary.as_slice(),
            fx,
        );
        assert(image_started(
            k0,
            *k,
            programs.images.spec_find(binary@).unwrap(),
            ct,
            grants_of(k0, q),
            q.arg,
            name@,
            binary@,
            *old(fx),
            *fx,
            o,
        ));
        o
    }
}

/// The reason that a task may give for its own end: a fault is the kernel's to
/// report.
pub open spec fn own_reason(code: u64) -> ExitReason {
    if code == ExitReason::Panic.spec_code() {
        ExitReason::Panic
    } else {
        ExitReason::Clean
    }
}

/// What the end of the current task changes and returns.
pub open spec fn exit_done(k0: Kernel, k1: Kernel, reason: ExitReason, now_ns: u64, o: Outcome) -> bool {
    let cur = k0.sched.current;
    let generation = k0.sched.generations@[cur as int];
    if cur == 0 {
        o == Outcome::Exited && k1 == k0
    } else if cur == k0.sched.init_task {
        o == Outcome::Halt && k1 == k0
    } else {
        &&& o == Outcome::Exited
        &&& exists|km: Kernel, msg: Message, sent: Result<Option<usize>, ipc::Error>|
            {
                &&& #[trigger] lifecycle::retired(k0, km, reason)
                &&& lifecycle::is_exit_notice(msg, cur, reason, generation)
                &&& #[trigger] delivery::notice_sent(km, k1, ipc::INIT_INBOX, msg, now_ns, sent)
            }
    }
}

fn exit(k: &mut Kernel, reason: u64, now_ns: u64) -> (o: Outcome)
    requires
        old(k).wf(),
    ensures
        final(k).wf(),
        exit_done(*old(k), *final(k), own_reason(reason), now_ns, o),
        stack_kept(*old(k), *final(k)),
{
    let reason: ExitReason = match ExitReason::from_u64(reason) {
        Some(ExitReason::Panic) => ExitReason::Panic,
        _ => ExitReason::Clean,
    };
    match lifecycle::retire_current(k, reason, now_ns) {
        Retirement::InitExited => Outcome::Halt,
        _ => Outcome::Exited,
    }
}

/// How many bytes of a log line of `len` bytes are shown.
pub open spec fn log_len(len: u64) -> u64 {
    if len < MAX_LOG {
        len
    } else {
        MAX_LOG as u64
    }
}

/// The line that logging `data` prints for a task called `name`.
pub open spec fn log_line(name: Seq<u8>, data: Seq<u8>, cut: bool) -> Seq<char> {
    seq!['['] + vstd::utf8::decode_utf8(registry::shown(name)) + seq![']', ' ']
        + text::tamed_bytes(data) + (if cut {
        seq!['\u{2026}']
    } else {
        Seq::empty()
    }) + seq!['\n']
}

/// Appends a name as text.
fn push_name(out: &mut Vec<char>, name: &registry::Name)
    requires
        name.wf(),
    ensures
        final(out)@ == old(out)@ + vstd::utf8::decode_utf8(registry::shown(name@)),
{
    let bytes: Vec<u8> = name.as_str();
    match text::utf8_text(bytes.as_slice()) {
        Some(s) => {
            proof {
                vstd::utf8::encode_utf8_decode_utf8(s@);
            }
            text::push_str(out, s);
        },
        None => {
            proof {
                text::lemma_question_mark();
            }
        },
    }
}

/// What logging changes and returns: one line on the console, as the caller's.
pub open spec fn log_done(k: Kernel, before: Seq<char>, after: Seq<char>, ptr: u64, len: u64, o: Outcome) -> bool {
    if caller(k).space is None {
        o == failed(Error::NotPermitted) && after == before
    } else if !caller_reads(k, ptr, log_len(len)) {
        o == failed(Error::BadPointer) && after == before
    } else {
        &&& o == Outcome::Return(0)
        &&& after == before + log_line(
            k.registry.names()[k.sched.current as int]@,
            caller_bytes(k, ptr, log_len(len)),
            len > MAX_LOG,
        )
    }
}

/// Prints one line as "[name] text". The text is capped at `MAX_LOG` bytes, and
/// whatever could break the line becomes `?`, so that a log can never forge
/// another task's line.
fn log(k: &Kernel, ptr: u64, len: u64, fx: &mut Effects) -> (o: Outcome)
    requires
        k.wf(),
    ensures
        log_done(*k, old(fx).console@, final(fx).console@, ptr, len, o),
        final(fx).code@ == old(fx).code@,
{
    let cur: usize = k.sched.current;
    if k.sched.tasks[cur].space.is_none() {
        return err(Error::NotPermitted);
    }
    let n: u64 = if len < MAX_LOG as u64 { len } else { MAX_LOG as u64 };
    let data: Vec<u8> = match read_bytes(k, ptr, n) {
        Err(e) => {
            return err(e);
        },
        Ok(data) => data,
    };
    let ghost before = fx.console@;
    let name: registry::Name = registry::name(&k.registry, cur);
    fx.console.push('[');
    push_name(&mut fx.console, &name);
    fx.console.push(']');
    fx.console.push(' ');
    text::push_untrusted(&mut fx.console, data.as_slice());
    if len > MAX_LOG as u64 {
        fx.console.push('\u{2026}');
    }
    fx.console.push('\n');
    proof {
        assert(fx.console@ =~= before + log_line(name@, data@, len > MAX_LOG));
    }
    Outcome::Return(0)
}

/// What a system call changes and returns.
pub open spec fn call_done(
    k0: Kernel,
    k1: Kernel,
    programs: Programs,
    nr: u64,
    a: Seq<u64>,
    now_ns: u64,
    fx0: Effects,
    fx1: Effects,
    o: Outcome,
) -> bool {
    &&& nr != sys::LOG && nr != sys::SPAWN ==> fx1.console@ == fx0.console@
    &&& elf::still_listed(fx0.code@, fx1.code@)
    &&& nr != sys::SPAWN ==> fx1.code@ == fx0.code@
    &&& if nr == sys::SEND {
        send_done(k0, k1, a[0], a[1], now_ns, o)
    } else if nr == sys::RECV {
        recv_done(k0, k1, a[0], a[1], a[2], true, now_ns, o)
    } else if nr == sys::TRY_RECV {
        recv_done(k0, k1, a[0], a[1], 0, false, now_ns, o)
    } else if nr == sys::YIELD {
        o == Outcome::Yield && k1 == k0
    } else if nr == sys::EXIT {
        exit_done(k0, k1, own_reason(a[0]), now_ns, o)
    } else if nr == sys::TIME_NS {
        o == Outcome::Return(now_ns as i64) && k1 == k0
    } else if nr == sys::LOG {
        log_done(k0, fx0.console@, fx1.console@, a[0], a[1], o) && k1 == k0
    } else if nr == sys::CHANNEL_CREATE {
        create_done(k0, k1, o)
    } else if nr == sys::SPAWN {
        spawn_done(k0, k1, programs, a[0], fx0, fx1, o)
    } else {
        o == failed(Error::NoSuchSyscall) && k1 == k0
    }
}

/// Carries out system call `nr` with its arguments.
pub fn dispatch(
    k: &mut Kernel,
    programs: &Programs,
    nr: u64,
    a: [u64; 6],
    now_ns: u64,
    fx: &mut Effects,
) -> (o: Outcome)
    requires
        old(k).wf(),
    ensures
        final(k).wf(),
        call_done(*old(k), *final(k), *programs, nr, a@, now_ns, *old(fx), *final(fx), o),
        stack_kept(*old(k), *final(k)),
{
    match nr {
        sys::SEND => send(k, a[0], a[1], now_ns),
        sys::RECV => recv(k, a[0], a[1], a[2], true, now_ns),
        sys::TRY_RECV => recv(k, a[0], a[1], 0, false, now_ns),
        sys::YIELD => Outcome::Yield,
        sys::EXIT => exit(k, a[0], now_ns),
        sys::TIME_NS => Outcome::Return(now_ns as i64),
        sys::LOG => log(k, a[0], a[1], fx),
        sys::CHANNEL_CREATE => channel_create(k),
        sys::SPAWN => spawn(k, programs, a[0], fx),
        _ => err(Error::NoSuchSyscall),
    }
}

/// How the processor goes on after a system call.
#[derive(Clone, Copy, Debug, PartialEq, Eq, Structural)]
pub enum Resume {
    /// The caller continues from its own frame.
    Caller,
    /// Another task, or the caller in its turn, continues.
    Task(Switch),
    /// The task's kernel stack has been overrun.
    Overrun(usize),
    /// init exited: the system halts.
    Halt,
}

pub open spec fn resumed(r: Result<Switch, usize>) -> Resume {
    match r {
        Ok(sw) => Resume::Task(sw),
        Err(id) => Resume::Overrun(id),
    }
}

/// The word in register `i` of the frame saved at `frame`.
pub open spec fn register(m: Seq<u8>, frame: u64, i: int) -> u64 {
    mem::word(m, frame + 8 * i)
}

pub open spec fn arguments(m: Seq<u8>, frame: u64) -> Seq<u64> {
    Seq::new(6, |i: int| register(m, frame, i))
}

/// `k1` is `k0` with `value` in the first register of the saved frame.
pub open spec fn answered(k0: Kernel, k1: Kernel, frame: u64, value: u64) -> bool {
    &&& k1.same_tables(k0)
    &&& k1.sched == k0.sched
    &&& k1.ipc == k0.ipc
    &&& k1.metrics == k0.metrics
    &&& k1.mem@ == mem::splice(k0.mem@, frame as int, bytes::le_bytes(value as int, 8))
}

/// How the outcome `o` of a call, which left the kernel as `k0`, is carried out.
pub open spec fn carried_out(k0: Kernel, k1: Kernel, frame: u64, o: Outcome, r: Resume) -> bool {
    match o {
        Outcome::Return(value) => r == Resume::Caller && answered(k0, k1, frame, value as u64),
        Outcome::Yield => exists|ka: Kernel, sw: Result<Switch, usize>|
            {
                &&& answered(k0, ka, frame, 0)
                &&& #[trigger] context::switched_away(ka, k1, frame, sw)
                &&& r == resumed(sw)
            },
        Outcome::Exited | Outcome::Blocked => exists|sw: Result<Switch, usize>|
            {
                &&& #[trigger] context::switched_away(k0, k1, frame, sw)
                &&& r == resumed(sw)
            },
        Outcome::HandOff(task) => exists|ka: Kernel, sw: Result<Switch, usize>|
            {
                &&& answered(k0, ka, frame, 0)
                &&& #[trigger] context::handed_off(ka, k1, frame, task, sw)
                &&& r == resumed(sw)
            },
        Outcome::Halt => r == Resume::Halt && k1 == k0,
    }
}

/// A task that gives up the processor or hands it on resumes with 0; one that
/// is waiting is written its result when it is woken.
fn carry_out(k: &mut Kernel, frame: u64, o: Outcome) -> (r: Resume)
    requires
        old(k).wf(),
        context::frame_of_current(*old(k), frame),
        (o is Return || o is Yield || o is HandOff) ==> caller(*old(k)).kernel_stack_pages > 0,
    ensures
        final(k).wf(),
        carried_out(*old(k), *final(k), frame, o, r),
{
    let cur: usize = k.sched.current;
    match o {
        Outcome::Return(value) => {
            context::write_stack_word(k, cur, frame, value as u64);
            Resume::Caller
        },
        Outcome::Yield => {
            context::write_stack_word(k, cur, frame, 0);
            let ghost ka = *k;
            assert(answered(*old(k), ka, frame, 0));
            let sw: Result<Switch, usize> = context::switch_away(k, frame);
            assert(context::switched_away(ka, *k, frame, sw));
            resume(sw)
        },
        Outcome::Exited | Outcome::Blocked => {
            let sw: Result<Switch, usize> = context::switch_away(k, frame);
            assert(context::switched_away(*old(k), *k, frame, sw));
            resume(sw)
        },
        Outcome::HandOff(task) => {
            context::write_stack_word(k, cur, frame, 0);
            let ghost ka = *k;
            assert(answered(*old(k), ka, frame, 0));
            let sw: Result<Switch, usize> = context::hand_off(k, frame, task);
            assert(context::handed_off(ka, *k, frame, task, sw));
            resume(sw)
        },
        Outcome::Halt => Resume::Halt,
    }
}

fn resume(sw: Result<Switch, usize>) -> (r: Resume)
    ensures
        r == resumed(sw),
{
    match sw {
        Ok(sw) => Resume::Task(sw),
        Err(id) => Resume::Overrun(id),
    }
}

/// A system call from the frame that the caller saved on its kernel stack: the
/// number is in register 8, the arguments are in registers 0 to 5, and the
/// result goes into register 0.
pub fn syscall_entry(
    k: &mut Kernel,
    programs: &Programs,
    frame: u64,
    now_ns: u64,
    fx: &mut Effects,
) -> (r: Resume)
    requires
        old(k).wf(),
        caller(*old(k)).kernel_stack_pages > 0,
        caller(*old(k)).kernel_stack_bottom <= frame,
        frame + 72 <= caller(*old(k)).kernel_stack_bottom + context::KERNEL_STACK_SIZE,
    ensures
        final(k).wf(),
        exists|ka: Kernel, o: Outcome|
            {
                &&& #[trigger] call_done(
                    *old(k),
                    ka,
                    *programs,
                    register(old(k).mem@, frame, 8),
                    arguments(old(k).mem@, frame),
                    now_ns,
                    *old(fx),
                    *final(fx),
                    o,
                )
                &&& carried_out(ka, *final(k), frame, o, r)
            },
{
    proof {
        assert(kernel::task_mem_ok(caller(*k), k.mem@));
    }
    let nr: u64 = k.mem.read_word(frame + 64);
    let a: [u64; 6] = [
        k.mem.read_word(frame),
        k.mem.read_word(frame + 8),
        k.mem.read_word(frame + 16),
        k.mem.read_word(frame + 24),
        k.mem.read_word(frame + 32),
        k.mem.read_word(frame + 40),
    ];
    assert(a@ =~= arguments(old(k).mem@, frame));
    let o: Outcome = dispatch(k, programs, nr, a, now_ns, fx);
    let ghost ka = *k;
    proof {
        assert(nr == register(old(k).mem@, frame, 8));
        assert(call_done(
            *old(k),
            ka,
            *programs,
            register(old(k).mem@, frame, 8),
            arguments(old(k).mem@, frame),
            now_ns,
            *old(fx),
            *fx,
            o,
        ));
    }
    let r: Resume = carry_out(k, frame, o);
    assert(carried_out(ka, *k, frame, o, r));
    r
}

/// A child never gets a right that init does not hold on the same channel.
pub proof fn law_grants_within_rights(
    v: IpcView,
    hs: Seq<Option<Slot>>,
    init: usize,
    grants: Seq<Grant>,
    n: int,
    i: int,
)
    requires
        grants_error(v, hs, init, grants, n) is None,
        0 <= i < n <= grants.len(),
        n <= MAX_HANDLES,
    ensures
        slot_of(hs, grants[i]) is Some,
        child_table(hs, grants, n)[i] == Some(
            Slot {
                channel: slot_of(hs, grants[i]).unwrap().channel,
                rights: grants[i].rights,
            },
        ),
        carries(grants[i].rights, RIGHT_SEND) ==> carries(
            slot_of(hs, grants[i]).unwrap().rights,
            RIGHT_SEND,
        ),
        carries(grants[i].rights, RIGHT_RECV) ==> carries(
            slot_of(hs, grants[i]).unwrap().rights,
            RIGHT_RECV,
        ),
        (RIGHT_SEND | RIGHT_RECV) & grants[i].rights.0 == grants[i].rights.0,
{
    lemma_grants_error_kept(v, hs, init, grants, i + 1, n);
    if grants_error(v, hs, init, grants, i) is Some {
        lemma_grants_error_kept(v, hs, init, grants, i, n);
    }
}

/// No two grants of one accepted request move the same receive right.
pub proof fn law_one_receiver(
    v: IpcView,
    hs: Seq<Option<Slot>>,
    init: usize,
    grants: Seq<Grant>,
    n: int,
    i: int,
    j: int,
)
    requires
        grants_error(v, hs, init, grants, n) is None,
        0 <= j < i < n <= grants.len(),
        n <= MAX_HANDLES,
        carries(grants[i].rights, RIGHT_RECV),
        carries(grants[j].rights, RIGHT_RECV),
    ensures
        slot_of(hs, grants[i]).unwrap().channel != slot_of(hs, grants[j]).unwrap().channel,
{
    lemma_grants_error_kept(v, hs, init, grants, i + 1, n);
    if grants_error(v, hs, init, grants, i) is Some {
        lemma_grants_error_kept(v, hs, init, grants, i, n);
    }
    law_grants_within_rights(v, hs, init, grants, n, j);
    law_grants_within_rights(v, hs, init, grants, n, i);
}

/// A call that is refused queues, takes and traces nothing, and changes no handle
/// of a task that lives on. (The time is no refusal, however late it is.)
pub proof fn law_refused_call_queues_nothing(
    k0: Kernel,
    k1: Kernel,
    programs: Programs,
    nr: u64,
    a: Seq<u64>,
    now_ns: u64,
    fx0: Effects,
    fx1: Effects,
    code: i64,
    i: int,
)
    requires
        k0.wf(),
        nr != sys::TIME_NS,
        code < 0,
        call_done(k0, k1, programs, nr, a, now_ns, fx0, fx1, Outcome::Return(code)),
        0 <= i < MAX_TASKS,
    ensures
        lifecycle::same_queues(k0.ipc@, k1.ipc@),
        context::is_live(k0.sched.tasks@[i]) ==> k1.sched.tasks@[i].handles
            == k0.sched.tasks@[i].handles,
{
    if nr == sys::RECV || nr == sys::TRY_RECV {
        if let Ok(id) = caller_channel(k0, a[0], RIGHT_RECV) {
            if k1.ipc@ != k0.ipc@ {
                let v = k0.ipc@;
                let w = k1.ipc@;
                assert(v.live(id));
                assert(w == delivery::consumed_by(v, id, k0.sched.current));
                ipc::law_bounds(k0.ipc);
                assert forall|c: int| 0 <= c < v.chans.len() implies (#[trigger] w.chans[c]).queue
                    == v.chans[c].queue by {}
            }
        }
    } else {
        assert(k1.ipc@ == k0.ipc@);
    }
}

/// Bytes that can all be reached lie in the window of user memory.
proof fn lemma_reach(s: addrspace::AddressSpace, m: Seq<u8>, va: int, len: int, write: bool)
    requires
        len > 0,
    ensures
        s.accessible(m, va, len, write) <==> forall|i: int|
            0 <= i < len ==> (#[trigger] s.spec_translate(m, va + i, write)) is Some,
{
    if forall|i: int| 0 <= i < len ==> (#[trigger] s.spec_translate(m, va + i, write)) is Some {
        assert(s.spec_translate(m, va + 0, write) is Some);
        assert(s.spec_translate(m, va + (len - 1), write) is Some);
        assert forall|a: int| va <= a < va + len implies (#[trigger] s.spec_translate(
            m,
            a,
            write,
        )) is Some by {
            assert(s.spec_translate(m, va + (a - va), write) is Some);
        }
    }
}

/// A send (call 0) is refused with -2 where the handle names no slot, with -3 where
/// the slot does not carry the right to send, with -4 where the caller cannot read
/// all forty bytes of the message, and with -11 where sixteen messages wait in the
/// channel already; then nothing changes. Otherwise the message that the caller
/// wrote is sent to the channel in the slot, as the caller's.
pub proof fn law_send_call(
    k0: Kernel,
    k1: Kernel,
    programs: Programs,
    a: Seq<u64>,
    now_ns: u64,
    fx0: Effects,
    fx1: Effects,
    o: Outcome,
)
    requires
        k0.wf(),
        call_done(k0, k1, programs, 0, a, now_ns, fx0, fx1, o),
        k0.sched.tasks@[k0.sched.current as int].space is Some,
    ensures
        ({
            let t = k0.sched.tasks@[k0.sched.current as int];
            let s = t.space.unwrap();
            let named = a[0] < 16 && t.handles@[a[0] as int] is Some;
            let slot = t.handles@[a[0] as int].unwrap();
            let may = named && slot.rights.0 & 1 == 1;
            let readable = a[1] % 8 == 0 && forall|i: int|
                0 <= i < 40 ==> (#[trigger] s.spec_translate(k0.mem@, a[1] + i, false)) is Some;
            let known = slot.channel < k0.ipc@.next_id;
            let queue = k0.ipc@.chans[slot.channel as int].queue;
            let done = may && readable && known && queue.len() < 16;
            &&& !named ==> o == Outcome::Return((-2) as i64)
            &&& named && !may ==> o == Outcome::Return((-3) as i64)
            &&& may && !readable ==> o == Outcome::Return((-4) as i64)
            &&& may && readable && known && queue.len() == 16 ==> o == Outcome::Return((-11) as i64)
            &&& !done ==> o is Return && o->Return_0 < 0 && k1.ipc@ == k0.ipc@ && k1.mem@ == k0.mem@
                && k1.sched == k0.sched
            &&& done ==> exists|msg: Message, woken: Option<usize>|
                {
                    &&& #[trigger] msg.spelled() == Seq::new(
                        40,
                        |i: int| k0.mem@[s.spec_translate(k0.mem@, a[1] + i, false).unwrap()],
                    )
                    &&& #[trigger] delivery::sent(
                        k0,
                        k1,
                        k0.sched.current as u16,
                        slot.channel,
                        msg,
                        now_ns,
                        woken,
                    )
                    &&& woken is None ==> o == Outcome::Return(0)
                    &&& woken is Some ==> o == Outcome::HandOff(woken.unwrap())
                }
        }),
{
    let cur = k0.sched.current;
    let t = k0.sched.tasks@[cur as int];
    let s = t.space.unwrap();
    assert(t.shape());
    ipc::law_bounds(k0.ipc);
    lemma_reach(s, k0.mem@, a[1] as int, 40, false);
    if a[0] < 16 && t.handles@[a[0] as int] is Some {
        ipc::law_sizes(k0.ipc, t.handles@[a[0] as int].unwrap().channel);
    }
    assert(s.user_bytes(k0.mem@, a[1] as int, 40) =~= Seq::new(
        40,
        |i: int| k0.mem@[s.spec_translate(k0.mem@, a[1] + i, false).unwrap()],
    ));
}

/// A receive (call 1, or 2 to poll) is refused with -2 where the handle names no
/// slot, with -3 where the slot does not carry the right to receive, and with -4
/// where the caller cannot write all forty bytes of the buffer. Where a message
/// waits, the oldest one is in the buffer, byte for byte, and the result is 0.
/// Where none does, a poll gives -5, a deadline that has passed gives -6, and
/// otherwise the caller is blocked until a message comes or the deadline passes.
pub proof fn law_receive_call(
    k0: Kernel,
    k1: Kernel,
    programs: Programs,
    nr: u64,
    a: Seq<u64>,
    now_ns: u64,
    fx0: Effects,
    fx1: Effects,
    o: Outcome,
)
    requires
        k0.wf(),
        nr == 1 || nr == 2,
        call_done(k0, k1, programs, nr, a, now_ns, fx0, fx1, o),
        k0.sched.tasks@[k0.sched.current as int].space is Some,
    ensures
        ({
            let cur = k0.sched.current;
            let t = k0.sched.tasks@[cur as int];
            let s = t.space.unwrap();
            let named = a[0] < 16 && t.handles@[a[0] as int] is Some;
            let slot = t.handles@[a[0] as int].unwrap();
            let may = named && slot.rights.0 & 2 == 2;
            let writable = a[1] % 8 == 0 && forall|i: int|
                0 <= i < 40 ==> (#[trigger] s.spec_translate(k0.mem@, a[1] + i, true)) is Some;
            let ok = may && writable && slot.channel < k0.ipc@.next_id;
            let queue = k0.ipc@.chans[slot.channel as int].queue;
            let late = a[2] != 0 && now_ns >= a[2];
            let t1 = k1.sched.tasks@[cur as int];
            &&& !named ==> o == Outcome::Return((-2) as i64)
            &&& named && !may ==> o == Outcome::Return((-3) as i64)
            &&& may && !writable ==> o == Outcome::Return((-4) as i64)
            &&& ok && queue.len() > 0 ==> o == Outcome::Return(0) && s.user_bytes(
                k1.mem@,
                a[1] as int,
                40,
            ) == queue[0].msg.spelled()
            &&& ok && queue.len() == 0 && nr == 2 ==> o == Outcome::Return((-5) as i64)
            &&& ok && queue.len() == 0 && nr == 1 && late ==> o == Outcome::Return((-6) as i64)
            &&& ok && queue.len() == 0 && nr == 1 && !late ==> {
                &&& o == Outcome::Blocked
                &&& t1.state == context::State::Blocked
                &&& t1.wait == Some(
                    UserWait { channel: slot.channel, buf: a[1], deadline_ns: a[2] },
                )
                &&& k1.ipc@.chans[slot.channel as int].waiter == Some(cur)
            }
        }),
{
    let cur = k0.sched.current;
    let t = k0.sched.tasks@[cur as int];
    let s = t.space.unwrap();
    assert(t.shape());
    assert(kernel::task_mem_ok(t, k0.mem@));
    ipc::law_bounds(k0.ipc);
    lemma_reach(s, k0.mem@, a[1] as int, 40, true);
    if a[0] < 16 && t.handles@[a[0] as int] is Some {
        let id = t.handles@[a[0] as int].unwrap().channel;
        ipc::law_sizes(k0.ipc, id);
        if caller_channel(k0, a[0], 2) == Ok::<u32, Error>(id) && addrspace::holds::<Message>(
            s,
            k0.mem@,
            a[1] as int,
            true,
        ) && k0.ipc@.live(id) && k0.ipc@.chans[id as int].queue.len() > 0 {
            let msg = k0.ipc@.chans[id as int].queue[0].msg;
            let (ka, kb) = choose|ka: Kernel, kb: Kernel|
                {
                    &&& #[trigger] delivery::took(k0, ka, id, now_ns)
                    &&& #[trigger] delivery::refill_done(ka, kb, id, now_ns)
                    &&& s.wf(kb.mem@)
                    &&& kernel::translations_kept(k0.sched.tasks@, k0.mem@, kb.mem@)
                    &&& s.user_written(kb.mem@, k1.mem@, a[1] as int, msg.spelled())
                    &&& k1.same_tables(kb)
                    &&& k1.sched == kb.sched
                    &&& k1.ipc@ == kb.ipc@
                    &&& k1.metrics@ == kb.metrics@
                    &&& o == Outcome::Return(0)
                };
            wire::lemma_message_width(msg);
            assert forall|va: int| a[1] <= va < a[1] + 40 implies (#[trigger] s.spec_translate(
                kb.mem@,
                va,
                true,
            )) is Some by {
                assert(k0.sched.tasks@[cur as int].space is Some);
                assert(s.spec_translate(k0.mem@, va, true) is Some);
            }
            addrspace::law_user_copy_round_trip(s, kb.mem@, k1.mem@, a[1] as int, msg.spelled());
        }
    }
}

/// Calls that concern nobody else: 3 yields, 5 tells the time, and a number above
/// 8 is refused with -1. None of them changes anything.
pub proof fn law_plain_calls(
    k0: Kernel,
    k1: Kernel,
    programs: Programs,
    nr: u64,
    a: Seq<u64>,
    now_ns: u64,
    fx0: Effects,
    fx1: Effects,
    o: Outcome,
)
    requires
        nr == 3 || nr == 5 || nr > 8,
        call_done(k0, k1, programs, nr, a, now_ns, fx0, fx1, o),
    ensures
        k1 == k0,
        fx1.console@ == fx0.console@,
        nr == 3 ==> o == Outcome::Yield,
        nr == 5 ==> o == Outcome::Return(now_ns as i64),
        nr > 8 ==> o == Outcome::Return((-1) as i64),
{
}

/// An exit (call 4) ends the caller, and the last thing that init's inbox, channel
/// 2, will give is then the notice of it: who, why and which of its lives. A task
/// may say that it panicked (3); whatever else it says counts as a clean end (1).
/// Where init itself exits, the system halts.
pub proof fn law_exit_call(
    k0: Kernel,
    k1: Kernel,
    programs: Programs,
    a: Seq<u64>,
    now_ns: u64,
    fx0: Effects,
    fx1: Effects,
    o: Outcome,
    reason: ExitReason,
)
    requires
        k0.wf(),
        call_done(k0, k1, programs, 4, a, now_ns, fx0, fx1, o),
        k0.sched.current != 0,
        reason == if a[0] == 3 {
            ExitReason::Panic
        } else {
            ExitReason::Clean
        },
    ensures
        k0.sched.current == k0.sched.init_task ==> o == Outcome::Halt && k1 == k0,
        k0.sched.current != k0.sched.init_task ==> {
            &&& o == Outcome::Exited
            &&& exists|km: Kernel, msg: Message, sent: Result<Option<usize>, ipc::Error>|
                {
                    &&& #[trigger] lifecycle::retired(k0, km, reason)
                    &&& msg.tag == 100 && msg.sender == 0 && msg.len == 24
                    &&& msg.payload@[0] == k0.sched.current
                    &&& msg.payload@[1] == if a[0] == 3 {
                        3u64
                    } else {
                        1u64
                    }
                    &&& msg.payload@[2] == k0.sched.generations@[k0.sched.current as int]
                    &&& #[trigger] delivery::notice_sent(km, k1, 2, msg, now_ns, sent)
                }
        },
{
    if k0.sched.current != k0.sched.init_task {
        let cur = k0.sched.current;
        let (km, msg, sent) = choose|
            km: Kernel,
            msg: Message,
            sent: Result<Option<usize>, ipc::Error>,
        |
            {
                &&& #[trigger] lifecycle::retired(k0, km, reason)
                &&& lifecycle::is_exit_notice(
                    msg,
                    cur,
                    reason,
                    k0.sched.generations@[cur as int],
                )
                &&& #[trigger] delivery::notice_sent(km, k1, ipc::INIT_INBOX, msg, now_ns, sent)
            };
        assert(lifecycle::retired(k0, km, reason));
        assert(delivery::notice_sent(km, k1, 2, msg, now_ns, sent));
        assert(msg.payload@.len() == 4);
    }
}

/// A log (call 6) of a text of at most 256 bytes that holds nothing to break a line
/// prints exactly that text, behind the caller's name in brackets.
pub proof fn law_log_call(
    k0: Kernel,
    k1: Kernel,
    programs: Programs,
    a: Seq<u64>,
    now_ns: u64,
    fx0: Effects,
    fx1: Effects,
    o: Outcome,
    s: Seq<char>,
)
    requires
        k0.wf(),
        call_done(k0, k1, programs, 6, a, now_ns, fx0, fx1, o),
        caller(k0).space is Some,
        a[1] <= 256,
        caller(k0).space.unwrap().accessible(k0.mem@, a[0] as int, a[1] as int, false),
        caller(k0).space.unwrap().user_bytes(k0.mem@, a[0] as int, a[1] as int)
            == vstd::utf8::encode_utf8(s),
        forall|i: int| 0 <= i < s.len() ==> 0x20 <= (#[trigger] s[i]) as u32 <= 0x7E,
    ensures
        o == Outcome::Return(0),
        k1 == k0,
        fx1.console@ == fx0.console@ + "["@ + vstd::utf8::decode_utf8(
            registry::shown(k0.registry.names()[k0.sched.current as int]@),
        ) + "] "@ + s + "\n"@,
{
    reveal_strlit("[");
    reveal_strlit("] ");
    reveal_strlit("\n");
    text::law_plain_text_is_logged_as_it_is(s);
    let name = vstd::utf8::decode_utf8(
        registry::shown(k0.registry.names()[k0.sched.current as int]@),
    );
    assert(fx1.console@ =~= fx0.console@ + "["@ + name + "] "@ + s + "\n"@);
}

/// A longer text is cut after 256 bytes, and the line ends in an ellipsis.
pub proof fn law_long_log_is_cut(
    k0: Kernel,
    k1: Kernel,
    programs: Programs,
    a: Seq<u64>,
    now_ns: u64,
    fx0: Effects,
    fx1: Effects,
    o: Outcome,
    s: Seq<char>,
)
    requires
        k0.wf(),
        call_done(k0, k1, programs, 6, a, now_ns, fx0, fx1, o),
        caller(k0).space is Some,
        a[1] > 256,
        caller(k0).space.unwrap().accessible(k0.mem@, a[0] as int, 256, false),
        caller(k0).space.unwrap().user_bytes(k0.mem@, a[0] as int, 256)
            == vstd::utf8::encode_utf8(s),
        forall|i: int| 0 <= i < s.len() ==> 0x20 <= (#[trigger] s[i]) as u32 <= 0x7E,
    ensures
        o == Outcome::Return(0),
        fx1.console@ == fx0.console@ + "["@ + vstd::utf8::decode_utf8(
            registry::shown(k0.registry.names()[k0.sched.current as int]@),
        ) + "] "@ + s + "\u{2026}\n"@,
{
    reveal_strlit("[");
    reveal_strlit("] ");
    reveal_strlit("\u{2026}\n");
    text::law_plain_text_is_logged_as_it_is(s);
    let name = vstd::utf8::decode_utf8(
        registry::shown(k0.registry.names()[k0.sched.current as int]@),
    );
    assert(fx1.console@ =~= fx0.console@ + "["@ + name + "] "@ + s + "\u{2026}\n"@);
}

/// A new channel (call 7) is for init alone: anybody else gets -8. Where a handle
/// is free and fewer than 32 channels are there, init gets the lowest free handle,
/// with the rights to send and to receive on an empty channel that nobody else has,
/// and is its receiver. Otherwise the result is -9.
pub proof fn law_create_call(
    k0: Kernel,
    k1: Kernel,
    programs: Programs,
    a: Seq<u64>,
    now_ns: u64,
    fx0: Effects,
    fx1: Effects,
    o: Outcome,
    h: int,
)
    requires
        k0.wf(),
        call_done(k0, k1, programs, 7, a, now_ns, fx0, fx1, o),
        0 <= h < 16,
    ensures
        ({
            let cur = k0.sched.current;
            let hs = k0.sched.tasks@[cur as int].handles@;
            let init = cur != 0 && cur == k0.sched.init_task;
            let free = hs[h] is None && forall|i: int| 0 <= i < h ==> #[trigger] hs[i] is Some;
            let id = k0.ipc@.next_id;
            &&& !init ==> o == Outcome::Return((-8) as i64) && k1.ipc@ == k0.ipc@ && k1.sched == k0.sched
            &&& init && id == 32 ==> o == Outcome::Return((-9) as i64) && k1.ipc@ == k0.ipc@
            &&& init && (forall|i: int| 0 <= i < 16 ==> #[trigger] hs[i] is Some) ==> o
                == Outcome::Return((-9) as i64) && k1.ipc@ == k0.ipc@
            &&& init && id < 32 && free ==> {
                &&& o == Outcome::Return(h as i64)
                &&& k1.ipc@.next_id == id + 1
                &&& k1.ipc@.chans[id as int].queue.len() == 0
                &&& k1.ipc@.chans[id as int].waiter is None
                &&& k1.ipc@.chans[id as int].receiver == cur
                &&& k1.sched.tasks@[cur as int].handles@[h] == Some(
                    Slot { channel: id as u32, rights: Rights(3) },
                )
                &&& forall|i: int|
                    0 <= i < 16 && i != h ==> #[trigger] k1.sched.tasks@[cur as int].handles@[i]
                        == hs[i]
            }
        }),
{
    let cur = k0.sched.current;
    assert(k0.sched.tasks@[cur as int].shape());
    ipc::law_bounds(k0.ipc);
    assert(1u32 | 2u32 == 3u32) by (bit_vector);
    let hs = k0.sched.tasks@[cur as int].handles@;
    if is_init(k0) && k0.ipc@.next_id < 32 && hs[h] is None && forall|i: int|
        0 <= i < h ==> #[trigger] hs[i] is Some {
        let g = choose|g: int|
            {
                &&& 0 <= g < MAX_HANDLES
                &&& #[trigger] hs[g] is None
                &&& forall|i: int| 0 <= i < g ==> #[trigger] hs[i] is Some
                &&& o == Outcome::Return(g as i64)
                &&& k1.sched.tasks@[cur as int].handles@ == hs.update(
                    g,
                    Some(
                        Slot {
                            channel: k0.ipc@.next_id as u32,
                            rights: Rights(RIGHT_SEND | RIGHT_RECV),
                        },
                    ),
                )
            };
        assert(g == h);
    }
}

/// A request of init to start a service is accepted exactly where it can be read,
/// the name has one to sixteen printable characters and no bracket, the binary is
/// named by one to 32 bytes of text, there are at most sixteen grants, and there is
/// such a binary: a built-in, which is granted nothing, or an image, whose grants
/// init may make. Nobody else may ask.
pub proof fn law_spawn_request(k: Kernel, programs: Programs, ptr: u64, q: SpawnRequest)
    requires
        k.wf(),
        k.sched.tasks@[k.sched.current as int].space is Some ==> k.sched.tasks@[k.sched.current as int].space.unwrap().user_bytes(
            k.mem@,
            ptr as int,
            56,
        ) == q.spelled(),
    ensures
        ({
            let cur = k.sched.current;
            let t = k.sched.tasks@[cur as int];
            let s = t.space.unwrap();
            let init = cur != 0 && cur == k.sched.init_task && t.space is Some;
            let readable = ptr % 8 == 0 && s.accessible(k.mem@, ptr as int, 56, false);
            let sized = 1 <= q.name_len <= 16 && 1 <= q.binary_len <= 32 && q.grants_len <= 16;
            let name = s.user_bytes(k.mem@, q.name_ptr as int, q.name_len as int);
            let binary = s.user_bytes(k.mem@, q.binary_ptr as int, q.binary_len as int);
            let named = s.accessible(k.mem@, q.name_ptr as int, q.name_len as int, false) && forall|
                i: int,
            |
                0 <= i < name.len() ==> 0x20 < #[trigger] name[i] < 0x7F && name[i] != 0x5B
                    && name[i] != 0x5D;
            let spelled = s.accessible(k.mem@, q.binary_ptr as int, q.binary_len as int, false)
                && vstd::utf8::valid_utf8(binary);
            let mark = vstd::utf8::encode_utf8("builtin:"@);
            let builtin = binary.len() >= 8 && binary.subrange(0, 8) == mark;
            let told = init && readable && sized && named && spelled;
            let r = spawn_refusal(k, programs, ptr);
            &&& !init ==> r == Some(Error::NotPermitted)
            &&& init && !readable ==> r == Some(Error::BadPointer)
            &&& init && readable && !sized ==> r == Some(Error::Invalid)
            &&& init && readable && sized && !(named && spelled) ==> r == Some(Error::Invalid) || r
                == Some(Error::BadPointer)
            &&& told && builtin && q.grants_len > 0 ==> r == Some(Error::Invalid)
            &&& told && builtin && q.grants_len == 0 ==> (r is None
                <==> boot_images::spec_builtin(
                programs.builtins@,
                binary.subrange(8, binary.len() as int),
                0,
            ) is Some)
            &&& told && !builtin && programs.images.spec_find(binary) is None ==> r == Some(
                Error::NotFound,
            )
            &&& told && !builtin && programs.images.spec_find(binary) is Some && !grants_readable(
                k,
                q,
            ) ==> r == Some(Error::BadPointer)
            &&& told && !builtin && programs.images.spec_find(binary) is Some && grants_readable(k, q)
                ==> r == grants_error(k.ipc@, t.handles@, cur, grants_of(k, q), q.grants_len as int)
        }),
{
    wire::law_request_round_trip(q);
    assert(vstd::utf8::encode_utf8("builtin:"@) =~= builtin_mark()) by {
        reveal_strlit("builtin:");
        assert(vstd::utf8::is_ascii_chars("builtin:"@));
        vstd::utf8::is_ascii_chars_encode_utf8("builtin:"@);
    }
    let cur = k.sched.current;
    let t = k.sched.tasks@[cur as int];
    if t.space is Some {
        let s = t.space.unwrap();
        let name = s.user_bytes(k.mem@, q.name_ptr as int, q.name_len as int);
        let binary = s.user_bytes(k.mem@, q.binary_ptr as int, q.binary_len as int);
        assert(request_at(k, ptr) == q);
        assert(good_name(name) <==> forall|i: int|
            0 <= i < name.len() ==> 0x20 < #[trigger] name[i] < 0x7F && name[i] != 0x5B && name[i]
                != 0x5D);
        let builtin = binary.len() >= 8 && binary.subrange(0, 8) == builtin_mark();
        assert(builtin == builtin_mark().is_prefix_of(binary));
    }
}

/// Grants are accepted exactly where each carries no right but those to send and to
/// receive, names a slot of init, asks for no right that the slot lacks, and no two
/// move the right to receive on the same channel.
pub proof fn law_grants_accepted(
    v: IpcView,
    hs: Seq<Option<Slot>>,
    init: usize,
    grants: Seq<Grant>,
    n: int,
)
    requires
        hs.len() == 16,
        0 <= n <= grants.len(),
    ensures
        grants_error(v, hs, init, grants, n) is None <==> forall|i: int|
            0 <= i < n ==> {
                let g = #[trigger] grants[i];
                &&& 3 & g.rights.0 == g.rights.0
                &&& g.handle.0 < 16
                &&& hs[g.handle.0 as int] is Some
                &&& g.rights.0 & 1 == 1 ==> hs[g.handle.0 as int].unwrap().rights.0 & 1 == 1
                &&& g.rights.0 & 2 == 2 ==> hs[g.handle.0 as int].unwrap().rights.0 & 2 == 2
                &&& g.rights.0 & 2 == 2 ==> forall|j: int|
                    0 <= j < i && (#[trigger] grants[j]).rights.0 & 2 == 2 && grants[j].handle.0 < 16
                        && hs[grants[j].handle.0 as int] is Some
                        ==> hs[grants[j].handle.0 as int].unwrap().channel
                        != hs[g.handle.0 as int].unwrap().channel
            },
    decreases n,
{
    assert(1u32 | 2u32 == 3u32) by (bit_vector);
    if n > 0 {
        law_grants_accepted(v, hs, init, grants, n - 1);
        let g = grants[n - 1];
        let last = {
            &&& 3 & g.rights.0 == g.rights.0
            &&& g.handle.0 < 16
            &&& hs[g.handle.0 as int] is Some
            &&& g.rights.0 & 1 == 1 ==> hs[g.handle.0 as int].unwrap().rights.0 & 1 == 1
            &&& g.rights.0 & 2 == 2 ==> hs[g.handle.0 as int].unwrap().rights.0 & 2 == 2
            &&& g.rights.0 & 2 == 2 ==> forall|j: int|
                0 <= j < n - 1 && (#[trigger] grants[j]).rights.0 & 2 == 2 && grants[j].handle.0
                    < 16 && hs[grants[j].handle.0 as int] is Some
                    ==> hs[grants[j].handle.0 as int].unwrap().channel
                    != hs[g.handle.0 as int].unwrap().channel
        };
        assert(grant_error(v, hs, init, grants, n - 1) is None <==> last) by {
            if slot_of(hs, g) is Some {
                let c = slot_of(hs, g).unwrap().channel;
                assert(moved_before(hs, grants, n - 1, c) <==> !(forall|j: int|
                    0 <= j < n - 1 && (#[trigger] grants[j]).rights.0 & 2 == 2 && grants[j].handle.0
                        < 16 && hs[grants[j].handle.0 as int] is Some
                        ==> hs[grants[j].handle.0 as int].unwrap().channel != c));
            }
        }
    }
}

/// A right to receive that init grants moves: the child is the channel's receiver,
/// the channel knows the slot that the right comes home to, and init's slot keeps
/// everything but that right. A slot of which nothing moves is as it was.
pub proof fn law_rights_move(
    v: IpcView,
    hs: Seq<Option<Slot>>,
    init: usize,
    grants: Seq<Grant>,
    n: int,
    id: usize,
    i: int,
)
    requires
        hs.len() == 16,
        v.chans.len() == 32,
        0 <= i < n <= grants.len(),
        n <= 16,
        id < 16,
        init < 16,
        grants_error(v, hs, init, grants, n) is None,
        grants[i].rights.0 & 2 == 2,
        v.live(hs[grants[i].handle.0 as int].unwrap().channel),
    ensures
        ({
            let b = bound(v, hs, grants, n, id, init);
            let h = grants[i].handle.0;
            let x = hs[h as int].unwrap();
            &&& b.0.chans[x.channel as int].receiver == id
            &&& b.0.chans[x.channel as int].recv_home == Some((init as u16, h))
            &&& b.0.chans[x.channel as int].queue == v.chans[x.channel as int].queue
            &&& b.1[h as int] == Some(Slot { channel: x.channel, rights: Rights(x.rights.0 & !2) })
        }),
    decreases n,
{
    law_grants_within_rights(v, hs, init, grants, n, i);
    lemma_bound_form(v, hs, grants, n, id, init);
    lemma_bound_form(v, hs, grants, n - 1, id, init);
    let b = bound(v, hs, grants, n - 1, id, init);
    let g = grants[n - 1];
    law_grants_within_rights(v, hs, init, grants, n, n - 1);
    if i < n - 1 {
        assert(grants_error(v, hs, init, grants, n - 1) is None);
        law_rights_move(v, hs, init, grants, n - 1, id, i);
        if carries(g.rights, RIGHT_RECV) {
            law_one_receiver(v, hs, init, grants, n, n - 1, i);
        }
    } else {
        // nothing has moved out of this slot before
        lemma_slot_kept(v, hs, init, grants, n - 1, id, g.handle.0 as int, n);
        lemma_chan_live(v, hs, grants, n - 1, id, init, hs[g.handle.0 as int].unwrap().channel);
    }
}

/// Moving rights changes no channel of any slot, and no queue.
proof fn lemma_bound_form(
    v: IpcView,
    hs: Seq<Option<Slot>>,
    grants: Seq<Grant>,
    n: int,
    id: usize,
    init: usize,
)
    requires
        hs.len() == 16,
        v.chans.len() == 32,
    ensures
        bound(v, hs, grants, n, id, init).0.chans.len() == 32,
        bound(v, hs, grants, n, id, init).1.len() == 16,
        forall|h: int|
            0 <= h < 16 ==> ((#[trigger] bound(v, hs, grants, n, id, init).1[h]) is Some
                <==> hs[h] is Some) && (hs[h] is Some ==> bound(
                v,
                hs,
                grants,
                n,
                id,
                init,
            ).1[h].unwrap().channel == hs[h].unwrap().channel),
    decreases n,
{
    if n > 0 {
        lemma_bound_form(v, hs, grants, n - 1, id, init);
    }
}

proof fn lemma_chan_live(
    v: IpcView,
    hs: Seq<Option<Slot>>,
    grants: Seq<Grant>,
    n: int,
    id: usize,
    init: usize,
    c: u32,
)
    requires
        hs.len() == 16,
        v.chans.len() == 32,
        v.live(c),
    ensures
        bound(v, hs, grants, n, id, init).0.live(c),
        bound(v, hs, grants, n, id, init).0.chans[c as int].queue == v.chans[c as int].queue,
    decreases n,
{
    if n > 0 {
        lemma_chan_live(v, hs, grants, n - 1, id, init, c);
        lemma_bound_form(v, hs, grants, n - 1, id, init);
    }
}

/// A slot from which none of the first `m` grants moves a right is as it was.
proof fn lemma_slot_kept(
    v: IpcView,
    hs: Seq<Option<Slot>>,
    init: usize,
    grants: Seq<Grant>,
    m: int,
    id: usize,
    h: int,
    n: int,
)
    requires
        hs.len() == 16,
        v.chans.len() == 32,
        0 <= m < n <= grants.len(),
        n <= 16,
        grants_error(v, hs, init, grants, n) is None,
        grants[n - 1].rights.0 & 2 == 2,
        h == grants[n - 1].handle.0,
    ensures
        bound(v, hs, grants, m, id, init).1[h] == hs[h],
    decreases m,
{
    if m > 0 {
        lemma_slot_kept(v, hs, init, grants, m - 1, id, h, n);
        lemma_bound_form(v, hs, grants, m - 1, id, init);
        law_grants_within_rights(v, hs, init, grants, n, m - 1);
        if carries(grants[m - 1].rights, RIGHT_RECV) {
            law_one_receiver(v, hs, init, grants, n, n - 1, m - 1);
        }
    }
}

/// A result reaches its caller in the first word of the frame that it saved, and
/// no other word of it changes; a caller that yields, or hands the processor on,
/// finds 0 there. Where init has exited nothing goes on.
pub proof fn law_results(k0: Kernel, k1: Kernel, frame: u64, o: Outcome, r: Resume, i: int)
    requires
        carried_out(k0, k1, frame, o, r),
        0 <= frame,
        frame + 272 <= k0.mem@.len(),
        1 <= i < 34,
    ensures
        o matches Outcome::Return(value) ==> r == Resume::Caller && mem::word(
            k1.mem@,
            frame as int,
        ) == value as u64 && mem::word(k1.mem@, frame + 8 * i) == mem::word(
            k0.mem@,
            frame + 8 * i,
        ),
        o is Yield || o is HandOff ==> mem::word(k1.mem@, frame as int) == 0 && mem::word(
            k1.mem@,
            frame + 8 * i,
        ) == mem::word(k0.mem@, frame + 8 * i),
        o is Exited || o is Blocked ==> k1.mem == k0.mem,
        o is Halt <==> r == Resume::Halt,
{
    let value = match o {
        Outcome::Return(value) => value as u64,
        _ => 0,
    };
    mem::lemma_word_written(k0.mem@, frame as int, value);
    mem::lemma_word_elsewhere(k0.mem@, frame as int, value, frame + 8 * i);
}

/// What starting a service comes to where it fails: no free slot is -9, no memory is
/// -13, and an image that cannot be run is -12, with the reason on the console.
pub proof fn law_spawn_failures(binary: Seq<u8>, reason: &'static str)
    ensures
        spec_spawn_error(SpawnError::NoSlot).spec_code() == -9,
        spec_spawn_error(SpawnError::OutOfMemory).spec_code() == -13,
        spec_spawn_error(SpawnError::BadImage(reason)).spec_code() == -12,
        complaint(binary, Err(SpawnError::BadImage(reason))) == "refused "@
            + vstd::utf8::decode_utf8(binary) + ": "@ + reason@ + "\n"@,
        complaint(binary, Err(SpawnError::NoSlot)).len() == 0,
        complaint(binary, Err(SpawnError::OutOfMemory)).len() == 0,
{
}

/// The child's handles are the grants, in order, each on the channel of the slot that
/// it names and with the rights that it carries; there are no others.
pub proof fn law_child_handles(hs: Seq<Option<Slot>>, grants: Seq<Grant>, n: int, h: int)
    requires
        hs.len() == 16,
        0 <= n <= grants.len(),
        0 <= h < 16,
        h < n ==> grants[h].handle.0 < 16 && hs[grants[h].handle.0 as int] is Some,
    ensures
        h < n ==> child_table(hs, grants, n)[h] == Some(
            Slot {
                channel: hs[grants[h].handle.0 as int].unwrap().channel,
                rights: grants[h].rights,
            },
        ),
        h >= n ==> child_table(hs, grants, n)[h] is None,
{
}

/// A service that is started has, as its handles, what init granted, is known by its
/// name, and is told in the result; init's other slots are as before.
pub proof fn law_spawned_child(
    k0: Kernel,
    k1: Kernel,
    programs: Programs,
    a: Seq<u64>,
    now_ns: u64,
    fx0: Effects,
    fx1: Effects,
    id: i64,
    h: int,
)
    requires
        k0.wf(),
        call_done(k0, k1, programs, 8, a, now_ns, fx0, fx1, Outcome::Return(id)),
        id >= 0,
        !vstd::utf8::encode_utf8("builtin:"@).is_prefix_of(
            caller_bytes(k0, request_at(k0, a[0]).binary_ptr, request_at(k0, a[0]).binary_len),
        ),
        0 <= h < 16,
    ensures
        ({
            let q = request_at(k0, a[0]);
            let name = caller_bytes(k0, q.name_ptr, q.name_len);
            let init = k0.sched.current;
            let hs = k0.sched.tasks@[init as int].handles@;
            let grants = grants_of(k0, q);
            let t = k1.sched.tasks@[id as int];
            &&& 1 <= id < 16
            &&& k0.sched.tasks@[id as int].state == context::State::Free
            &&& t.state == context::State::Ready
            &&& h < q.grants_len && id != init ==> t.handles@[h] == Some(
                Slot {
                    channel: hs[grants[h].handle.0 as int].unwrap().channel,
                    rights: grants[h].rights,
                },
            )
            &&& h >= q.grants_len && id != init ==> t.handles@[h] is None
            &&& 1 <= q.name_len && q.name_len <= 16
            &&& k1.registry.names()[id as int]@ == name
        }),
{
    let q = request_at(k0, a[0]);
    let binary = caller_bytes(k0, q.binary_ptr, q.binary_len);
    let name = caller_bytes(k0, q.name_ptr, q.name_len);
    assert(vstd::utf8::encode_utf8("builtin:"@) =~= builtin_mark()) by {
        reveal_strlit("builtin:");
        assert(vstd::utf8::is_ascii_chars("builtin:"@));
        vstd::utf8::is_ascii_chars_encode_utf8("builtin:"@);
    }
    assert(spawn_refusal(k0, programs, a[0]) is None);
    let init = k0.sched.current;
    let hs = caller(k0).handles@;
    let grants = grants_of(k0, q);
    assert(caller(k0).shape());
    let child = choose|child: HandleTable|
        {
            &&& child@ == child_table(hs, grants, q.grants_len as int)
            &&& #[trigger] image_started(
                k0,
                k1,
                programs.images.spec_find(binary).unwrap(),
                child,
                grants,
                q.arg,
                name,
                binary,
                fx0,
                fx1,
                Outcome::Return(id),
            )
        };
    let image = programs.images.spec_find(binary).unwrap();
    let (ka, r) = choose|ka: Kernel, r: Result<TaskRef, SpawnError>|
        {
            &&& #[trigger] spawn::user_task_started(
                k0,
                ka,
                image,
                child,
                grants.len() as u64,
                q.arg,
                r,
            )
            &&& match r {
                Ok(task) => {
                    &&& id == task.id
                    &&& introduced(ka, k1, task.id as usize, init, grants, name)
                },
                Err(e) => Outcome::Return(id) == failed(spec_spawn_error(e)) && k1 == ka,
            }
        };
    assert(r is Ok);
    spawn::law_new_task_takes_a_free_slot(
        k0,
        ka,
        image,
        child,
        grants.len() as u64,
        q.arg,
        r,
        1,
    );
    assert(kernel::same_but_handles(k1.sched.tasks@[id as int], ka.sched.tasks@[id as int]));
    if h < q.grants_len {
        law_grants_within_rights(k0.ipc@, hs, init, grants, q.grants_len as int, h);
        law_child_handles(hs, grants, q.grants_len as int, h);
    } else {
        assert(child@[h] is None);
    }
}

} // verus!
