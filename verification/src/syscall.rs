//! The system calls of the PC, and what the built-in tasks know of the screen.
use vstd::prelude::*;

use crate::abi::Message;
use crate::delivery;
use crate::ipc;
use crate::ipc::{Chan, Ipc, IpcView};
use crate::metrics;
use crate::metrics::Metrics;
use crate::scheduler;
use crate::scheduler::Scheduler;

verus! {

pub const SYS_SEND: u64 = 0;

pub const SYS_RECV: u64 = 1;

pub const SYS_YIELD: u64 = 2;

pub const SYS_EXIT: u64 = 3;

pub const SYS_FBINFO: u64 = 4;

pub const SYS_TIME: u64 = 5;

pub const SYS_TRACE: u64 = 6;

pub const SYS_SURFACE_INFO: u64 = 7;

pub const SYS_BEEP: u64 = 8;

pub const SYS_PORT_IN8: u64 = 10;

pub const SYS_PORT_OUT8: u64 = 11;

pub const SYS_PORT_INS16: u64 = 12;

pub const SYS_PORT_OUTS16: u64 = 13;

pub const SYS_PRESENT_RECT: u64 = 14;

pub const SYS_DEBUG: u64 = 99;

pub const MAX_SURFACES: usize = 4;

/// A tone by system call is no longer than this.
pub const MAX_BEEP_MS: u32 = 200;

#[derive(Clone, Copy, Debug, PartialEq, Eq, Structural)]
pub struct FbInfo {
    pub address: u64,
    pub width: u32,
    pub height: u32,
    pub stride: u32,
    pub is_bgr: u32,
}

#[derive(Clone, Copy, Debug, PartialEq, Eq, Structural)]
pub struct SurfaceInfo {
    pub address: u64,
    pub width: u32,
    pub height: u32,
    pub stride: u32,
}

/// The framebuffer and the off-screen surfaces.
pub struct Screen {
    pub fb: FbInfo,
    pub surfaces: Vec<SurfaceInfo>,
}

impl Screen {
    pub open spec fn wf(&self) -> bool {
        self.surfaces@.len() <= MAX_SURFACES
    }

    /// No framebuffer and no surface yet.
    pub fn new() -> (s: Screen)
        ensures
            s.wf(),
            s.surfaces@ == Seq::<SurfaceInfo>::empty(),
            s.fb == (FbInfo { address: 0, width: 0, height: 0, stride: 0, is_bgr: 0 }),
    {
        Screen {
            fb: FbInfo { address: 0, width: 0, height: 0, stride: 0, is_bgr: 0 },
            surfaces: Vec::new(),
        }
    }
}

pub fn set_fb_info(s: &mut Screen, info: FbInfo)
    ensures
        final(s).fb == info,
        final(s).surfaces == old(s).surfaces,
{
    s.fb = info;
}

/// Registers a surface; its number is how many there were before.
pub fn add_surface(s: &mut Screen, info: SurfaceInfo) -> (idx: usize)
    requires
        old(s).surfaces@.len() < MAX_SURFACES,
    ensures
        idx == old(s).surfaces@.len(),
        final(s).surfaces@ == old(s).surfaces@.push(info),
        final(s).fb == old(s).fb,
{
    let idx: usize = s.surfaces.len();
    s.surfaces.push(info);
    idx
}

pub fn surface_count(s: &Screen) -> (n: usize)
    ensures
        n == s.surfaces@.len(),
{
    s.surfaces.len()
}

pub fn fb_address(s: &Screen) -> (a: u64)
    ensures
        a == s.fb.address,
{
    s.fb.address
}

/// The size of the framebuffer in bytes.
pub fn fb_size(s: &Screen) -> (n: u64)
    requires
        s.fb.stride * s.fb.height * 4 <= u64::MAX,
    ensures
        n == s.fb.stride * s.fb.height * 4,
{
    proof {
        assert(0 <= s.fb.stride * s.fb.height) by (nonlinear_arith)
            requires
                s.fb.stride >= 0,
                s.fb.height >= 0,
        ;
    }
    s.fb.stride as u64 * s.fb.height as u64 * 4
}

/// The ports of the two ATA controllers.
pub open spec fn ata_port(port: u16) -> bool {
    ||| 0x1F0 <= port <= 0x1F7
    ||| port == 0x3F6
    ||| 0x170 <= port <= 0x177
    ||| port == 0x376
}

/// Which ports a user task may access.
pub fn is_port_allowed(port: u16) -> (r: bool)
    ensures
        r == ata_port(port),
{
    (0x1F0 <= port && port <= 0x1F7) || port == 0x3F6 || (0x170 <= port && port <= 0x177) || port
        == 0x376
}

/// What a system call comes to.
#[derive(Clone, Copy, Debug, PartialEq, Eq, Structural)]
pub enum Call {
    /// The result.
    Return(i64),
    /// Send the message at an address.
    Send(u32, u64),
    /// Receive a message to an address.
    Recv(u32, u64),
    /// Wait for the next interrupt; the result is 0.
    Yield,
    /// Never run the task again.
    Exit,
    /// Write the framebuffer's description to an address; the result is 0.
    PutFbInfo(u64, FbInfo),
    /// Write a surface's description to an address; the result is 0.
    PutSurface(u64, SurfaceInfo),
    /// Write up to so many trace entries to an address; the result is how many.
    Trace(u64, u64),
    /// Sound a tone (frequency, milliseconds); the result is 0.
    Beep(u32, u32),
    /// Read a byte from a port; that is the result.
    PortIn8(u16),
    /// Write a byte to a port; the result is 0.
    PortOut8(u16, u8),
    /// Read words from a port to an address; the result is their number.
    PortIns16(u16, u64, u64),
    /// Write words at an address to a port; the result is their number.
    PortOuts16(u16, u64, u64),
    /// Write a byte to the serial line; the result is 0.
    Debug(u8),
    /// Present a rectangle of the screen; the result is 0.
    Present(u32, u32, u32, u32),
}

/// Which call `nr` is, with these arguments.
pub open spec fn call(nr: u64, a0: u64, a1: u64, a2: u64, now_ns: u64, s: Screen) -> Call {
    let port = a0 as u16;
    let refused = Call::Return((-1int) as i64);
    if nr == SYS_SEND {
        Call::Send(a0 as u32, a1)
    } else if nr == SYS_RECV {
        Call::Recv(a0 as u32, a1)
    } else if nr == SYS_YIELD {
        Call::Yield
    } else if nr == SYS_EXIT {
        Call::Exit
    } else if nr == SYS_FBINFO {
        Call::PutFbInfo(a0, s.fb)
    } else if nr == SYS_TIME {
        Call::Return(now_ns as i64)
    } else if nr == SYS_SURFACE_INFO {
        if a0 >= s.surfaces@.len() {
            refused
        } else {
            Call::PutSurface(a1, s.surfaces@[a0 as int])
        }
    } else if nr == SYS_TRACE {
        Call::Trace(a0, a1)
    } else if nr == SYS_BEEP {
        Call::Beep(
            a0 as u32,
            if (a1 as u32) > MAX_BEEP_MS {
                MAX_BEEP_MS
            } else {
                a1 as u32
            },
        )
    } else if nr == SYS_PORT_IN8 {
        if ata_port(port) {
            Call::PortIn8(port)
        } else {
            refused
        }
    } else if nr == SYS_PORT_OUT8 {
        if ata_port(port) {
            Call::PortOut8(port, a1 as u8)
        } else {
            refused
        }
    } else if nr == SYS_PORT_INS16 {
        if ata_port(port) {
            Call::PortIns16(port, a1, a2)
        } else {
            refused
        }
    } else if nr == SYS_PORT_OUTS16 {
        if ata_port(port) {
            Call::PortOuts16(port, a1, a2)
        } else {
            refused
        }
    } else if nr == SYS_DEBUG {
        Call::Debug(a0 as u8)
    } else if nr == SYS_PRESENT_RECT {
        Call::Present(
            (a0 % 0x1_0000_0000) as u32,
            (a0 / 0x1_0000_0000) as u32,
            (a1 % 0x1_0000_0000) as u32,
            (a1 / 0x1_0000_0000) as u32,
        )
    } else {
        refused
    }
}

/// What a system call comes to. The accesses themselves, to the caller's
/// memory, to ports and to devices, are made outside.
pub fn syscall_dispatch(s: &Screen, nr: u64, arg0: u64, arg1: u64, arg2: u64, now_ns: u64) -> (c:
    Call)
    ensures
        c == call(nr, arg0, arg1, arg2, now_ns, *s),
{
    let port: u16 = arg0 as u16;
    match nr {
        SYS_SEND => Call::Send(arg0 as u32, arg1),
        SYS_RECV => Call::Recv(arg0 as u32, arg1),
        SYS_YIELD => Call::Yield,
        SYS_EXIT => Call::Exit,
        SYS_FBINFO => Call::PutFbInfo(arg0, s.fb),
        SYS_TIME => Call::Return(now_ns as i64),
        SYS_SURFACE_INFO => {
            if arg0 >= s.surfaces.len() as u64 {
                Call::Return(-1)
            } else {
                Call::PutSurface(arg1, s.surfaces[arg0 as usize])
            }
        },
        SYS_TRACE => Call::Trace(arg0, arg1),
        SYS_BEEP => {
            let ms: u32 = arg1 as u32;
            Call::Beep(arg0 as u32, if ms > MAX_BEEP_MS {
                MAX_BEEP_MS
            } else {
                ms
            })
        },
        SYS_PORT_IN8 => if is_port_allowed(port) {
            Call::PortIn8(port)
        } else {
            Call::Return(-1)
        },
        SYS_PORT_OUT8 => if is_port_allowed(port) {
            Call::PortOut8(port, arg1 as u8)
        } else {
            Call::Return(-1)
        },
        SYS_PORT_INS16 => if is_port_allowed(port) {
            Call::PortIns16(port, arg1, arg2)
        } else {
            Call::Return(-1)
        },
        SYS_PORT_OUTS16 => if is_port_allowed(port) {
            Call::PortOuts16(port, arg1, arg2)
        } else {
            Call::Return(-1)
        },
        SYS_DEBUG => Call::Debug(arg0 as u8),
        SYS_PRESENT_RECT => Call::Present(
            (arg0 % 0x1_0000_0000) as u32,
            (arg0 / 0x1_0000_0000) as u32,
            (arg1 % 0x1_0000_0000) as u32,
            (arg1 / 0x1_0000_0000) as u32,
        ),
        _ => Call::Return(-1),
    }
}

/// The port that a call accesses.
pub open spec fn port_of(c: Call) -> Option<u16> {
    match c {
        Call::PortIn8(p) => Some(p),
        Call::PortOut8(p, _) => Some(p),
        Call::PortIns16(p, _, _) => Some(p),
        Call::PortOuts16(p, _, _) => Some(p),
        _ => None,
    }
}

/// No system call reaches a port outside the ATA controllers.
pub proof fn law_ports_are_guarded(nr: u64, a0: u64, a1: u64, a2: u64, now_ns: u64, s: Screen)
    ensures
        port_of(call(nr, a0, a1, a2, now_ns, s)) matches Some(p) ==> ata_port(p),
{
}

/// The channels, the tasks and the measurements of the PC.
pub struct Pc {
    pub ipc: Ipc,
    pub sched: Scheduler,
    pub metrics: Metrics,
}

impl Pc {
    pub open spec fn wf(&self) -> bool {
        self.ipc.wf() && self.sched.wf() && self.metrics.wf()
    }
}

/// A blocked task is ready.
pub open spec fn woken(tasks: Seq<scheduler::Task>, id: usize) -> Seq<scheduler::Task> {
    if id < scheduler::MAX_TASKS && tasks[id as int].state == scheduler::State::Blocked {
        tasks.update(
            id as int,
            scheduler::Task { state: scheduler::State::Ready, ..tasks[id as int] },
        )
    } else {
        tasks
    }
}

/// Nothing changed.
pub open spec fn unchanged(p0: Pc, p1: Pc) -> bool {
    &&& p1.ipc@ == p0.ipc@
    &&& p1.sched == p0.sched
    &&& p1.metrics@ == p0.metrics@
}

/// The task that waits on channel `id`, if any, is woken.
pub open spec fn waiter_woken(p0: Pc, p1: Pc, id: u32, now_ns: u64) -> bool {
    &&& p1.sched.current == p0.sched.current
    &&& p1.sched.count == p0.sched.count
    &&& match p0.ipc@.chans[id as int].waiter {
        Some(w) => {
            &&& p1.sched.tasks@ == woken(p0.sched.tasks@, w)
            &&& p1.metrics@ == p0.metrics@.unblocked(w as int, now_ns)
        },
        None => p1.sched.tasks@ == p0.sched.tasks@ && p1.metrics@ == p0.metrics@,
    }
}

/// A message from `sender` has gone to the end of channel `id`, and has woken the
/// task that waited there.
pub open spec fn posted(p0: Pc, p1: Pc, sender: u16, id: u32, msg: Message, now_ns: u64) -> bool {
    p1.ipc@ == p0.ipc@.enqueued(sender, id, msg, now_ns) && waiter_woken(p0, p1, id, now_ns)
}

fn post(pc: &mut Pc, sender: u16, channel_id: u32, msg: &Message, now_ns: u64) -> (r: Result<
    (),
    ipc::Error,
>)
    requires
        old(pc).wf(),
    ensures
        final(pc).wf(),
        match delivery::send_error(old(pc).ipc@, channel_id) {
            Some(e) => r == Err::<(), ipc::Error>(e) && unchanged(*old(pc), *final(pc)),
            None => r is Ok && posted(*old(pc), *final(pc), sender, channel_id, *msg, now_ns),
        },
{
    match ipc::enqueue(&mut pc.ipc, sender, channel_id, msg, now_ns) {
        Err(e) => Err(e),
        Ok(None) => Ok(()),
        Ok(Some(w)) => {
            metrics::note_task_unblocked(&mut pc.metrics, w, now_ns);
            scheduler::unblock(&mut pc.sched, w);
            Ok(())
        },
    }
}

/// Sends a message from the current task: it goes to the end of the channel,
/// and wakes the task that waits there. -1 where there is no such channel or no
/// room.
pub fn sys_send(pc: &mut Pc, channel_id: u32, msg: &Message, now_ns: u64) -> (r: i64)
    requires
        old(pc).wf(),
    ensures
        final(pc).wf(),
        match delivery::send_error(old(pc).ipc@, channel_id) {
            Some(_) => r == -1 && unchanged(*old(pc), *final(pc)),
            None => r == 0 && posted(
                *old(pc),
                *final(pc),
                old(pc).sched.current as u16,
                channel_id,
                *msg,
                now_ns,
            ),
        },
{
    let sender: u16 = pc.sched.current as u16;
    match post(pc, sender, channel_id, msg, now_ns) {
        Err(_) => -1,
        Ok(()) => 0,
    }
}

/// Sends as the kernel itself (sender 0). A kernel notice is never lost to a
/// full queue: it waits in the kernel's backlog, and moves into the channel, in
/// order, as the receiver makes room.
pub fn send_as_kernel(pc: &mut Pc, channel_id: u32, msg: &Message, now_ns: u64) -> (r: Result<
    (),
    ipc::Error,
>)
    requires
        old(pc).wf(),
    ensures
        final(pc).wf(),
        ({
            let v = old(pc).ipc@;
            if !v.live(channel_id) {
                r == Err::<(), ipc::Error>(ipc::Error::InvalidChannel) && unchanged(
                    *old(pc),
                    *final(pc),
                )
            } else if !delivery::must_wait(v, channel_id) {
                r is Ok && posted(*old(pc), *final(pc), 0, channel_id, *msg, now_ns)
            } else if v.backlog.len() < ipc::BACKLOG_CAP {
                &&& r is Ok
                &&& final(pc).sched == old(pc).sched
                &&& final(pc).metrics@ == old(pc).metrics@
                &&& final(pc).ipc@ == (IpcView {
                    backlog: v.backlog.push((channel_id, ipc::stamp(*msg, 0))),
                    ..v
                })
            } else {
                r == Err::<(), ipc::Error>(ipc::Error::Full) && unchanged(*old(pc), *final(pc))
            }
        }),
{
    if !ipc::is_live(&pc.ipc, channel_id) {
        return Err(ipc::Error::InvalidChannel);
    }
    if ipc::is_full(&pc.ipc, channel_id) || ipc::has_notice(&pc.ipc, channel_id) {
        let mut stamped: Message = *msg;
        stamped.sender = 0;
        if ipc::keep_notice(&mut pc.ipc, channel_id, stamped) {
            return Ok(());
        }
        return Err(ipc::Error::Full);
    }
    post(pc, 0, channel_id, msg, now_ns)
}

/// What moving waiting notices into channel `id` changes: the first wakes the
/// task that waits there, as any message does.
pub open spec fn refill_done(p0: Pc, p1: Pc, id: u32, now_ns: u64) -> bool {
    if delivery::can_refill(p0.ipc@, id) {
        p1.ipc@ == delivery::refilled(p0.ipc@, id, now_ns) && waiter_woken(p0, p1, id, now_ns)
    } else {
        unchanged(p0, p1)
    }
}

/// The receiver made room: moves waiting kernel notices into the channel.
fn refill_from_backlog(pc: &mut Pc, channel_id: u32, now_ns: u64)
    requires
        old(pc).wf(),
        old(pc).ipc@.live(channel_id),
    ensures
        final(pc).wf(),
        refill_done(*old(pc), *final(pc), channel_id, now_ns),
{
    let ghost p0 = *old(pc);
    let ghost mut moved = false;
    while !ipc::is_full(&pc.ipc, channel_id) && ipc::has_notice(&pc.ipc, channel_id)
        invariant
            pc.wf(),
            pc.ipc@.live(channel_id),
            delivery::refilled(pc.ipc@, channel_id, now_ns) == delivery::refilled(
                p0.ipc@,
                channel_id,
                now_ns,
            ),
            !moved ==> *pc == p0,
            moved ==> {
                &&& delivery::can_refill(p0.ipc@, channel_id)
                &&& waiter_woken(p0, *pc, channel_id, now_ns)
                &&& pc.ipc@.chans[channel_id as int].waiter is None
            },
        decreases pc.ipc@.backlog.len(),
    {
        proof {
            delivery::lemma_first_pending(pc.ipc@.backlog, channel_id);
            ipc::law_bounds(pc.ipc);
        }
        let ghost v = pc.ipc@;
        let ghost i = ipc::first_for(v.backlog, channel_id);
        match ipc::take_notice(&mut pc.ipc, channel_id) {
            None => {},
            Some(message) => {
                let r: Result<(), ipc::Error> = post(pc, 0, channel_id, &message, now_ns);
                assert(r is Ok);
                assert(pc.ipc@ == delivery::notice_taken(v, channel_id).enqueued(
                    0,
                    channel_id,
                    v.backlog[i].1,
                    now_ns,
                ));
                proof {
                    moved = true;
                }
            },
        }
    }
}

/// One attempt to receive a message for the current task: the message at the
/// head of the channel, with waiting kernel notices moved up behind the others,
/// or an error; where there is none, the task is blocked and tries again when it
/// is woken.
pub fn sys_recv(pc: &mut Pc, channel_id: u32, now_ns: u64) -> (r: Option<Result<Message, i64>>)
    requires
        old(pc).wf(),
    ensures
        final(pc).wf(),
        ({
            let v = old(pc).ipc@;
            let cur = old(pc).sched.current;
            let c = v.chans[channel_id as int];
            let u = delivery::consumed_by(v, channel_id, cur);
            if !v.live(channel_id) {
                r == Some(Err::<Message, i64>(-1i64)) && unchanged(*old(pc), *final(pc))
            } else if c.queue.len() > 0 {
                &&& r == Some(Ok::<Message, i64>(c.queue[0].msg))
                &&& taken(*old(pc), *final(pc), channel_id, now_ns)
            } else {
                &&& r is None
                &&& final(pc).ipc@ == u.with_chan(
                    channel_id,
                    (Chan { waiter: Some(cur), ..u.chans[channel_id as int] }),
                )
                &&& final(pc).metrics@ == old(pc).metrics@
                &&& final(pc).sched.current == cur
                &&& final(pc).sched.count == old(pc).sched.count
                &&& final(pc).sched.tasks@ == old(pc).sched.tasks@.update(
                    cur as int,
                    (scheduler::Task {
                        state: scheduler::State::Blocked,
                        ..old(pc).sched.tasks@[cur as int]
                    }),
                )
            }
        }),
{
    if !ipc::is_live(&pc.ipc, channel_id) {
        return Some(Err(-1));
    }
    let cur: usize = pc.sched.current;
    proof {
        ipc::law_bounds(pc.ipc);
    }
    ipc::learn_consumer(&mut pc.ipc, channel_id, cur);
    match ipc::take(&mut pc.ipc, channel_id) {
        Some(q) => {
            metrics::record_ipc_delivery_ns(&mut pc.metrics, now_ns.saturating_sub(q.sent_ns));
            let ghost pm = *pc;
            assert(took(*old(pc), pm, channel_id, now_ns));
            refill_from_backlog(pc, channel_id, now_ns);
            Some(Ok(q.msg))
        },
        None => {
            let r: Result<(), ipc::Error> = ipc::register_waiter(&mut pc.ipc, channel_id, cur);
            scheduler::block_current(&mut pc.sched);
            None
        },
    }
}

/// What taking a message out of channel `id` changes, before any notices move
/// up.
pub open spec fn took(p0: Pc, p1: Pc, id: u32, now_ns: u64) -> bool {
    &&& p1.ipc@ == delivery::received(p0.ipc@, id, p0.sched.current)
    &&& p1.sched == p0.sched
    &&& p1.metrics@ == p0.metrics@.delivered(
        delivery::waited(now_ns, p0.ipc@.chans[id as int].queue[0].sent_ns),
    )
}

/// What receiving the oldest message of channel `id` changes: it is taken out,
/// and waiting kernel notices move up into the room that it leaves.
pub open spec fn taken(p0: Pc, p1: Pc, id: u32, now_ns: u64) -> bool {
    exists|pm: Pc| #[trigger] took(p0, pm, id, now_ns) && refill_done(pm, p1, id, now_ns)
}

/// The calls by number. A surface that there is not, a port of anything but a disk
/// controller, and a number that is no call are refused with -1; a tone is cut to 200
/// milliseconds; and a rectangle is told in four halves of two words.
pub proof fn law_calls(a0: u64, a1: u64, a2: u64, now_ns: u64, s: Screen)
    ensures
        call(0, a0, a1, a2, now_ns, s) == Call::Send(a0 as u32, a1),
        call(1, a0, a1, a2, now_ns, s) == Call::Recv(a0 as u32, a1),
        call(2, a0, a1, a2, now_ns, s) == Call::Yield,
        call(3, a0, a1, a2, now_ns, s) == Call::Exit,
        call(4, a0, a1, a2, now_ns, s) == Call::PutFbInfo(a0, s.fb),
        call(5, a0, a1, a2, now_ns, s) == Call::Return(now_ns as i64),
        call(6, a0, a1, a2, now_ns, s) == Call::Trace(a0, a1),
        a0 < s.surfaces@.len() ==> call(7, a0, a1, a2, now_ns, s) == Call::PutSurface(
            a1,
            s.surfaces@[a0 as int],
        ),
        a0 >= s.surfaces@.len() ==> call(7, a0, a1, a2, now_ns, s) == Call::Return((-1) as i64),
        a1 <= 200 ==> call(8, a0, a1, a2, now_ns, s) == Call::Beep(a0 as u32, a1 as u32),
        200 < a1 <= u32::MAX ==> call(8, a0, a1, a2, now_ns, s) == Call::Beep(a0 as u32, 200),
        call(99, a0, a1, a2, now_ns, s) == Call::Debug(a0 as u8),
        call(9, a0, a1, a2, now_ns, s) == Call::Return((-1) as i64),
        forall|nr: u64|
            14 < nr && nr != 99 ==> #[trigger] call(nr, a0, a1, a2, now_ns, s) == Call::Return(
                (-1) as i64,
            ),
{
}

/// A port is reached exactly where it belongs to a disk controller.
pub proof fn law_disk_ports(port: u16, a1: u64, a2: u64, now_ns: u64, s: Screen)
    ensures
        ({
            let disk = (0x1F0 <= port && port < 0x1F8) || (0x170 <= port && port < 0x178) || port
                == 0x3F6 || port == 0x376;
            let no = Call::Return((-1) as i64);
            let p = port as u64;
            &&& disk ==> call(10, p, a1, a2, now_ns, s) == Call::PortIn8(port)
            &&& disk ==> call(11, p, a1, a2, now_ns, s) == Call::PortOut8(port, a1 as u8)
            &&& disk ==> call(12, p, a1, a2, now_ns, s) == Call::PortIns16(port, a1, a2)
            &&& disk ==> call(13, p, a1, a2, now_ns, s) == Call::PortOuts16(port, a1, a2)
            &&& !disk ==> call(10, p, a1, a2, now_ns, s) == no && call(11, p, a1, a2, now_ns, s)
                == no && call(12, p, a1, a2, now_ns, s) == no && call(13, p, a1, a2, now_ns, s) == no
        }),
{
}

/// The rectangle that is presented.
pub proof fn law_present_rect(x: u32, y: u32, w: u32, h: u32, a2: u64, now_ns: u64, s: Screen)
    ensures
        call(
            14,
            (y * 0x1_0000_0000 + x) as u64,
            (h * 0x1_0000_0000 + w) as u64,
            a2,
            now_ns,
            s,
        ) == Call::Present(x, y, w, h),
{
    let a0: u64 = (y * 0x1_0000_0000 + x) as u64;
    let a1: u64 = (h * 0x1_0000_0000 + w) as u64;
    assert(a0 == y * 0x1_0000_0000 + x);
    assert(a1 == h * 0x1_0000_0000 + w);
}

/// A message that is posted is the last of its channel, stamped with its sender, and
/// the task that waited for it is ready; the others are as they were.
pub proof fn law_posted(p0: Pc, p1: Pc, sender: u16, id: u32, msg: Message, now_ns: u64, i: int)
    requires
        p0.wf(),
        posted(p0, p1, sender, id, msg, now_ns),
        p0.ipc@.live(id),
        0 <= i < 16,
    ensures
        ({
            let c0 = p0.ipc@.chans[id as int];
            let c1 = p1.ipc@.chans[id as int];
            let waits = c0.waiter is Some && c0.waiter.unwrap() == i;
            &&& c1.queue.len() == c0.queue.len() + 1
            &&& c1.queue.last().msg == (Message { sender, ..msg })
            &&& c1.queue.last().sent_ns == now_ns
            &&& c1.queue.drop_last() == c0.queue
            &&& c1.waiter is None
            &&& waits && p0.sched.tasks@[i].state == scheduler::State::Blocked
                ==> p1.sched.tasks@[i].state == scheduler::State::Ready
            &&& !waits ==> p1.sched.tasks@[i] == p0.sched.tasks@[i]
            &&& p1.sched.tasks@[i].rsp == p0.sched.tasks@[i].rsp
        }),
{
    ipc::law_bounds(p0.ipc);
    let c0 = p0.ipc@.chans[id as int];
    assert(p1.ipc@.chans[id as int].queue.drop_last() =~= c0.queue);
}

} // verus!
