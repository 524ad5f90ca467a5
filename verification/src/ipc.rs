//! Inter-process communication: typed message passing on channels.
//!
//! A channel is a bounded ring buffer. Tasks send messages into it; the task
//! that holds the receive right takes them out, oldest first. Messages carry a
//! tag and 32 bytes of inline payload, and the kernel decides who sent each.
use vstd::prelude::*;

use crate::abi::Message;

verus! {

pub const MAX_CHANNELS: usize = 32;

pub const CHANNEL_CAP: usize = 16;

/// Channels the kernel creates at boot, in this order. Everything else is
/// created by init.
pub const KBD_EVENTS: u32 = 0;

pub const SHELL_KEYS: u32 = 1;

pub const INIT_INBOX: u32 = 2;

/// Kernel notices that can wait for room: one exit notice per task slot, twice
/// over.
pub const BACKLOG_CAP: usize = 32;

pub const TRACE_SIZE: usize = 64;

/// Stands for "no task" where a task id is recorded.
pub const NO_TASK: u16 = 0xFFFF;

#[derive(Clone, Copy, Debug, PartialEq, Eq, Structural)]
pub enum Error {
    InvalidChannel,
    Full,
    NoCapacity,
}

/// A message in a channel, with the time it was sent.
#[derive(Clone, Copy, Debug, PartialEq, Eq)]
pub struct Queued {
    pub msg: Message,
    pub sent_ns: u64,
}

/// One delivery, for the message-flow view.
#[derive(Clone, Copy, Debug, PartialEq, Eq, Structural)]
pub struct TraceEntry {
    pub timestamp_ns: u64,
    pub from_task: u16,
    pub to_task: u16,
    pub channel: u16,
    pub tag: u16,
}

struct Channel {
    active: bool,
    buf: Vec<Queued>,
    head: usize,
    tail: usize,
    count: usize,
    waiter: Option<usize>,
    consumer: u16,
    receiver: u16,
    recv_home: Option<(u16, u32)>,
}

/// A channel as plain values: what waits in it, oldest first, and who is
/// concerned with it.
#[verifier::ext_equal]
pub struct Chan {
    pub active: bool,
    pub queue: Seq<Queued>,
    /// The task blocked on a receive.
    pub waiter: Option<usize>,
    /// The last task to receive here.
    pub consumer: u16,
    /// The task that holds the receive right.
    pub receiver: u16,
    /// Where the receive right returns when its holder exits: the task and the
    /// handle slot it was moved from.
    pub recv_home: Option<(u16, u32)>,
}

/// All channels, the waiting kernel notices and the trace, as plain values.
#[verifier::ext_equal]
pub struct IpcView {
    pub chans: Seq<Chan>,
    pub next_id: int,
    pub backlog: Seq<(u32, Message)>,
    pub trace: Seq<TraceEntry>,
}

pub open spec fn stamp(msg: Message, sender: u16) -> Message {
    Message { sender, ..msg }
}

/// The trace with one more entry; the oldest goes when it is full.
pub open spec fn traced(trace: Seq<TraceEntry>, e: TraceEntry) -> Seq<TraceEntry> {
    if trace.len() < TRACE_SIZE {
        trace.push(e)
    } else {
        trace.drop_first().push(e)
    }
}

/// The index of the first notice for `channel`, or the length when there is none.
pub open spec fn first_for(b: Seq<(u32, Message)>, channel: u32) -> int
    decreases b.len(),
{
    if b.len() == 0 {
        0
    } else if b[0].0 == channel {
        0
    } else {
        1 + first_for(b.drop_first(), channel)
    }
}

/// The notices that wait for `channel`, oldest first.
pub open spec fn notices(b: Seq<(u32, Message)>, channel: u32) -> Seq<Message>
    decreases b.len(),
{
    if b.len() == 0 {
        Seq::empty()
    } else if b.last().0 == channel {
        notices(b.drop_last(), channel).push(b.last().1)
    } else {
        notices(b.drop_last(), channel)
    }
}

pub open spec fn pending(b: Seq<(u32, Message)>, channel: u32) -> bool {
    exists|i: int| 0 <= i < b.len() && (#[trigger] b[i]).0 == channel
}

impl Chan {
    pub open spec fn fresh() -> Chan {
        Chan {
            active: true,
            queue: Seq::empty(),
            waiter: None,
            consumer: NO_TASK,
            receiver: NO_TASK,
            recv_home: None,
        }
    }

    /// Who a message sent now is for: the blocked task, or else the holder of
    /// the receive right, or else whoever received here last.
    pub open spec fn destination(self) -> u16 {
        match self.waiter {
            Some(w) => w as u16,
            None => if self.receiver != NO_TASK {
                self.receiver
            } else if self.consumer != NO_TASK {
                self.consumer
            } else {
                NO_TASK
            },
        }
    }

    pub open spec fn popped(self) -> Chan {
        Chan { queue: self.queue.drop_first(), ..self }
    }
}

impl IpcView {
    /// `id` names a channel in use.
    pub open spec fn live(self, id: u32) -> bool {
        id < MAX_CHANNELS && self.chans[id as int].active
    }

    pub open spec fn with_chan(self, id: u32, c: Chan) -> IpcView {
        IpcView { chans: self.chans.update(id as int, c), ..self }
    }

    /// After a message from `sender` has been put into channel `id` and any
    /// waiting task has been taken note of.
    pub open spec fn enqueued(self, sender: u16, id: u32, msg: Message, now_ns: u64) -> IpcView {
        let c = self.chans[id as int];
        let entry = TraceEntry {
            timestamp_ns: now_ns,
            from_task: sender,
            to_task: c.destination(),
            channel: id as u16,
            tag: msg.tag as u16,
        };
        IpcView {
            chans: self.chans.update(
                id as int,
                Chan {
                    queue: c.queue.push(Queued { msg: stamp(msg, sender), sent_ns: now_ns }),
                    waiter: None,
                    ..c
                },
            ),
            trace: traced(self.trace, entry),
            ..self
        }
    }
}

impl Channel {
    closed spec fn view(&self) -> Chan {
        Chan {
            active: self.active,
            queue: Seq::new(
                self.count as nat,
                |i: int| self.buf@[(self.tail + i) % CHANNEL_CAP as int],
            ),
            waiter: self.waiter,
            consumer: self.consumer,
            receiver: self.receiver,
            recv_home: self.recv_home,
        }
    }

    closed spec fn wf(&self) -> bool {
        &&& self.buf@.len() == CHANNEL_CAP
        &&& self.tail < CHANNEL_CAP
        &&& self.count <= CHANNEL_CAP
        &&& self.head == (self.tail + self.count) % CHANNEL_CAP as int
    }

    fn fresh(active: bool) -> (c: Channel)
        ensures
            c.wf(),
            c@ == (Chan { active, ..Chan::fresh() }),
    {
        let blank = Queued { msg: Message::empty(), sent_ns: 0 };
        let c = Channel {
            active,
            buf: vec![blank;CHANNEL_CAP],
            head: 0,
            tail: 0,
            count: 0,
            waiter: None,
            consumer: NO_TASK,
            receiver: NO_TASK,
            recv_home: None,
        };
        assert(c@.queue =~= Seq::<Queued>::empty());
        c
    }

    fn push(&mut self, q: Queued)
        requires
            old(self).wf(),
            old(self)@.queue.len() < CHANNEL_CAP,
        ensures
            final(self).wf(),
            final(self)@ == (Chan { queue: old(self)@.queue.push(q), ..old(self)@ }),
    {
        self.buf[self.head] = q;
        self.head = (self.head + 1) % CHANNEL_CAP;
        self.count = self.count + 1;
        assert(self@.queue =~= old(self)@.queue.push(q));
    }

    fn pop(&mut self) -> (r: Option<Queued>)
        requires
            old(self).wf(),
        ensures
            final(self).wf(),
            match r {
                Some(q) => old(self)@.queue.len() > 0 && q == old(self)@.queue[0] && final(self)@
                    == old(self)@.popped(),
                None => old(self)@.queue.len() == 0 && final(self)@ == old(self)@,
            },
    {
        if self.count == 0 {
            return None;
        }
        let q: Queued = self.buf[self.tail];
        self.tail = (self.tail + 1) % CHANNEL_CAP;
        self.count = self.count - 1;
        assert(self@.queue =~= old(self)@.queue.drop_first());
        Some(q)
    }
}

struct TraceBuffer {
    entries: Vec<TraceEntry>,
    head: usize,
    count: usize,
}

impl TraceBuffer {
    closed spec fn wf(&self) -> bool {
        &&& self.entries@.len() == TRACE_SIZE
        &&& self.head < TRACE_SIZE
        &&& self.count <= TRACE_SIZE
        &&& self.count < TRACE_SIZE ==> self.head == self.count
    }

    closed spec fn start(&self) -> int {
        if self.count >= TRACE_SIZE {
            self.head as int
        } else {
            0
        }
    }

    closed spec fn view(&self) -> Seq<TraceEntry> {
        Seq::new(
            self.count as nat,
            |i: int| self.entries@[(self.start() + i) % TRACE_SIZE as int],
        )
    }

    fn record(&mut self, entry: TraceEntry)
        requires
            old(self).wf(),
        ensures
            final(self).wf(),
            final(self)@ == traced(old(self)@, entry),
    {
        self.entries[self.head] = entry;
        self.head = (self.head + 1) % TRACE_SIZE;
        if self.count < TRACE_SIZE {
            self.count = self.count + 1;
        }
        assert(self@ =~= traced(old(self)@, entry));
    }
}

/// Every channel, the kernel's backlog and the trace.
pub struct Ipc {
    channels: Vec<Channel>,
    next_id: usize,
    backlog: Vec<(u32, Message)>,
    trace: TraceBuffer,
}

impl Ipc {
    pub closed spec fn view(&self) -> IpcView {
        IpcView {
            chans: Seq::new(self.channels@.len(), |i: int| self.channels@[i]@),
            next_id: self.next_id as int,
            backlog: self.backlog@,
            trace: self.trace@,
        }
    }

    closed spec fn rings_ok(&self) -> bool {
        &&& forall|i: int| 0 <= i < self.channels@.len() ==> (#[trigger] self.channels@[i]).wf()
        &&& self.trace.wf()
    }

    pub closed spec fn wf(&self) -> bool {
        &&& self.rings_ok()
        &&& self@.chans.len() == MAX_CHANNELS
        &&& self@.next_id <= MAX_CHANNELS
        &&& forall|i: int|
            0 <= i < MAX_CHANNELS ==> (#[trigger] self@.chans[i]).active == (i < self@.next_id)
        &&& self@.backlog.len() <= BACKLOG_CAP
        &&& forall|i: int|
            0 <= i < self@.backlog.len() ==> (#[trigger] self@.backlog[i]).1.sender == 0
    }

    /// No channel yet.
    pub fn new() -> (ipc: Ipc)
        ensures
            ipc.wf(),
            ipc@.next_id == 0,
            ipc@.backlog == Seq::<(u32, Message)>::empty(),
            ipc@.trace == Seq::<TraceEntry>::empty(),
    {
        let mut channels: Vec<Channel> = Vec::new();
        while channels.len() < MAX_CHANNELS
            invariant
                channels@.len() <= MAX_CHANNELS,
                forall|i: int|
                    0 <= i < channels@.len() ==> (#[trigger] channels@[i]).wf()
                        && !channels@[i]@.active,
            decreases MAX_CHANNELS - channels@.len(),
        {
            channels.push(Channel::fresh(false));
        }
        let blank = TraceEntry { timestamp_ns: 0, from_task: 0, to_task: 0, channel: 0, tag: 0 };
        let ipc = Ipc {
            channels,
            next_id: 0,
            backlog: Vec::new(),
            trace: TraceBuffer { entries: vec![blank;TRACE_SIZE], head: 0, count: 0 },
        };
        assert(ipc@.trace =~= Seq::<TraceEntry>::empty());
        ipc
    }
}

/// What holds of every state: queues, backlog and trace stay within bounds, the
/// channels in use are the first ones, and every waiting notice is the kernel's.
pub proof fn law_bounds(ipc: Ipc)
    requires
        ipc.wf(),
    ensures
        ipc@.chans.len() == MAX_CHANNELS,
        0 <= ipc@.next_id <= MAX_CHANNELS,
        ipc@.backlog.len() <= BACKLOG_CAP,
        ipc@.trace.len() <= TRACE_SIZE,
        forall|i: int|
            0 <= i < MAX_CHANNELS ==> (#[trigger] ipc@.chans[i]).active == (i < ipc@.next_id),
        forall|i: int|
            0 <= i < MAX_CHANNELS ==> (#[trigger] ipc@.chans[i]).queue.len() <= CHANNEL_CAP,
        forall|i: int|
            0 <= i < ipc@.backlog.len() ==> (#[trigger] ipc@.backlog[i]).1.sender == 0,
{
    assert forall|i: int| 0 <= i < MAX_CHANNELS implies (
    #[trigger] ipc@.chans[i]).queue.len() <= CHANNEL_CAP by {
        assert(ipc.channels@[i].wf());
    }
}

/// Creates a channel. Returns its number.
pub fn create(ipc: &mut Ipc) -> (r: Result<u32, Error>)
    requires
        old(ipc).wf(),
    ensures
        final(ipc).wf(),
        match r {
            Ok(id) => {
                &&& old(ipc)@.next_id < MAX_CHANNELS
                &&& id == old(ipc)@.next_id
                &&& final(ipc)@ == (IpcView {
                    next_id: old(ipc)@.next_id + 1,
                    ..old(ipc)@.with_chan(id, Chan::fresh())
                })
            },
            Err(e) => {
                &&& e == Error::NoCapacity
                &&& old(ipc)@.next_id == MAX_CHANNELS
                &&& final(ipc)@ == old(ipc)@
            },
        },
{
    let id: usize = ipc.next_id;
    if id >= MAX_CHANNELS {
        return Err(Error::NoCapacity);
    }
    ipc.channels[id] = Channel::fresh(true);
    ipc.next_id = id + 1;
    proof {
        assert(ipc@.chans =~= old(ipc)@.chans.update(id as int, Chan::fresh()));
        assert(ipc@.next_id == old(ipc)@.next_id + 1);
        assert forall|i: int| 0 <= i < MAX_CHANNELS implies (#[trigger] ipc@.chans[i]).active == (i
            < ipc@.next_id) by {
            if i != id {
                assert(ipc@.chans[i] == old(ipc)@.chans[i]);
            }
        }
    }
    Ok(id as u32)
}

/// Whether the live channel `id` holds as many messages as it can.
pub(crate) fn is_full(ipc: &Ipc, id: u32) -> (r: bool)
    requires
        ipc.wf(),
        ipc@.live(id),
    ensures
        r == (ipc@.chans[id as int].queue.len() >= CHANNEL_CAP),
{
    proof {
        assert(ipc.channels@[id as int].wf());
        assert(ipc@.chans[id as int] == ipc.channels@[id as int]@);
    }
    ipc.channels[id as usize].count >= CHANNEL_CAP
}

/// Whether `id` names a channel in use.
pub(crate) fn is_live(ipc: &Ipc, id: u32) -> (r: bool)
    requires
        ipc.wf(),
    ensures
        r == ipc@.live(id),
{
    (id as usize) < MAX_CHANNELS && ipc.channels[id as usize].active
}

/// Puts a message from `sender` into channel `id`. The result is the task that
/// was waiting there, which now is not.
pub(crate) fn enqueue(ipc: &mut Ipc, sender: u16, id: u32, msg: &Message, now_ns: u64) -> (r: Result<
    Option<usize>,
    Error,
>)
    requires
        old(ipc).wf(),
    ensures
        final(ipc).wf(),
        match r {
            Ok(waiter) => {
                &&& old(ipc)@.live(id)
                &&& old(ipc)@.chans[id as int].queue.len() < CHANNEL_CAP
                &&& waiter == old(ipc)@.chans[id as int].waiter
                &&& final(ipc)@ == old(ipc)@.enqueued(sender, id, *msg, now_ns)
            },
            Err(e) => {
                &&& final(ipc)@ == old(ipc)@
                &&& e == if !old(ipc)@.live(id) {
                    Error::InvalidChannel
                } else {
                    Error::Full
                }
                &&& old(ipc)@.live(id) ==> old(ipc)@.chans[id as int].queue.len() == CHANNEL_CAP
            },
        },
{
    if !is_live(ipc, id) {
        return Err(Error::InvalidChannel);
    }
    let i: usize = id as usize;
    proof {
        assert(ipc.channels@[i as int].wf());
        assert(ipc@.chans[i as int] == ipc.channels@[i as int]@);
    }
    if ipc.channels[i].count >= CHANNEL_CAP {
        return Err(Error::Full);
    }
    let waiter: Option<usize> = ipc.channels[i].waiter;
    let to_task: u16 = match waiter {
        Some(w) => w as u16,
        None => if ipc.channels[i].receiver != NO_TASK {
            ipc.channels[i].receiver
        } else if ipc.channels[i].consumer != NO_TASK {
            ipc.channels[i].consumer
        } else {
            NO_TASK
        },
    };
    let mut stamped: Message = *msg;
    stamped.sender = sender;
    ipc.channels[i].push(Queued { msg: stamped, sent_ns: now_ns });
    ipc.channels[i].waiter = None;
    ipc.trace.record(
        TraceEntry {
            timestamp_ns: now_ns,
            from_task: sender,
            to_task,
            channel: id as u16,
            tag: msg.tag as u16,
        },
    );
    proof {
        let want = old(ipc)@.enqueued(sender, id, *msg, now_ns);
        assert(ipc@.chans[i as int] == want.chans[i as int]);
        assert(ipc@.chans =~= want.chans);
        assert(ipc@ =~= want);
        assert forall|j: int| 0 <= j < MAX_CHANNELS implies (#[trigger] ipc@.chans[j]).active == (j
            < ipc@.next_id) by {
            assert(ipc@.chans[j].active == old(ipc)@.chans[j].active);
        }
    }
    Ok(waiter)
}

/// Takes the oldest message out of channel `id`.
pub(crate) fn take(ipc: &mut Ipc, id: u32) -> (r: Option<Queued>)
    requires
        old(ipc).wf(),
        old(ipc)@.live(id),
    ensures
        final(ipc).wf(),
        match r {
            Some(q) => {
                &&& old(ipc)@.chans[id as int].queue.len() > 0
                &&& q == old(ipc)@.chans[id as int].queue[0]
                &&& final(ipc)@ == old(ipc)@.with_chan(id, old(ipc)@.chans[id as int].popped())
            },
            None => old(ipc)@.chans[id as int].queue.len() == 0 && final(ipc)@ == old(ipc)@,
        },
{
    let i: usize = id as usize;
    proof {
        assert(ipc.channels@[i as int].wf());
        assert(ipc@.chans[i as int] == ipc.channels@[i as int]@);
    }
    let r: Option<Queued> = ipc.channels[i].pop();
    proof {
        assert(ipc@.chans =~= old(ipc)@.chans.update(i as int, ipc.channels@[i as int]@));
        assert(ipc@.chans[i as int].active);
        assert forall|j: int| 0 <= j < MAX_CHANNELS implies (#[trigger] ipc@.chans[j]).active == (j
            < ipc@.next_id) by {
            assert(ipc@.chans[j].active == old(ipc)@.chans[j].active);
        }
        if r is None {
            assert(ipc@.chans =~= old(ipc)@.chans);
        }
    }
    r
}

/// Changing one channel and nothing else.
proof fn lemma_one_channel(before: Ipc, after: Ipc, i: int)
    requires
        before.wf(),
        0 <= i < MAX_CHANNELS,
        after.channels@ == before.channels@.update(i, after.channels@[i]),
        after.channels@[i].wf(),
        after.channels@[i].active == before.channels@[i].active,
        after.next_id == before.next_id,
        after.backlog@ == before.backlog@,
        after.trace == before.trace,
    ensures
        after.wf(),
        after@ == before@.with_chan(i as u32, after.channels@[i]@),
{
    assert(after@.chans =~= before@.chans.update(i, after.channels@[i]@));
    assert forall|j: int| 0 <= j < MAX_CHANNELS implies (#[trigger] after@.chans[j]).active == (j
        < after@.next_id) by {
        assert(after@.chans[j].active == before@.chans[j].active);
    }
}

/// Remembers that `task` receives on channel `id`.
pub(crate) fn learn_consumer(ipc: &mut Ipc, id: u32, task: usize)
    requires
        old(ipc).wf(),
        old(ipc)@.live(id),
    ensures
        final(ipc).wf(),
        final(ipc)@ == old(ipc)@.with_chan(
            id,
            (Chan { consumer: task as u16, ..old(ipc)@.chans[id as int] }),
        ),
{
    let i: usize = id as usize;
    proof {
        assert(ipc.channels@[i as int].wf());
        assert(ipc@.chans[i as int] == ipc.channels@[i as int]@);
    }
    ipc.channels[i].consumer = task as u16;
    proof {
        assert(ipc.channels@ =~= old(ipc).channels@.update(i as int, ipc.channels@[i as int]));
        lemma_one_channel(*old(ipc), *ipc, i as int);
        assert(ipc.channels@[i as int]@ =~= (Chan {
            consumer: task as u16,
            ..old(ipc)@.chans[i as int]
        }));
    }
}

/// Records `task` as waiting on `channel_id` (it must hold the channel's
/// receive right).
pub fn register_waiter(ipc: &mut Ipc, channel_id: u32, task: usize) -> (r: Result<(), Error>)
    requires
        old(ipc).wf(),
    ensures
        final(ipc).wf(),
        match r {
            Ok(()) => old(ipc)@.live(channel_id) && final(ipc)@ == old(ipc)@.with_chan(
                channel_id,
                (Chan { waiter: Some(task), ..old(ipc)@.chans[channel_id as int] }),
            ),
            Err(e) => e == Error::InvalidChannel && !old(ipc)@.live(channel_id) && final(ipc)@
                == old(ipc)@,
        },
{
    if !is_live(ipc, channel_id) {
        return Err(Error::InvalidChannel);
    }
    let i: usize = channel_id as usize;
    proof {
        assert(ipc.channels@[i as int].wf());
        assert(ipc@.chans[i as int] == ipc.channels@[i as int]@);
    }
    ipc.channels[i].waiter = Some(task);
    proof {
        assert(ipc.channels@ =~= old(ipc).channels@.update(i as int, ipc.channels@[i as int]));
        lemma_one_channel(*old(ipc), *ipc, i as int);
        assert(ipc.channels@[i as int]@ =~= (Chan {
            waiter: Some(task),
            ..old(ipc)@.chans[i as int]
        }));
    }
    Ok(())
}

impl IpcView {
    /// After `task`'s wait on channel `id`, if there is one, is forgotten.
    pub open spec fn cancelled(self, id: u32, task: usize) -> IpcView {
        if self.live(id) && self.chans[id as int].waiter == Some(task) {
            self.with_chan(id, (Chan { waiter: None, ..self.chans[id as int] }))
        } else {
            self
        }
    }

    pub open spec fn received_by(self, id: u32, task: usize, home: Option<(u16, u32)>) -> IpcView {
        if self.live(id) {
            self.with_chan(
                id,
                (Chan { receiver: task as u16, recv_home: home, ..self.chans[id as int] }),
            )
        } else {
            self
        }
    }

    /// After `task`, if it holds the receive right of channel `id`, has exited:
    /// the right is where it came from, and queued messages stay.
    pub open spec fn receiver_gone(self, id: u32, task: usize) -> IpcView {
        let c = self.chans[id as int];
        if self.live(id) && c.receiver == task as u16 {
            self.with_chan(
                id,
                (Chan {
                    waiter: if c.waiter == Some(task) {
                        None
                    } else {
                        c.waiter
                    },
                    receiver: match c.recv_home {
                        Some(home) => home.0,
                        None => NO_TASK,
                    },
                    recv_home: None,
                    ..c
                }),
            )
        } else {
            self
        }
    }
}

/// Forgets `task`'s wait on `channel_id` (deadline passed, or the task exited).
pub fn cancel_waiter(ipc: &mut Ipc, channel_id: u32, task: usize)
    requires
        old(ipc).wf(),
    ensures
        final(ipc).wf(),
        final(ipc)@ == old(ipc)@.cancelled(channel_id, task),
{
    if !is_live(ipc, channel_id) {
        return ;
    }
    let i: usize = channel_id as usize;
    proof {
        assert(ipc.channels@[i as int].wf());
        assert(ipc@.chans[i as int] == ipc.channels@[i as int]@);
    }
    let waits: bool = match ipc.channels[i].waiter {
        Some(w) => w == task,
        None => false,
    };
    if waits {
        ipc.channels[i].waiter = None;
        proof {
            assert(ipc.channels@ =~= old(ipc).channels@.update(i as int, ipc.channels@[i as int]));
        lemma_one_channel(*old(ipc), *ipc, i as int);
            assert(ipc.channels@[i as int]@ =~= (Chan {
                waiter: None,
                ..old(ipc)@.chans[i as int]
            }));
        }
    }
}

fn put_receiver(ipc: &mut Ipc, channel_id: u32, task: usize, home: Option<(u16, u32)>)
    requires
        old(ipc).wf(),
    ensures
        final(ipc).wf(),
        final(ipc)@ == old(ipc)@.received_by(channel_id, task, home),
{
    if !is_live(ipc, channel_id) {
        return ;
    }
    let i: usize = channel_id as usize;
    proof {
        assert(ipc.channels@[i as int].wf());
        assert(ipc@.chans[i as int] == ipc.channels@[i as int]@);
    }
    ipc.channels[i].receiver = task as u16;
    ipc.channels[i].recv_home = home;
    proof {
        assert(ipc.channels@ =~= old(ipc).channels@.update(i as int, ipc.channels@[i as int]));
        lemma_one_channel(*old(ipc), *ipc, i as int);
        assert(ipc.channels@[i as int]@ =~= (Chan {
            receiver: task as u16,
            recv_home: home,
            ..old(ipc)@.chans[i as int]
        }));
    }
}

/// `task` holds the receive right of `channel_id` natively (it created the
/// channel, or the kernel gave it the right at boot).
pub fn set_receiver(ipc: &mut Ipc, channel_id: u32, task: usize)
    requires
        old(ipc).wf(),
    ensures
        final(ipc).wf(),
        final(ipc)@ == old(ipc)@.received_by(channel_id, task, None),
{
    put_receiver(ipc, channel_id, task, None);
}

/// `task` now holds the receive right of `channel_id`, moved from `home_task`'s
/// slot `home_slot`.
pub fn set_receiver_with_home(
    ipc: &mut Ipc,
    channel_id: u32,
    task: usize,
    home_task: usize,
    home_slot: u32,
)
    requires
        old(ipc).wf(),
    ensures
        final(ipc).wf(),
        final(ipc)@ == old(ipc)@.received_by(
            channel_id,
            task,
            Some((home_task as u16, home_slot)),
        ),
{
    put_receiver(ipc, channel_id, task, Some((home_task as u16, home_slot)));
}

/// The receiver of `channel_id`, if any.
pub fn receiver(ipc: &Ipc, channel_id: u32) -> (r: Option<usize>)
    requires
        ipc.wf(),
    ensures
        r == if ipc@.live(channel_id) && ipc@.chans[channel_id as int].receiver != NO_TASK {
            Some(ipc@.chans[channel_id as int].receiver as usize)
        } else {
            None
        },
{
    if is_live(ipc, channel_id) && ipc.channels[channel_id as usize].receiver != NO_TASK {
        Some(ipc.channels[channel_id as usize].receiver as usize)
    } else {
        None
    }
}

/// `task`, the receiver of `channel_id`, exited. Queued messages stay; the
/// right goes back to where it came from. Returns that home (task, slot), or
/// `None` if the right had no home, in which case the channel has no receiver.
pub fn receiver_exited(ipc: &mut Ipc, channel_id: u32, task: usize) -> (r: Option<(usize, u32)>)
    requires
        old(ipc).wf(),
    ensures
        final(ipc).wf(),
        final(ipc)@ == old(ipc)@.receiver_gone(channel_id, task),
        r == if old(ipc)@.live(channel_id) && old(ipc)@.chans[channel_id as int].receiver
            == task as u16 {
            match old(ipc)@.chans[channel_id as int].recv_home {
                Some(home) => Some((home.0 as usize, home.1)),
                None => None,
            }
        } else {
            None
        },
{
    if !is_live(ipc, channel_id) {
        return None;
    }
    let i: usize = channel_id as usize;
    proof {
        assert(ipc.channels@[i as int].wf());
        assert(ipc@.chans[i as int] == ipc.channels@[i as int]@);
    }
    if ipc.channels[i].receiver != task as u16 {
        return None;
    }
    let waits: bool = match ipc.channels[i].waiter {
        Some(w) => w == task,
        None => false,
    };
    if waits {
        ipc.channels[i].waiter = None;
    }
    let home: Option<(u16, u32)> = ipc.channels[i].recv_home;
    ipc.channels[i].recv_home = None;
    let r: Option<(usize, u32)> = match home {
        Some(h) => {
            ipc.channels[i].receiver = h.0;
            Some((h.0 as usize, h.1))
        },
        None => {
            ipc.channels[i].receiver = NO_TASK;
            None
        },
    };
    proof {
        assert(ipc.channels@ =~= old(ipc).channels@.update(i as int, ipc.channels@[i as int]));
        lemma_one_channel(*old(ipc), *ipc, i as int);
        let c = old(ipc)@.chans[i as int];
        assert(ipc.channels@[i as int]@ =~= old(ipc)@.receiver_gone(
            channel_id,
            task,
        ).chans[i as int]);
    }
    r
}

/// How many channels are active.
pub fn channel_count(ipc: &Ipc) -> (n: usize)
    requires
        ipc.wf(),
    ensures
        n == ipc@.next_id,
{
    ipc.next_id
}

/// Whether a kernel notice waits for `channel_id`.
pub(crate) fn has_notice(ipc: &Ipc, channel_id: u32) -> (r: bool)
    requires
        ipc.wf(),
    ensures
        r == pending(ipc@.backlog, channel_id),
{
    let mut i: usize = 0;
    while i < ipc.backlog.len()
        invariant
            ipc.wf(),
            i <= ipc.backlog@.len(),
            forall|j: int| 0 <= j < i ==> (#[trigger] ipc.backlog@[j]).0 != channel_id,
        decreases ipc.backlog@.len() - i,
    {
        if ipc.backlog[i].0 == channel_id {
            assert(ipc@.backlog[i as int].0 == channel_id);
            return true;
        }
        i = i + 1;
    }
    false
}

/// Lets a kernel notice wait for room in `channel_id`. `false` says that the
/// backlog itself is full.
pub(crate) fn keep_notice(ipc: &mut Ipc, channel_id: u32, msg: Message) -> (r: bool)
    requires
        old(ipc).wf(),
        msg.sender == 0,
    ensures
        final(ipc).wf(),
        r == (old(ipc)@.backlog.len() < BACKLOG_CAP),
        final(ipc)@ == if r {
            IpcView { backlog: old(ipc)@.backlog.push((channel_id, msg)), ..old(ipc)@ }
        } else {
            old(ipc)@
        },
{
    if ipc.backlog.len() >= BACKLOG_CAP {
        return false;
    }
    ipc.backlog.push((channel_id, msg));
    assert(ipc@.chans =~= old(ipc)@.chans);
    assert(forall|i: int|
        0 <= i < MAX_CHANNELS ==> (#[trigger] ipc@.chans[i]).active == old(ipc)@.chans[i].active);
    true
}

/// Takes the oldest notice that waits for `channel_id`.
pub(crate) fn take_notice(ipc: &mut Ipc, channel_id: u32) -> (r: Option<Message>)
    requires
        old(ipc).wf(),
    ensures
        final(ipc).wf(),
        match r {
            Some(msg) => {
                let i = first_for(old(ipc)@.backlog, channel_id);
                &&& pending(old(ipc)@.backlog, channel_id)
                &&& 0 <= i < old(ipc)@.backlog.len()
                &&& msg == old(ipc)@.backlog[i].1
                &&& final(ipc)@ == (IpcView {
                    backlog: old(ipc)@.backlog.remove(i),
                    ..old(ipc)@
                })
            },
            None => !pending(old(ipc)@.backlog, channel_id) && final(ipc)@ == old(ipc)@,
        },
{
    let mut i: usize = 0;
    while i < ipc.backlog.len()
        invariant
            ipc.wf(),
            *ipc == *old(ipc),
            i <= ipc.backlog@.len(),
            forall|j: int| 0 <= j < i ==> (#[trigger] ipc.backlog@[j]).0 != channel_id,
        decreases ipc.backlog@.len() - i,
    {
        if ipc.backlog[i].0 == channel_id {
            proof {
                lemma_first_for(ipc.backlog@, channel_id, i as int);
                assert(ipc@.backlog[i as int].0 == channel_id);
            }
            let entry: (u32, Message) = ipc.backlog.remove(i);
            assert(ipc@.chans =~= old(ipc)@.chans);
            assert forall|j: int| 0 <= j < ipc@.backlog.len() implies (
            #[trigger] ipc@.backlog[j]).1.sender == 0 by {
                if j < i {
                    assert(ipc@.backlog[j] == old(ipc)@.backlog[j]);
                } else {
                    assert(ipc@.backlog[j] == old(ipc)@.backlog[j + 1]);
                }
            }
            assert(forall|j: int|
                0 <= j < MAX_CHANNELS ==> (#[trigger] ipc@.chans[j]).active
                    == old(ipc)@.chans[j].active);
            return Some(entry.1);
        }
        i = i + 1;
    }
    None
}

proof fn lemma_first_for(b: Seq<(u32, Message)>, channel: u32, i: int)
    requires
        0 <= i < b.len(),
        b[i].0 == channel,
        forall|j: int| 0 <= j < i ==> (#[trigger] b[j]).0 != channel,
    ensures
        first_for(b, channel) == i,
    decreases b.len(),
{
    if i > 0 {
        let d = b.drop_first();
        assert(b[0].0 != channel);
        assert forall|j: int| 0 <= j < i - 1 implies (#[trigger] d[j]).0 != channel by {
            assert(d[j] == b[j + 1]);
        }
        lemma_first_for(d, channel, i - 1);
    }
}

/// Copies the last `max` trace entries into `buf`, oldest first, as far as
/// they fit. Returns how many were written.
pub fn trace_read(ipc: &Ipc, buf: &mut Vec<TraceEntry>, max: usize) -> (n: usize)
    requires
        ipc.wf(),
    ensures
        n <= ipc@.trace.len(),
        n <= max,
        n <= old(buf)@.len(),
        n == ipc@.trace.len() || n == max || n == old(buf)@.len(),
        final(buf)@ == ipc@.trace.subrange(ipc@.trace.len() - n, ipc@.trace.len() as int) + old(
            buf,
        )@.subrange(n as int, old(buf)@.len() as int),
{
    let tb: &TraceBuffer = &ipc.trace;
    let mut n: usize = tb.count;
    if max < n {
        n = max;
    }
    if buf.len() < n {
        n = buf.len();
    }
    let start: usize = if tb.count >= TRACE_SIZE { tb.head } else { 0 };
    let skip: usize = tb.count - n;
    let mut i: usize = 0;
    while i < n
        invariant
            ipc.wf(),
            *tb == ipc.trace,
            i <= n <= tb.count <= TRACE_SIZE,
            n <= old(buf)@.len(),
            buf@.len() == old(buf)@.len(),
            start == tb.start(),
            start < TRACE_SIZE,
            skip == tb.count - n,
            forall|j: int| 0 <= j < i ==> buf@[j] == #[trigger] ipc@.trace[skip + j],
            forall|j: int| i <= j < buf@.len() ==> buf@[j] == #[trigger] old(buf)@[j],
        decreases n - i,
    {
        let idx: usize = (start + skip + i) % TRACE_SIZE;
        buf[i] = tb.entries[idx];
        assert(ipc@.trace[skip + i] == tb.entries@[idx as int]);
        i = i + 1;
    }
    proof {
        let want = ipc@.trace.subrange(ipc@.trace.len() - n, ipc@.trace.len() as int) + old(
            buf,
        )@.subrange(n as int, old(buf)@.len() as int);
        assert forall|j: int| 0 <= j < buf@.len() implies buf@[j] == #[trigger] want[j] by {
            if j < n {
                assert(want[j] == ipc@.trace[skip + j]);
            } else {
                assert(want[j] == old(buf)@[j]);
            }
        }
        assert(buf@ =~= want);
    }
    n
}

/// Messages of one channel leave it in the order in which they came.
pub proof fn law_fifo(c: Chan, q: Queued)
    ensures
        (Chan { queue: c.queue.push(q), ..c }).queue.last() == q,
        c.queue.len() > 0 ==> (Chan { queue: c.queue.push(q), ..c }).queue[0] == c.queue[0],
        c.queue.len() == 0 ==> (Chan { queue: c.queue.push(q), ..c }).queue[0] == q,
        c.queue.len() > 0 ==> c.queue.push(q).drop_first() == c.queue.drop_first().push(q),
{
    if c.queue.len() > 0 {
        assert(c.queue.push(q).drop_first() =~= c.queue.drop_first().push(q));
    }
}

/// A send changes no channel but the one it is sent on, and in that one neither
/// the messages before it nor who may receive.
pub proof fn law_send_is_local(v: IpcView, sender: u16, id: u32, msg: Message, now_ns: u64, other: int)
    requires
        v.live(id),
        v.chans.len() == MAX_CHANNELS,
        0 <= other < MAX_CHANNELS,
    ensures
        other != id ==> v.enqueued(sender, id, msg, now_ns).chans[other] == v.chans[other],
        v.enqueued(sender, id, msg, now_ns).chans[id as int].queue.drop_last()
            == v.chans[id as int].queue,
        v.enqueued(sender, id, msg, now_ns).chans[id as int].receiver == v.chans[id as int].receiver,
        v.enqueued(sender, id, msg, now_ns).chans[id as int].queue.last().msg.sender == sender,
        v.enqueued(sender, id, msg, now_ns).backlog == v.backlog,
{
    assert(v.chans[id as int].queue.push(
        Queued { msg: stamp(msg, sender), sent_ns: now_ns },
    ).drop_last() =~= v.chans[id as int].queue);
}

/// Every message that is sent is on record: the newest entry of the trace names
/// its sender, its channel and what it is, and the entries before it stay, but
/// for the oldest once the trace is full.
pub proof fn law_every_message_is_traced(v: IpcView, sender: u16, id: u32, msg: Message, now_ns: u64)
    requires
        v.trace.len() <= TRACE_SIZE,
    ensures
        ({
            let t = v.enqueued(sender, id, msg, now_ns).trace;
            &&& 1 <= t.len() <= TRACE_SIZE
            &&& t.last().from_task == sender
            &&& t.last().channel == id as u16
            &&& t.last().tag == msg.tag as u16
            &&& t.last().timestamp_ns == now_ns
            &&& t.drop_last() == if v.trace.len() < TRACE_SIZE {
                v.trace
            } else {
                v.trace.drop_first()
            }
        }),
{
    let t = v.enqueued(sender, id, msg, now_ns).trace;
    assert(t.drop_last() =~= if v.trace.len() < TRACE_SIZE {
        v.trace
    } else {
        v.trace.drop_first()
    });
}

/// When the holder of a receive right exits, no queued message is lost, and
/// the holder is no longer named as receiver or waiter, unless it was its own home.
pub proof fn law_receiver_exit_keeps_messages(v: IpcView, id: u32, task: usize)
    requires
        v.live(id),
        v.chans.len() == MAX_CHANNELS,
        task < NO_TASK,
    ensures
        v.receiver_gone(id, task).chans[id as int].queue == v.chans[id as int].queue,
        v.chans[id as int].receiver == task && (v.chans[id as int].recv_home matches Some(
            h,
        ) ==> h.0 != task) ==> v.receiver_gone(id, task).chans[id as int].receiver != task
            && v.receiver_gone(id, task).chans[id as int].waiter != Some(task),
{
}

/// Every message that is sent is on record with whom it is for: the task that
/// waits; if none does, the holder of the receive right; if there is none, the
/// last task that received; and nobody only if there is none of these.
pub proof fn law_trace_names_the_receiver(v: IpcView, sender: u16, id: u32, msg: Message, now_ns: u64)
    requires
        v.trace.len() <= TRACE_SIZE,
    ensures
        ({
            let c = v.chans[id as int];
            let to = v.enqueued(sender, id, msg, now_ns).trace.last().to_task;
            &&& c.waiter matches Some(w) ==> to == w as u16
            &&& c.waiter is None && c.receiver != 0xFFFF ==> to == c.receiver
            &&& c.waiter is None && c.receiver == 0xFFFF && c.consumer != 0xFFFF ==> to
                == c.consumer
            &&& c.waiter is None && c.receiver == 0xFFFF && c.consumer == 0xFFFF ==> to == 0xFFFF
        }),
{
}

/// A message goes behind every other in its channel, as it was given but for its
/// sender, which the kernel says, and with the time at which it came.
pub proof fn law_message_joins_its_channel(v: IpcView, sender: u16, id: u32, msg: Message, now_ns: u64)
    requires
        v.live(id),
        v.chans.len() == 32,
    ensures
        ({
            let q0 = v.chans[id as int].queue;
            let q1 = v.enqueued(sender, id, msg, now_ns).chans[id as int].queue;
            &&& q1.len() == q0.len() + 1
            &&& forall|i: int| 0 <= i < q0.len() ==> #[trigger] q1[i] == q0[i]
            &&& q1[q0.len() as int].sent_ns == now_ns
            &&& q1[q0.len() as int].msg.sender == sender
            &&& q1[q0.len() as int].msg.tag == msg.tag
            &&& q1[q0.len() as int].msg.len == msg.len
            &&& q1[q0.len() as int].msg.payload == msg.payload
        }),
{
}

/// A new channel is empty, and nobody waits on it, received from it or holds the
/// right to.
pub proof fn law_new_channel_is_empty()
    ensures
        Chan::fresh().active,
        Chan::fresh().queue.len() == 0,
        Chan::fresh().waiter is None,
        Chan::fresh().receiver == 0xFFFF,
        Chan::fresh().consumer == 0xFFFF,
        Chan::fresh().recv_home is None,
{
}

/// A channel holds 16 messages, there are 32 channels, 32 notices can wait, and
/// the trace goes 64 messages back.
pub proof fn law_sizes(ipc: Ipc, id: u32)
    requires
        ipc.wf(),
    ensures
        ipc@.chans.len() == 32,
        ipc@.live(id) ==> id < 32 && ipc@.chans[id as int].queue.len() <= 16,
        ipc@.backlog.len() <= 32,
        ipc@.trace.len() <= 64,
        CHANNEL_CAP == 16,
        MAX_CHANNELS == 32,
        BACKLOG_CAP == 32,
        TRACE_SIZE == 64,
        NO_TASK == 0xFFFF,
        INIT_INBOX == 2,
{
    law_bounds(ipc);
}

/// The right to receive, when its holder exits, goes back to where it came from.
pub proof fn law_receive_right_goes_home(v: IpcView, id: u32, task: usize, home: (u16, u32))
    requires
        v.live(id),
        v.chans.len() == 32,
        task < 0xFFFF,
        v.chans[id as int].receiver == task,
        v.chans[id as int].recv_home == Some(home),
    ensures
        v.receiver_gone(id, task).chans[id as int].receiver == home.0,
        v.receiver_gone(id, task).chans[id as int].recv_home is None,
        v.receiver_gone(id, task).trace == v.trace,
        v.receiver_gone(id, task).backlog == v.backlog,
{
}

/// A task that gives up waiting waits no more on that channel. Whoever else waits there
/// goes on waiting, and no message and no other channel is touched.
pub proof fn law_giving_up(v: IpcView, id: u32, task: usize, other: int)
    requires
        v.live(id),
        v.chans.len() == MAX_CHANNELS,
        0 <= other < MAX_CHANNELS,
    ensures
        v.cancelled(id, task).chans[id as int].waiter != Some(task),
        v.chans[id as int].waiter != Some(task) ==> v.cancelled(id, task) == v,
        v.cancelled(id, task).chans[id as int].queue == v.chans[id as int].queue,
        v.cancelled(id, task).chans[id as int].receiver == v.chans[id as int].receiver,
        other != id ==> v.cancelled(id, task).chans[other] == v.chans[other],
        v.cancelled(id, task).backlog == v.backlog,
        v.cancelled(id, task).trace == v.trace,
{
}

/// Once a task has the receive right of a channel the channel names it, with the place
/// that the right goes home to, and keeps its messages.
pub proof fn law_receiver_is_named(
    v: IpcView,
    id: u32,
    task: u16,
    home: Option<(u16, u32)>,
    other: int,
)
    requires
        v.live(id),
        v.chans.len() == MAX_CHANNELS,
        0 <= other < MAX_CHANNELS,
    ensures
        v.received_by(id, task as usize, home).chans[id as int].receiver == task,
        v.received_by(id, task as usize, home).chans[id as int].recv_home == home,
        v.received_by(id, task as usize, home).chans[id as int].queue == v.chans[id as int].queue,
        v.received_by(id, task as usize, home).live(id),
        other != id ==> v.received_by(id, task as usize, home).chans[other] == v.chans[other],
        v.received_by(id, task as usize, home).backlog == v.backlog,
{
}

/// The notice that moves up next is the oldest of its channel.
pub proof fn law_oldest_notice_is_first(b: Seq<(u32, Message)>, channel: u32, i: int)
    requires
        0 <= i < b.len(),
        b[i].0 == channel,
    ensures
        0 <= first_for(b, channel) <= i,
        b[first_for(b, channel)].0 == channel,
    decreases b.len(),
{
    if b[0].0 != channel {
        law_oldest_notice_is_first(b.drop_first(), channel, i - 1);
    }
}

} // verus!
