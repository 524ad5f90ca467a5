//! init: the one place where system policy lives. It starts every service with
//! exactly the handles that its table grants, and restarts supervised services
//! when the kernel reports that they have exited.
use vstd::prelude::*;

use crate::abi::tag;
use crate::abi::{
    Error, ExitReason, Grant, Handle, Message, Rights, TaskRef, RIGHT_RECV, RIGHT_SEND,
};
use crate::context::{SpawnError, MAX_TASKS};
use crate::handles::HandleTable;
use crate::kernel::Kernel;
use crate::spawn;
use crate::text;

verus! {

/// The channels that init creates.
pub const PING: usize = 0;

pub const PONG: usize = 1;

pub const SINK: usize = 2;

pub const PROBE: usize = 3;

pub const BUF: usize = 4;

pub const CHANNELS: usize = 5;

/// How many services the table has.
pub const SERVICES: usize = 19;

pub open spec fn service_name(i: int) -> Seq<char> {
    if i == 0 {
        "mcp"@
    } else if i == 1 {
        "kbd"@
    } else if i == 2 {
        "comp"@
    } else if i == 3 {
        "shell"@
    } else if i == 4 {
        "dash"@
    } else if i == 5 {
        "pong"@
    } else if i == 6 {
        "ping"@
    } else if i == 7 {
        "pulse"@
    } else if i == 8 {
        "fault"@
    } else if i == 9 {
        "probe-bad-kernel"@
    } else if i == 10 {
        "probe-bad-unmap"@
    } else if i == 11 {
        "probe-bad-code"@
    } else if i == 12 {
        "probe-bad-stack"@
    } else if i == 13 {
        "probe-abi"@
    } else if i == 14 {
        "probe-chan"@
    } else if i == 15 {
        "probe-dup-recv"@
    } else if i == 16 {
        "probe-badelf"@
    } else if i == 17 {
        "probe-buf-rx"@
    } else {
        "probe-buf-tx"@
    }
}

/// What a service runs: a task that is part of the kernel, or a file.
pub open spec fn service_binary(i: int) -> Seq<char> {
    if i == 0 {
        "builtin:mcp"@
    } else if i == 1 {
        "builtin:kbd"@
    } else if i == 2 {
        "builtin:comp"@
    } else if i == 3 {
        "builtin:shell"@
    } else if i == 4 {
        "builtin:dash"@
    } else if i == 5 {
        "PONG.ELF"@
    } else if i == 6 {
        "PING.ELF"@
    } else if i == 7 {
        "PULSE.ELF"@
    } else if i == 8 {
        "FAULT.ELF"@
    } else if i <= 13 {
        "PROBEBAD.ELF"@
    } else if i == 16 {
        "BADELF.ELF"@
    } else {
        "PROBECHA.ELF"@
    }
}

/// What a service is granted: rights on channels, in the order of its handles.
pub open spec fn service_grants(i: int) -> Seq<(usize, Rights)> {
    let (send, recv) = (Rights(RIGHT_SEND), Rights(RIGHT_RECV));
    if i == 5 {
        seq![(PING, recv), (PONG, send)]
    } else if i == 6 {
        seq![(PING, send), (PONG, recv)]
    } else if i == 14 {
        seq![(SINK, send), (PROBE, recv)]
    } else if i == 15 {
        seq![(PING, recv)]
    } else if i == 17 {
        seq![(BUF, recv)]
    } else if i == 18 {
        seq![(BUF, send)]
    } else {
        Seq::empty()
    }
}

pub open spec fn service_arg(i: int) -> u64 {
    if i == 9 {
        0x4000_0000
    } else if i == 10 {
        0x4_2000_0000
    } else if i == 12 || i == 17 {
        1
    } else if i == 13 || i == 18 {
        2
    } else {
        0
    }
}

/// After how many milliseconds a service that exits is restarted; none for one
/// that is not supervised.
pub open spec fn restart_after(i: int) -> Option<u64> {
    if i == 7 {
        Some(250)
    } else if i == 8 {
        Some(200)
    } else if i == 17 {
        Some(300)
    } else {
        None
    }
}

/// The service's file may be missing.
pub open spec fn is_optional(i: int) -> bool {
    i >= 9
}

pub fn name_at(i: usize) -> (r: &'static str)
    requires
        i < SERVICES,
    ensures
        r@ == service_name(i as int),
{
    match i {
        0 => "mcp",
        1 => "kbd",
        2 => "comp",
        3 => "shell",
        4 => "dash",
        5 => "pong",
        6 => "ping",
        7 => "pulse",
        8 => "fault",
        9 => "probe-bad-kernel",
        10 => "probe-bad-unmap",
        11 => "probe-bad-code",
        12 => "probe-bad-stack",
        13 => "probe-abi",
        14 => "probe-chan",
        15 => "probe-dup-recv",
        16 => "probe-badelf",
        17 => "probe-buf-rx",
        _ => "probe-buf-tx",
    }
}

pub fn binary_at(i: usize) -> (r: &'static str)
    requires
        i < SERVICES,
    ensures
        r@ == service_binary(i as int),
{
    match i {
        0 => "builtin:mcp",
        1 => "builtin:kbd",
        2 => "builtin:comp",
        3 => "builtin:shell",
        4 => "builtin:dash",
        5 => "PONG.ELF",
        6 => "PING.ELF",
        7 => "PULSE.ELF",
        8 => "FAULT.ELF",
        9 | 10 | 11 | 12 | 13 => "PROBEBAD.ELF",
        16 => "BADELF.ELF",
        _ => "PROBECHA.ELF",
    }
}

fn grants_at(i: usize) -> (r: Vec<(usize, Rights)>)
    ensures
        r@ == service_grants(i as int),
{
    let r: Vec<(usize, Rights)> = match i {
        5 => vec![(PING, Rights::recv()), (PONG, Rights::send())],
        6 => vec![(PING, Rights::send()), (PONG, Rights::recv())],
        14 => vec![(SINK, Rights::send()), (PROBE, Rights::recv())],
        15 => vec![(PING, Rights::recv())],
        17 => vec![(BUF, Rights::recv())],
        18 => vec![(BUF, Rights::send())],
        _ => Vec::new(),
    };
    assert(r@ =~= service_grants(i as int));
    r
}

pub fn arg_at(i: usize) -> (r: u64)
    ensures
        r == service_arg(i as int),
{
    match i {
        9 => 0x4000_0000,
        10 => 0x4_2000_0000,
        12 | 17 => 1,
        13 | 18 => 2,
        _ => 0,
    }
}

fn restart_at(i: usize) -> (r: Option<u64>)
    ensures
        r == restart_after(i as int),
{
    match i {
        7 => Some(250),
        8 => Some(200),
        17 => Some(300),
        _ => None,
    }
}

/// What init knows of one service.
#[derive(Clone, Copy, Debug, PartialEq, Eq, Structural)]
pub struct Runtime {
    /// The running instance, exactly: a task id alone may already belong to a
    /// newer task by the time its exit notice arrives.
    pub task: Option<TaskRef>,
    /// When it is to be restarted.
    pub restart_at: Option<u64>,
}

/// Nothing is started yet.
pub fn new_state() -> (s: Vec<Runtime>)
    ensures
        s@ == Seq::new(SERVICES as nat, |i: int| Runtime { task: None, restart_at: None }),
{
    let none: Runtime = Runtime { task: None, restart_at: None };
    let s: Vec<Runtime> = vec![none; SERVICES];
    assert(s@ =~= Seq::new(SERVICES as nat, |i: int| Runtime { task: None, restart_at: None }));
    s
}

/// The channels that `grants` name are all there, as far as the first `n` go;
/// otherwise the first one that is missing.
pub open spec fn missing(channels: Seq<Option<Handle>>, grants: Seq<(usize, Rights)>, n: int) -> Option<
    usize,
>
    decreases grants.len() - n,
{
    if n >= grants.len() {
        None
    } else if channels[grants[n].0 as int] is None {
        Some(grants[n].0)
    } else {
        missing(channels, grants, n + 1)
    }
}

/// The grants for a service, with the handles of the channels that they name,
/// or the first channel that is missing. A service whose channel is missing is
/// not started: a placeholder handle would name another channel.
pub fn service_request(i: usize, channels: &Vec<Option<Handle>>) -> (r: Result<Vec<Grant>, usize>)
    requires
        i < SERVICES,
        channels@.len() == CHANNELS,
    ensures
        ({
            let grants = service_grants(i as int);
            match r {
                Ok(g) => {
                    &&& missing(channels@, grants, 0) is None
                    &&& g@.len() == grants.len()
                    &&& forall|n: int|
                        0 <= n < grants.len() ==> #[trigger] g@[n].rights == grants[n].1
                            && Some(g@[n].handle) == channels@[grants[n].0 as int]
                },
                Err(c) => missing(channels@, grants, 0) == Some(c),
            }
        }),
{
    let grants: Vec<(usize, Rights)> = grants_at(i);
    let mut out: Vec<Grant> = Vec::new();
    let mut n: usize = 0;
    while n < grants.len()
        invariant
            n <= grants@.len(),
            i < SERVICES,
            grants@ == service_grants(i as int),
            channels@.len() == CHANNELS,
            missing(channels@, grants@, 0) == missing(channels@, grants@, n as int),
            out@.len() == n,
            forall|m: int|
                0 <= m < n ==> #[trigger] out@[m].rights == grants@[m].1 && Some(out@[m].handle)
                    == channels@[grants@[m].0 as int],
        decreases grants@.len() - n,
    {
        let (channel, rights): (usize, Rights) = grants[n];
        match channels[channel] {
            None => {
                return Err(channel);
            },
            Some(handle) => {
                out.push(Grant { handle, rights });
            },
        }
        n = n + 1;
    }
    Ok(out)
}

/// How often each slot was started: not yet at all.
pub fn no_starts() -> (starts: Vec<u32>)
    ensures
        starts@ == Seq::new(MAX_TASKS as nat, |i: int| 0u32),
{
    let starts: Vec<u32> = vec![0u32; MAX_TASKS];
    assert(starts@ =~= Seq::new(MAX_TASKS as nat, |i: int| 0u32));
    starts
}

/// `starts` with one more start of slot `id`.
pub open spec fn counted(starts: Seq<u32>, id: u16) -> Seq<u32> {
    starts.update(id as int, starts[id as int].wrapping_add(1))
}

/// A start that the kernel answered with slot `id`: the instance that runs
/// there now. Only init starts tasks once it runs, so the starts that it counts
/// are the slot's generations.
pub fn count_start(starts: &mut Vec<u32>, id: u16) -> (task: TaskRef)
    requires
        id < old(starts)@.len(),
    ensures
        final(starts)@ == counted(old(starts)@, id),
        task == (TaskRef { id, generation: final(starts)@[id as int] }),
{
    let n: u32 = starts[id as usize].wrapping_add(1);
    starts[id as usize] = n;
    assert(starts@ =~= counted(old(starts)@, id));
    TaskRef { id, generation: n }
}

/// Counted starts name the instance that the kernel started, and stay in step
/// with its generations.
pub proof fn law_counted_starts_name_the_instance(
    k0: Kernel,
    k1: Kernel,
    image: Seq<u8>,
    handles: HandleTable,
    arg0: u64,
    arg1: u64,
    entry: u64,
    r: Result<TaskRef, SpawnError>,
)
    requires
        spawn::user_task_started(k0, k1, image, handles, arg0, arg1, r)
            || spawn::kernel_task_started(k0, k1, entry, r),
    ensures
        match r {
            Ok(task) => {
                &&& k1.sched.generations@ == counted(k0.sched.generations@, task.id)
                &&& task.generation == k1.sched.generations@[task.id as int]
            },
            Err(_) => k1.sched.generations@ == k0.sched.generations@,
        },
{
}

/// What came of starting a service: the task, and whether a failure is worth a
/// line in the log. A file that may be missing is not.
pub fn spawn_result(i: usize, r: Result<TaskRef, Error>) -> (out: (Option<TaskRef>, bool))
    ensures
        out.0 == match r {
            Ok(task) => Some(task),
            Err(_) => None,
        },
        out.1 == match r {
            Ok(_) => false,
            Err(e) => !(e == Error::NotFound && is_optional(i as int)),
        },
{
    match r {
        Ok(task) => (Some(task), false),
        Err(Error::NotFound) => (None, i < 9),
        Err(_) => (None, true),
    }
}

/// The service at place `i` runs as `task`, or could not be started.
pub fn note_started(state: &mut Vec<Runtime>, i: usize, task: Option<TaskRef>)
    requires
        i < old(state)@.len(),
    ensures
        final(state)@ == old(state)@.update(
            i as int,
            (Runtime { task, ..old(state)@[i as int] }),
        ),
{
    state[i].task = task;
    assert(state@ =~= old(state)@.update(i as int, Runtime { task, ..old(state)@[i as int] }));
}

/// The earliest restart, among the first `n`; 0 where there is none.
pub open spec fn earliest(state: Seq<Runtime>, n: int) -> Option<u64>
    decreases n,
{
    if n <= 0 {
        None
    } else {
        match (state[n - 1].restart_at, earliest(state, n - 1)) {
            (None, e) => e,
            (Some(at), None) => Some(at),
            (Some(at), Some(e)) => Some(
                if at < e {
                    at
                } else {
                    e
                },
            ),
        }
    }
}

/// Until when init waits for a message: the earliest restart, or without end
/// (0).
pub fn deadline(state: &Vec<Runtime>) -> (r: u64)
    ensures
        r == match earliest(state@, state@.len() as int) {
            Some(at) => at,
            None => 0,
        },
{
    let mut best: Option<u64> = None;
    let mut i: usize = 0;
    while i < state.len()
        invariant
            i <= state@.len(),
            best == earliest(state@, i as int),
        decreases state@.len() - i,
    {
        if let Some(at) = state[i].restart_at {
            best = match best {
                None => Some(at),
                Some(e) => Some(if at < e {
                    at
                } else {
                    e
                }),
            };
        }
        i = i + 1;
    }
    match best {
        Some(at) => at,
        None => 0,
    }
}

pub open spec fn is_due(r: Runtime, now: u64) -> bool {
    r.restart_at matches Some(at) && now >= at
}

/// The services that are due, among the first `n`, in order.
pub open spec fn due(state: Seq<Runtime>, now: u64, n: int) -> Seq<usize>
    decreases n,
{
    if n <= 0 {
        Seq::empty()
    } else if is_due(state[n - 1], now) {
        due(state, now, n - 1).push((n - 1) as usize)
    } else {
        due(state, now, n - 1)
    }
}

/// Takes the services whose restart is due at `now`; they are then started, in
/// this order.
pub fn take_due(state: &mut Vec<Runtime>, now: u64) -> (r: Vec<usize>)
    ensures
        r@ == due(old(state)@, now, old(state)@.len() as int),
        final(state)@ == Seq::new(
            old(state)@.len(),
            |i: int|
                if is_due(old(state)@[i], now) {
                    Runtime { restart_at: None, ..old(state)@[i] }
                } else {
                    old(state)@[i]
                },
        ),
{
    let ghost s0 = state@;
    let mut r: Vec<usize> = Vec::new();
    let mut i: usize = 0;
    assert(r@ =~= due(s0, now, 0));
    while i < state.len()
        invariant
            i <= state@.len(),
            state@.len() == s0.len(),
            s0 == old(state)@,
            r@ == due(s0, now, i as int),
            forall|j: int|
                0 <= j < s0.len() ==> #[trigger] state@[j] == if j < i && is_due(s0[j], now) {
                    Runtime { restart_at: None, ..s0[j] }
                } else {
                    s0[j]
                },
        decreases state@.len() - i,
    {
        let at_hand: bool = match state[i].restart_at {
            Some(at) => now >= at,
            None => false,
        };
        if at_hand {
            state[i].restart_at = None;
            r.push(i);
        }
        i = i + 1;
    }
    assert(state@ =~= Seq::new(
        s0.len(),
        |j: int|
            if is_due(s0[j], now) {
                Runtime { restart_at: None, ..s0[j] }
            } else {
                s0[j]
            },
    ));
    r
}

/// What a message comes to.
#[derive(Clone, Copy, Debug, PartialEq, Eq, Structural)]
pub enum Action {
    Nothing,
    /// This service exited.
    Exited(usize, Option<ExitReason>),
    /// A restart of a service that the table does not have.
    Unknown,
    /// A restart of a service that is running.
    Running(usize),
    /// This service is to be started.
    Start(usize),
}

/// The place of the service that runs as `task`, from `from` on.
pub open spec fn running_as(state: Seq<Runtime>, task: TaskRef, from: int) -> Option<int>
    decreases state.len() - from,
{
    if from >= state.len() {
        None
    } else if state[from].task == Some(task) {
        Some(from)
    } else {
        running_as(state, task, from + 1)
    }
}

/// The place of the service of that name, from `from` on.
pub open spec fn named(name: Seq<char>, from: int) -> Option<int>
    decreases SERVICES - from,
{
    if from >= SERVICES {
        None
    } else if service_name(from) == name {
        Some(from)
    } else {
        named(name, from + 1)
    }
}

/// The task that an exit notice is about.
pub open spec fn exited_task(m: Message) -> TaskRef {
    TaskRef { id: m.payload[0] as u16, generation: m.payload[2] as u32 }
}

pub open spec fn reason_of(code: u64) -> Option<ExitReason> {
    if code == 1 {
        Some(ExitReason::Clean)
    } else if code == 2 {
        Some(ExitReason::Fault)
    } else if code == 3 {
        Some(ExitReason::Panic)
    } else {
        None
    }
}

/// What init does with an exit notice at `now`: only the kernel (sender 0)
/// reports exits; the service is down, and if it is supervised it is restarted
/// after its delay.
pub open spec fn after_exit(state: Seq<Runtime>, m: Message, now: u64) -> Seq<Runtime> {
    match running_as(state, exited_task(m), 0) {
        Some(i) if m.sender == 0 => state.update(
            i,
            Runtime {
                task: None,
                restart_at: match restart_after(i) {
                    Some(ms) => Some((now + ms * 1_000_000) as u64),
                    None => state[i].restart_at,
                },
            },
        ),
        _ => state,
    }
}

/// The bytes of the name that a message carries.
pub open spec fn name_bytes(m: Message) -> Seq<u8> {
    (crate::bytes::le_bytes(m.payload@[0] as int, 8) + crate::bytes::le_bytes(
        m.payload@[1] as int,
        8,
    )).subrange(0, crate::abi::name_cut(m.len as int))
}

/// The name that a restart request carries.
pub open spec fn requested_name(m: Message) -> Seq<char> {
    let bytes = name_bytes(m);
    if vstd::utf8::valid_utf8(bytes) {
        vstd::utf8::decode_utf8(bytes)
    } else {
        ""@
    }
}

fn find_running(state: &Vec<Runtime>, task: TaskRef) -> (r: Option<usize>)
    ensures
        match r {
            Some(i) => i < state@.len() && running_as(state@, task, 0) == Some(i as int),
            None => running_as(state@, task, 0) is None,
        },
{
    let mut i: usize = 0;
    while i < state.len()
        invariant
            i <= state@.len(),
            running_as(state@, task, 0) == running_as(state@, task, i as int),
        decreases state@.len() - i,
    {
        if let Some(t) = state[i].task {
            if t == task {
                return Some(i);
            }
        }
        i = i + 1;
    }
    None
}

fn find_named(name: &str) -> (r: Option<usize>)
    ensures
        match r {
            Some(i) => i < SERVICES && named(name@, 0) == Some(i as int),
            None => named(name@, 0) is None,
        },
{
    let mut i: usize = 0;
    while i < SERVICES
        invariant
            i <= SERVICES,
            named(name@, 0) == named(name@, i as int),
        decreases SERVICES - i,
    {
        if text::same_text(name_at(i), name) {
            return Some(i);
        }
        i = i + 1;
    }
    None
}

/// What a message comes to.
pub open spec fn action_of(state: Seq<Runtime>, m: Message) -> Action {
    if m.tag == tag::TASK_EXITED && m.sender == 0 {
        match running_as(state, exited_task(m), 0) {
            Some(i) => Action::Exited(i as usize, reason_of(m.payload[1])),
            None => Action::Nothing,
        }
    } else if m.tag == tag::RESTART_REQUEST {
        match named(requested_name(m), 0) {
            None => Action::Unknown,
            Some(i) => if state[i].task is Some {
                Action::Running(i as usize)
            } else {
                Action::Start(i as usize)
            },
        }
    } else {
        Action::Nothing
    }
}

/// What init knows after a message at `now`.
pub open spec fn after_message(state: Seq<Runtime>, m: Message, now: u64) -> Seq<Runtime> {
    match action_of(state, m) {
        Action::Exited(_, _) => after_exit(state, m, now),
        Action::Start(i) => state.update(
            i as int,
            Runtime { restart_at: None, ..state[i as int] },
        ),
        _ => state,
    }
}

/// Handles a message from init's inbox. A service that is to be started is
/// started now, so any scheduled restart of it is moot.
pub fn handle_message(state: &mut Vec<Runtime>, message: &Message, now: u64) -> (a: Action)
    requires
        old(state)@.len() == SERVICES,
        now + 1_000_000_000 <= u64::MAX,
    ensures
        a == action_of(old(state)@, *message),
        final(state)@ == after_message(old(state)@, *message, now),
{
    if message.tag == tag::TASK_EXITED && message.sender == 0 {
        let task: TaskRef = TaskRef {
            id: message.payload[0] as u16,
            generation: message.payload[2] as u32,
        };
        let i: usize = match find_running(state, task) {
            None => {
                return Action::Nothing;
            },
            Some(i) => i,
        };
        state[i].task = None;
        if let Some(ms) = restart_at(i) {
            state[i].restart_at = Some(now + ms * 1_000_000);
        }
        assert(state@ =~= after_exit(old(state)@, *message, now));
        let code: u64 = message.payload[1];
        let reason: Option<ExitReason> = ExitReason::from_u64(code);
        proof {
            if reason is None {
                assert(ExitReason::Clean.spec_code() != code);
                assert(ExitReason::Fault.spec_code() != code);
                assert(ExitReason::Panic.spec_code() != code);
            }
        }
        Action::Exited(i, reason)
    } else if message.tag == tag::RESTART_REQUEST {
        let (packed, n): (Vec<u8>, usize) = message.name();
        proof {
            crate::bytes::lemma_le_bytes_len(message.payload@[0] as int, 8);
            crate::bytes::lemma_le_bytes_len(message.payload@[1] as int, 8);
        }
        let bytes: &[u8] = vstd::slice::slice_subrange(packed.as_slice(), 0, n);
        assert(bytes@ == name_bytes(*message));
        let found: Option<usize> = match text::utf8_text(bytes) {
            Some(name) => {
                proof {
                    vstd::utf8::encode_utf8_decode_utf8(name@);
                    vstd::utf8::encode_utf8_valid_utf8(name@);
                }
                find_named(name)
            },
            None => find_named(""),
        };
        match found {
            None => Action::Unknown,
            Some(i) => {
                if state[i].task.is_some() {
                    return Action::Running(i);
                }
                state[i].restart_at = None;
                assert(state@ =~= after_message(old(state)@, *message, now));
                Action::Start(i)
            },
        }
    } else {
        Action::Nothing
    }
}

/// Only the kernel reports exits: a notice from any task changes nothing.
pub proof fn law_only_kernel_reports_exits(state: Seq<Runtime>, m: Message, now: u64)
    requires
        m.tag == tag::TASK_EXITED,
        m.sender != 0,
    ensures
        after_message(state, m, now) == state,
        action_of(state, m) == Action::Nothing,
{
}

/// An exit notice for an instance that no service runs as, such as an earlier
/// one in the same slot, changes nothing.
pub proof fn law_stale_exit_is_ignored(state: Seq<Runtime>, m: Message, now: u64)
    requires
        m.tag == tag::TASK_EXITED,
        forall|i: int| 0 <= i < state.len() ==> (#[trigger] state[i]).task != Some(exited_task(m)),
    ensures
        after_message(state, m, now) == state,
{
    lemma_not_running(state, exited_task(m), 0);
}

proof fn lemma_not_running(state: Seq<Runtime>, task: TaskRef, from: int)
    requires
        0 <= from,
        forall|i: int| 0 <= i < state.len() ==> (#[trigger] state[i]).task != Some(task),
    ensures
        running_as(state, task, from) is None,
    decreases state.len() - from,
{
    if from < state.len() {
        lemma_not_running(state, task, from + 1);
    }
}

/// A service that is not supervised is never restarted on its own: no exit
/// schedules a restart of it.
pub proof fn law_only_supervised_restart(state: Seq<Runtime>, m: Message, now: u64, i: int)
    requires
        0 <= i < state.len(),
        state[i].restart_at is None,
        restart_after(i) is None,
        state.len() == SERVICES,
    ensures
        after_message(state, m, now)[i].restart_at is None,
{
    lemma_running_in_range(state, exited_task(m), 0);
    lemma_named_in_range(requested_name(m), 0);
}

proof fn lemma_running_in_range(state: Seq<Runtime>, task: TaskRef, from: int)
    requires
        0 <= from,
    ensures
        running_as(state, task, from) matches Some(i) ==> from <= i < state.len(),
    decreases state.len() - from,
{
    if from < state.len() && state[from].task != Some(task) {
        lemma_running_in_range(state, task, from + 1);
    }
}

proof fn lemma_named_in_range(name: Seq<char>, from: int)
    requires
        0 <= from,
    ensures
        named(name, from) matches Some(i) ==> from <= i < SERVICES,
    decreases SERVICES - from,
{
    if from < SERVICES && service_name(from) != name {
        lemma_named_in_range(name, from + 1);
    }
}

proof fn lemma_found_running(state: Seq<Runtime>, task: TaskRef, from: int, i: int)
    requires
        0 <= from <= i < state.len(),
        state[i].task == Some(task),
        forall|j: int| 0 <= j < i ==> (#[trigger] state[j]).task != Some(task),
    ensures
        running_as(state, task, from) == Some(i),
    decreases i - from,
{
    if from < i {
        lemma_found_running(state, task, from + 1, i);
    }
}

/// A notice of the kernel that the running instance of a service has exited, for
/// whatever reason: the service is down, and nothing else changes but that a
/// supervised one is to be started again, 250 milliseconds after the exit of
/// pulse, 200 after that of fault and 300 after that of the buffering probe.
pub proof fn law_exit_is_handled(state: Seq<Runtime>, m: Message, now: u64, i: int)
    requires
        state.len() == 19,
        now + 1_000_000_000 <= u64::MAX,
        m.tag == 100,
        m.sender == 0,
        0 <= i < 19,
        state[i].task == Some(
            TaskRef { id: m.payload[0] as u16, generation: m.payload[2] as u32 },
        ),
        forall|j: int| 0 <= j < i ==> (#[trigger] state[j]).task != state[i].task,
    ensures
        ({
            let after = after_message(state, m, now);
            &&& after.len() == 19
            &&& after[i].task is None
            &&& i == 7 ==> after[i].restart_at == Some((now + 250_000_000) as u64)
            &&& i == 8 ==> after[i].restart_at == Some((now + 200_000_000) as u64)
            &&& i == 17 ==> after[i].restart_at == Some((now + 300_000_000) as u64)
            &&& i != 7 && i != 8 && i != 17 ==> after[i].restart_at == state[i].restart_at
            &&& forall|j: int| 0 <= j < 19 && j != i ==> #[trigger] after[j] == state[j]
        }),
        action_of(state, m) is Exited,
        action_of(state, m)->Exited_0 == i,
        m.payload[1] == 1 ==> action_of(state, m)->Exited_1 == Some(ExitReason::Clean),
        m.payload[1] == 2 ==> action_of(state, m)->Exited_1 == Some(ExitReason::Fault),
        m.payload[1] == 3 ==> action_of(state, m)->Exited_1 == Some(ExitReason::Panic),
        m.payload[1] == 0 || m.payload[1] > 3 ==> action_of(state, m)->Exited_1 is None,
{
    lemma_found_running(state, exited_task(m), 0, i);
}

/// What is supervised: pulse, fault and the buffering probe, by name.
pub proof fn law_supervised_services()
    ensures
        service_name(7) == "pulse"@,
        service_name(8) == "fault"@,
        service_name(17) == "probe-buf-rx"@,
        forall|i: int|
            0 <= i < 19 ==> (#[trigger] restart_after(i) is Some <==> i == 7 || i == 8 || i == 17),
{
}

/// The restarts that are taken at `now` are exactly those whose time has come,
/// each once and in the order of the table; they are not taken again.
pub proof fn law_due_restarts(state: Seq<Runtime>, now: u64, n: int)
    requires
        0 <= n <= state.len(),
        state.len() <= usize::MAX,
    ensures
        forall|i: int|
            0 <= i < n ==> (due(state, now, n).contains(i as usize) <==> ((
            #[trigger] state[i]).restart_at is Some && state[i].restart_at.unwrap() <= now)),
        forall|a: int|
            0 <= a < due(state, now, n).len() ==> (#[trigger] due(state, now, n)[a]) < n,
        forall|a: int, b: int|
            0 <= a < b < due(state, now, n).len() ==> #[trigger] due(state, now, n)[a]
                < #[trigger] due(state, now, n)[b],
    decreases n,
{
    if n > 0 {
        law_due_restarts(state, now, n - 1);
        let d0 = due(state, now, n - 1);
        let d = due(state, now, n);
        if is_due(state[n - 1], now) {
            assert(d == d0.push((n - 1) as usize));
            assert forall|i: int| 0 <= i < n implies (d.contains(i as usize) <==> ((
            #[trigger] state[i]).restart_at is Some && state[i].restart_at.unwrap() <= now)) by {
                if i < n - 1 {
                    if d.contains(i as usize) {
                        let a = choose|a: int| 0 <= a < d.len() && d[a] == i as usize;
                        assert(a < d0.len());
                        assert(d0[a] == i as usize);
                    }
                    if d0.contains(i as usize) {
                        let a = choose|a: int| 0 <= a < d0.len() && d0[a] == i as usize;
                        assert(d[a] == i as usize);
                    }
                } else {
                    assert(d[d.len() - 1] == i as usize);
                }
            }
        } else {
            assert(d == d0);
            assert(!d.contains((n - 1) as usize)) by {
                if d.contains((n - 1) as usize) {
                    let a = choose|a: int| 0 <= a < d.len() && d[a] == (n - 1) as usize;
                    assert(d0[a] < n - 1);
                }
            }
        }
    }
}

/// init waits until the first restart, and no longer.
pub proof fn law_deadline_is_the_first_restart(state: Seq<Runtime>, n: int)
    requires
        0 <= n <= state.len(),
    ensures
        match earliest(state, n) {
            None => forall|i: int| 0 <= i < n ==> (#[trigger] state[i]).restart_at is None,
            Some(at) => {
                &&& exists|i: int| 0 <= i < n && (#[trigger] state[i]).restart_at == Some(at)
                &&& forall|i: int|
                    0 <= i < n && (#[trigger] state[i]).restart_at is Some ==> at
                        <= state[i].restart_at.unwrap()
            },
        },
    decreases n,
{
    if n > 0 {
        law_deadline_is_the_first_restart(state, n - 1);
        assert(state[n - 1].restart_at == state[n - 1].restart_at);
    }
}

/// A restart that is due when init wakes at its deadline is taken: waiting until
/// the deadline and then taking what is due never leaves out the first restart.
pub proof fn law_supervised_service_comes_back(state: Seq<Runtime>, i: int)
    requires
        state.len() == 19,
        0 <= i < 19,
        state[i].restart_at is Some,
        forall|j: int|
            0 <= j < 19 && (#[trigger] state[j]).restart_at is Some ==> state[i].restart_at.unwrap()
                <= state[j].restart_at.unwrap(),
    ensures
        earliest(state, 19) == state[i].restart_at,
        due(state, state[i].restart_at.unwrap(), 19).contains(i as usize),
{
    law_deadline_is_the_first_restart(state, 19);
    law_due_restarts(state, state[i].restart_at.unwrap(), 19);
}

proof fn lemma_names_differ(i: int, j: int)
    requires
        0 <= i < j < 19,
    ensures
        service_name(i) != service_name(j),
{
    reveal_strlit("mcp");
    reveal_strlit("kbd");
    reveal_strlit("comp");
    reveal_strlit("shell");
    reveal_strlit("dash");
    reveal_strlit("pong");
    reveal_strlit("ping");
    reveal_strlit("pulse");
    reveal_strlit("fault");
    reveal_strlit("probe-bad-kernel");
    reveal_strlit("probe-bad-unmap");
    reveal_strlit("probe-bad-code");
    reveal_strlit("probe-bad-stack");
    reveal_strlit("probe-abi");
    reveal_strlit("probe-chan");
    reveal_strlit("probe-dup-recv");
    reveal_strlit("probe-badelf");
    reveal_strlit("probe-buf-rx");
    reveal_strlit("probe-buf-tx");
    let (a, b) = (service_name(i), service_name(j));
    if a == b {
        assert(a[0] == b[0] && a[1] == b[1] && a.len() == b.len());
        assert(a[2] == b[2] && a[a.len() - 1] == b[b.len() - 1]);
        if a.len() >= 11 {
            assert(a[6] == b[6] && a[10] == b[10]);
        }
        if a.len() >= 9 {
            assert(a[7] == b[7]);
        }
    }
}

proof fn lemma_named(from: int, i: int)
    requires
        0 <= from <= i < 19,
    ensures
        named(service_name(i), from) == Some(i),
    decreases i - from,
{
    if from < i {
        lemma_names_differ(from, i);
        lemma_named(from + 1, i);
    }
}

/// A request to restart a service of the table: one that is down is started now,
/// whatever was scheduled, and one that is running is left alone.
pub proof fn law_restart_requests(state: Seq<Runtime>, m: Message, now: u64, i: int)
    requires
        state.len() == 19,
        0 <= i < 19,
        m.tag == 101,
        requested_name(m) == service_name(i),
    ensures
        state[i].task is None ==> {
            &&& action_of(state, m) == Action::Start(i as usize)
            &&& after_message(state, m, now)[i].restart_at is None
            &&& after_message(state, m, now)[i].task is None
        },
        state[i].task is Some ==> action_of(state, m) == Action::Running(i as usize)
            && after_message(state, m, now) == state,
        forall|j: int| 0 <= j < 19 && j != i ==> #[trigger] after_message(state, m, now)[j] == state[j],
{
    lemma_named(0, i);
}

/// A request for a name that the table does not have changes nothing.
pub proof fn law_unknown_service(state: Seq<Runtime>, m: Message, now: u64)
    requires
        m.tag == 101,
        forall|i: int| 0 <= i < 19 ==> requested_name(m) != #[trigger] service_name(i),
    ensures
        action_of(state, m) == Action::Unknown,
        after_message(state, m, now) == state,
{
    lemma_unnamed(requested_name(m), 0);
}

proof fn lemma_unnamed(name: Seq<char>, from: int)
    requires
        0 <= from,
        forall|i: int| 0 <= i < 19 ==> name != #[trigger] service_name(i),
    ensures
        named(name, from) is None,
    decreases 19 - from,
{
    if from < 19 {
        lemma_unnamed(name, from + 1);
    }
}

/// The table: each built-in runs under its own name; ping and pong are each
/// other's sender and receiver; a file that may be missing is only that of a
/// probe; and no two services but the probe for just that receive on one channel.
pub proof fn law_table(i: int)
    requires
        0 <= i < 19,
    ensures
        i < 5 ==> service_binary(i) == "builtin:"@ + service_name(i) && service_grants(i).len()
            == 0,
        i == 5 ==> service_name(i) == "pong"@ && service_binary(i) == "PONG.ELF"@,
        i == 6 ==> service_name(i) == "ping"@ && service_binary(i) == "PING.ELF"@,
        i == 7 ==> service_name(i) == "pulse"@ && service_binary(i) == "PULSE.ELF"@,
        i == 8 ==> service_name(i) == "fault"@ && service_binary(i) == "FAULT.ELF"@,
        is_optional(i) <==> i >= 9,
        i >= 9 ==> service_name(i).take(6) == "probe-"@,
        service_grants(5).len() == 2 && service_grants(6).len() == 2,
        service_grants(5)[0].0 == service_grants(6)[0].0,
        service_grants(5)[1].0 == service_grants(6)[1].0,
        service_grants(5)[0].0 != service_grants(5)[1].0,
        service_grants(5)[0].1 == Rights(2) && service_grants(5)[1].1 == Rights(1),
        service_grants(6)[0].1 == Rights(1) && service_grants(6)[1].1 == Rights(2),
        service_grants(17)[0].0 == service_grants(18)[0].0,
        service_grants(17)[0].1 == Rights(2) && service_grants(18)[0].1 == Rights(1),
        forall|j: int, a: int, b: int|
            0 <= j < i && j != 15 && i != 15 && 0 <= a < service_grants(i).len() && 0 <= b
                < service_grants(j).len() && #[trigger] service_grants(i)[a].1 == Rights(2)
                && #[trigger] service_grants(j)[b].1 == Rights(2) ==> service_grants(i)[a].0
                != service_grants(j)[b].0,
{
    reveal_strlit("builtin:");
    reveal_strlit("builtin:mcp");
    reveal_strlit("builtin:kbd");
    reveal_strlit("builtin:comp");
    reveal_strlit("builtin:shell");
    reveal_strlit("builtin:dash");
    reveal_strlit("mcp");
    reveal_strlit("kbd");
    reveal_strlit("comp");
    reveal_strlit("shell");
    reveal_strlit("dash");
    reveal_strlit("probe-");
    reveal_strlit("probe-bad-kernel");
    reveal_strlit("probe-bad-unmap");
    reveal_strlit("probe-bad-code");
    reveal_strlit("probe-bad-stack");
    reveal_strlit("probe-abi");
    reveal_strlit("probe-chan");
    reveal_strlit("probe-dup-recv");
    reveal_strlit("probe-badelf");
    reveal_strlit("probe-buf-rx");
    reveal_strlit("probe-buf-tx");
    if i < 5 {
        assert(service_binary(i) =~= "builtin:"@ + service_name(i));
    }
    if i >= 9 {
        assert(service_name(i).take(6) =~= "probe-"@);
    }
}

/// A service is started with exactly what its table grants: a handle for each
/// grant, in order, to the channel that it names and with the rights that it
/// gives; and not at all where one of these channels is missing.
pub proof fn law_missing_channel(channels: Seq<Option<Handle>>, grants: Seq<(usize, Rights)>, n: int)
    requires
        0 <= n <= grants.len(),
    ensures
        match missing(channels, grants, n) {
            None => forall|a: int|
                n <= a < grants.len() ==> channels[(#[trigger] grants[a]).0 as int] is Some,
            Some(c) => exists|a: int|
                n <= a < grants.len() && (#[trigger] grants[a]).0 == c && channels[c as int] is None
                    && forall|e: int|
                    n <= e < a ==> channels[(#[trigger] grants[e]).0 as int] is Some,
        },
    decreases grants.len() - n,
{
    if n < grants.len() {
        if channels[grants[n].0 as int] is None {
            assert(grants[n].0 == grants[n].0);
        } else {
            law_missing_channel(channels, grants, n + 1);
            if let Some(c) = missing(channels, grants, n + 1) {
                let a = choose|a: int|
                    n + 1 <= a < grants.len() && (#[trigger] grants[a]).0 == c
                        && channels[c as int] is None && forall|e: int|
                        n + 1 <= e < a ==> channels[(#[trigger] grants[e]).0 as int] is Some;
                assert(grants[a].0 == c);
                assert forall|e: int| n <= e < a implies channels[(
                #[trigger] grants[e]).0 as int] is Some by {}
            }
        }
    }
}

/// The name in a request is the one that was packed into it, if it has at most 16
/// bytes.
pub proof fn law_request_carries_its_name(m: Message, name: Seq<char>)
    requires
        vstd::utf8::encode_utf8(name).len() <= 16,
        m.len == vstd::utf8::encode_utf8(name).len(),
        m.payload@[0] == crate::bytes::le(
            crate::abi::packed_name(vstd::utf8::encode_utf8(name)),
            0,
            8,
        ),
        m.payload@[1] == crate::bytes::le(
            crate::abi::packed_name(vstd::utf8::encode_utf8(name)),
            8,
            8,
        ),
    ensures
        requested_name(m) == name,
{
    let b = vstd::utf8::encode_utf8(name);
    crate::abi::law_name_round_trip(b, m.payload@[0], m.payload@[1]);
    assert(b.subrange(0, crate::abi::name_cut(b.len() as int)) =~= b);
    vstd::utf8::encode_utf8_valid_utf8(name);
    vstd::utf8::encode_utf8_decode_utf8(name);
}

/// What each service is told: only the probes are told anything, each what it is to
/// touch.
pub proof fn law_arguments(i: int)
    ensures
        i == 9 ==> service_arg(i) == 0x4000_0000,
        i == 10 ==> service_arg(i) == 0x4_2000_0000,
        i == 12 || i == 17 ==> service_arg(i) == 1,
        i == 13 || i == 18 ==> service_arg(i) == 2,
        i < 9 || i == 11 || (13 < i && i < 17) || i > 18 ==> service_arg(i) == 0,
{
}

} // verus!
