//! The services that the kernel itself can start, and what became of them.
use vstd::prelude::*;

use crate::abi::{ExitReason, Rights, TaskRef, MAX_HANDLES, RIGHT_RECV, RIGHT_SEND};
use crate::boot_images;
use crate::context::{SpawnError, State, MAX_TASKS};
use crate::handles::{HandleTable, Slot};
use crate::ipc;
use crate::kernel::Kernel;
use crate::spawn;
use crate::syscalls;
use crate::syscalls::Programs;
use crate::task_names;
use crate::task_names::TaskNames;
use crate::text;

verus! {

pub const SERVICE_KBD: u64 = 1;

pub const SERVICE_COMP: u64 = 2;

pub const SERVICE_SHELL: u64 = 3;

pub const SERVICE_DASH: u64 = 4;

pub const SERVICE_PING: u64 = 5;

pub const SERVICE_PONG: u64 = 6;

pub const SERVICE_PULSE: u64 = 7;

pub const SERVICE_FAULT: u64 = 8;

pub const SERVICE_MCP: u64 = 9;

pub const SERVICE_PROBE_BAD_KERNEL: u64 = 10;

pub const SERVICE_PROBE_BAD_UNMAPPED: u64 = 11;

pub const SERVICE_PROBE_BAD_CODE: u64 = 12;

pub const SERVICE_PROBE_BAD_STACK: u64 = 13;

pub const SERVICE_PROBE_ABI: u64 = 14;

pub const SERVICE_PROBE_CHAN: u64 = 15;

pub const SERVICE_FLAG_AUTOSTART: u64 = 1;

pub const SERVICE_FLAG_SUPERVISED: u64 = 2;

pub const SERVICE_STATE_RUNNING: u64 = 1;

pub const SERVICE_EXIT_NONE: u64 = 0;

pub const SERVICE_EXIT_CLEAN: u64 = 1;

pub const SERVICE_EXIT_FAULT: u64 = 2;

pub const SERVICE_COUNT: usize = 15;

pub const SERVICE_NAME_BYTES: usize = 16;

/// A service as it is described to init.
#[derive(Clone, Copy, Debug)]
pub struct ServiceInfo {
    pub id: u64,
    pub flags: u64,
    pub restart_period_ticks: u64,
    pub name: [u8; 16],
}

#[derive(Clone, Copy, Debug, PartialEq, Eq, Structural)]
pub struct ServiceStatus {
    pub task_id: u64,
    pub restart_count: u64,
    pub exit_count: u64,
    pub last_exit_reason: u64,
    pub state: u64,
}

#[derive(Clone, Copy, Debug)]
pub struct ServiceRecord {
    pub id: u64,
    pub name: &'static str,
    pub flags: u64,
    pub restart_period_ticks: u64,
}

/// The name of the service at place `i` of the table, whose id is `i + 1`.
pub open spec fn service_name(i: int) -> Seq<char> {
    if i == 0 {
        "kbd"@
    } else if i == 1 {
        "comp"@
    } else if i == 2 {
        "shell"@
    } else if i == 3 {
        "dash"@
    } else if i == 4 {
        "ping"@
    } else if i == 5 {
        "pong"@
    } else if i == 6 {
        "pulse"@
    } else if i == 7 {
        "fault"@
    } else if i == 8 {
        "mcp"@
    } else if i == 9 {
        "probe-bad-kernel"@
    } else if i == 10 {
        "probe-bad-unmapped"@
    } else if i == 11 {
        "probe-bad-code"@
    } else if i == 12 {
        "probe-bad-stack"@
    } else if i == 13 {
        "probe-abi"@
    } else {
        "probe-chan"@
    }
}

/// pulse and fault are restarted when they exit.
pub open spec fn service_flags(i: int) -> u64 {
    if i == 6 || i == 7 {
        (SERVICE_FLAG_AUTOSTART + SERVICE_FLAG_SUPERVISED) as u64
    } else {
        SERVICE_FLAG_AUTOSTART
    }
}

pub open spec fn service_period(i: int) -> u64 {
    if i == 6 {
        250
    } else if i == 7 {
        200
    } else {
        0
    }
}

/// The record describes the service at place `i`.
pub open spec fn is_record(r: ServiceRecord, i: int) -> bool {
    &&& r.id == i + 1
    &&& r.name@ == service_name(i)
    &&& r.flags == service_flags(i)
    &&& r.restart_period_ticks == service_period(i)
}

/// The place of the service `id`.
pub open spec fn place_of(id: u64) -> Option<int> {
    if 1 <= id <= SERVICE_COUNT {
        Some(id - 1)
    } else {
        None
    }
}

/// The place, from `from` on, of the first service of that name.
pub open spec fn place_named(name: Seq<char>, from: int) -> Option<int>
    decreases SERVICE_COUNT - from,
{
    if from >= SERVICE_COUNT {
        None
    } else if service_name(from) == name {
        Some(from)
    } else {
        place_named(name, from + 1)
    }
}

pub fn service_count() -> (n: usize)
    ensures
        n == SERVICE_COUNT,
{
    SERVICE_COUNT
}

fn name_at(index: usize) -> (name: &'static str)
    ensures
        name@ == service_name(index as int),
{
    match index {
        0 => "kbd",
        1 => "comp",
        2 => "shell",
        3 => "dash",
        4 => "ping",
        5 => "pong",
        6 => "pulse",
        7 => "fault",
        8 => "mcp",
        9 => "probe-bad-kernel",
        10 => "probe-bad-unmapped",
        11 => "probe-bad-code",
        12 => "probe-bad-stack",
        13 => "probe-abi",
        _ => "probe-chan",
    }
}

fn record_at(index: usize) -> (r: ServiceRecord)
    requires
        index < SERVICE_COUNT,
    ensures
        is_record(r, index as int),
{
    let supervised: bool = index == 6 || index == 7;
    ServiceRecord {
        id: index as u64 + 1,
        name: name_at(index),
        flags: if supervised {
            SERVICE_FLAG_AUTOSTART + SERVICE_FLAG_SUPERVISED
        } else {
            SERVICE_FLAG_AUTOSTART
        },
        restart_period_ticks: match index {
            6 => 250,
            7 => 200,
            _ => 0,
        },
    }
}

pub fn service_record(index: usize) -> (r: Option<ServiceRecord>)
    ensures
        match r {
            Some(s) => index < SERVICE_COUNT && is_record(s, index as int),
            None => index >= SERVICE_COUNT,
        },
{
    if index < SERVICE_COUNT {
        Some(record_at(index))
    } else {
        None
    }
}

/// The first service of that name.
pub fn find_service(name: &Vec<char>) -> (r: Option<ServiceRecord>)
    ensures
        match r {
            Some(s) => place_named(name@, 0) is Some && is_record(s, place_named(name@, 0).unwrap()),
            None => place_named(name@, 0) is None,
        },
{
    let mut i: usize = 0;
    while i < SERVICE_COUNT
        invariant
            i <= SERVICE_COUNT,
            place_named(name@, 0) == place_named(name@, i as int),
        decreases SERVICE_COUNT - i,
    {
        if text::is_text(name_at(i), name) {
            return Some(record_at(i));
        }
        i = i + 1;
    }
    None
}

/// A name as a field of fixed size: cut, or filled up with zeros.
pub open spec fn name_field(name: Seq<u8>) -> Seq<u8> {
    Seq::new(
        SERVICE_NAME_BYTES as nat,
        |i: int|
            if i < name.len() {
                name[i]
            } else {
                0u8
            },
    )
}

fn fill_service_name(name: &str) -> (r: [u8; 16])
    ensures
        r@ == name_field(text::one_byte_each(name@)),
{
    let bytes: Vec<u8> = text::ascii_bytes(name);
    let mut out: [u8; 16] = [0; 16];
    let mut i: usize = 0;
    while i < SERVICE_NAME_BYTES && i < bytes.len()
        invariant
            i <= SERVICE_NAME_BYTES,
            i <= bytes@.len(),
            out@.len() == 16,
            forall|j: int|
                0 <= j < 16 ==> #[trigger] out@[j] == if j < i {
                    bytes@[j]
                } else {
                    0
                },
        decreases SERVICE_NAME_BYTES - i,
    {
        out[i] = bytes[i];
        i = i + 1;
    }
    assert(out@ =~= name_field(bytes@));
    out
}

/// How the service at `index` is described to init.
pub fn service_info(index: usize) -> (r: Option<ServiceInfo>)
    ensures
        match r {
            Some(s) => {
                &&& index < SERVICE_COUNT
                &&& s.id == index + 1
                &&& s.flags == service_flags(index as int)
                &&& s.restart_period_ticks == service_period(index as int)
                &&& s.name@ == name_field(text::one_byte_each(service_name(index as int)))
            },
            None => index >= SERVICE_COUNT,
        },
{
    if index >= SERVICE_COUNT {
        return None;
    }
    let r: ServiceRecord = record_at(index);
    Some(
        ServiceInfo {
            id: r.id,
            flags: r.flags,
            restart_period_ticks: r.restart_period_ticks,
            name: fill_service_name(r.name),
        },
    )
}

pub open spec fn reason_name(reason: u64) -> Seq<char> {
    if reason == ExitReason::Clean.spec_code() {
        "clean"@
    } else if reason == ExitReason::Fault.spec_code() {
        "fault"@
    } else if reason == ExitReason::Panic.spec_code() {
        "panic"@
    } else {
        "unknown"@
    }
}

pub fn exit_reason_name(reason: u64) -> (name: &'static str)
    ensures
        name@ == reason_name(reason),
{
    match ExitReason::from_u64(reason) {
        Some(r) => r.as_str(),
        None => {
            assert(ExitReason::Clean.spec_code() != reason);
            assert(ExitReason::Fault.spec_code() != reason);
            assert(ExitReason::Panic.spec_code() != reason);
            "unknown"
        },
    }
}

/// init's log call.
pub fn init_log(console: &mut Vec<char>, bytes: &[u8])
    ensures
        final(console)@ == old(console)@ + text::logged("[init]"@, bytes@),
{
    text::push_log(console, "[init]", bytes);
}

pub struct ServicesView {
    pub started: Seq<bool>,
    pub tasks: Seq<u64>,
    pub restarts: Seq<u64>,
    pub exits: Seq<u64>,
    pub last_exits: Seq<u64>,
    /// The id of the service that each task runs, or 0.
    pub task_services: Seq<u64>,
}

impl ServicesView {
    pub open spec fn none() -> ServicesView {
        ServicesView {
            started: Seq::new(SERVICE_COUNT as nat, |i: int| false),
            tasks: Seq::new(SERVICE_COUNT as nat, |i: int| 0u64),
            restarts: Seq::new(SERVICE_COUNT as nat, |i: int| 0u64),
            exits: Seq::new(SERVICE_COUNT as nat, |i: int| 0u64),
            last_exits: Seq::new(SERVICE_COUNT as nat, |i: int| SERVICE_EXIT_NONE),
            task_services: Seq::new(MAX_TASKS as nat, |i: int| 0u64),
        }
    }

    /// The service at place `i` runs as `task`. That is a restart if it exited
    /// before.
    pub open spec fn running_as(self, i: int, task: usize) -> ServicesView {
        ServicesView {
            started: self.started.update(i, true),
            tasks: self.tasks.update(i, task as u64),
            restarts: if self.last_exits[i] != SERVICE_EXIT_NONE {
                self.restarts.update(i, self.restarts[i].wrapping_add(1))
            } else {
                self.restarts
            },
            task_services: if task < MAX_TASKS {
                self.task_services.update(task as int, (i + 1) as u64)
            } else {
                self.task_services
            },
            ..self
        }
    }

    /// `task` exited. If it ran a service, that service is down.
    pub open spec fn task_gone(self, task: usize, reason: u64) -> ServicesView {
        if task >= MAX_TASKS || place_of(self.task_services[task as int]) is None {
            ServicesView {
                task_services: if task < MAX_TASKS {
                    self.task_services.update(task as int, 0)
                } else {
                    self.task_services
                },
                ..self
            }
        } else {
            let i = place_of(self.task_services[task as int]).unwrap();
            ServicesView {
                started: self.started.update(i, false),
                tasks: self.tasks.update(i, 0),
                restarts: self.restarts,
                exits: self.exits.update(i, self.exits[i].wrapping_add(1)),
                last_exits: self.last_exits.update(i, reason),
                task_services: self.task_services.update(task as int, 0),
            }
        }
    }

    pub open spec fn status(self, id: u64) -> Option<ServiceStatus> {
        match place_of(id) {
            None => None,
            Some(i) => Some(
                ServiceStatus {
                    task_id: self.tasks[i],
                    restart_count: self.restarts[i],
                    exit_count: self.exits[i],
                    last_exit_reason: self.last_exits[i],
                    state: if self.started[i] {
                        SERVICE_STATE_RUNNING
                    } else {
                        0
                    },
                },
            ),
        }
    }
}

/// What is known of every service.
pub struct Services {
    started: Vec<bool>,
    tasks: Vec<u64>,
    restarts: Vec<u64>,
    exits: Vec<u64>,
    last_exits: Vec<u64>,
    task_services: Vec<u64>,
}

impl View for Services {
    type V = ServicesView;

    closed spec fn view(&self) -> ServicesView {
        ServicesView {
            started: self.started@,
            tasks: self.tasks@,
            restarts: self.restarts@,
            exits: self.exits@,
            last_exits: self.last_exits@,
            task_services: self.task_services@,
        }
    }
}

impl Services {
    pub open spec fn wf(&self) -> bool {
        &&& self@.started.len() == SERVICE_COUNT
        &&& self@.tasks.len() == SERVICE_COUNT
        &&& self@.restarts.len() == SERVICE_COUNT
        &&& self@.exits.len() == SERVICE_COUNT
        &&& self@.last_exits.len() == SERVICE_COUNT
        &&& self@.task_services.len() == MAX_TASKS
        &&& forall|i: int| 0 <= i < SERVICE_COUNT ==> #[trigger] self@.tasks[i] <= u16::MAX
    }

    /// No service was started yet.
    pub fn new() -> (s: Services)
        ensures
            s.wf(),
            s@ == ServicesView::none(),
    {
        let s = Services {
            started: vec![false; SERVICE_COUNT],
            tasks: vec![0; SERVICE_COUNT],
            restarts: vec![0; SERVICE_COUNT],
            exits: vec![0; SERVICE_COUNT],
            last_exits: vec![0; SERVICE_COUNT],
            task_services: vec![0; MAX_TASKS],
        };
        proof {
            let n = ServicesView::none();
            assert(s@.started =~= n.started);
            assert(s@.tasks =~= n.tasks);
            assert(s@.restarts =~= n.restarts);
            assert(s@.exits =~= n.exits);
            assert(s@.last_exits =~= n.last_exits);
            assert(s@.task_services =~= n.task_services);
        }
        s
    }
}

pub fn service_status(s: &Services, service_id: u64) -> (r: Option<ServiceStatus>)
    requires
        s.wf(),
    ensures
        r == s@.status(service_id),
{
    if service_id < 1 || service_id > SERVICE_COUNT as u64 {
        return None;
    }
    let i: usize = (service_id - 1) as usize;
    Some(
        ServiceStatus {
            task_id: s.tasks[i],
            restart_count: s.restarts[i],
            exit_count: s.exits[i],
            last_exit_reason: s.last_exits[i],
            state: if s.started[i] {
                SERVICE_STATE_RUNNING
            } else {
                0
            },
        },
    )
}

/// The line for a service that exited.
pub open spec fn exit_line(i: int, task_id: usize, reason: u64) -> Seq<char> {
    "[init] service "@ + service_name(i) + " exited (task "@ + text::decimal(task_id as nat)
        + ", reason="@ + reason_name(reason) + ")\n"@
}

fn log_exit(out: &mut Vec<char>, i: usize, task_id: usize, reason: u64)
    requires
        i < SERVICE_COUNT,
    ensures
        final(out)@ == old(out)@ + exit_line(i as int, task_id, reason),
{
    text::push_str(out, "[init] service ");
    if let Some(service) = service_record(i) {
        text::push_str(out, service.name);
    }
    text::push_str(out, " exited (task ");
    text::push_u64(out, task_id as u64);
    text::push_str(out, ", reason=");
    text::push_str(out, exit_reason_name(reason));
    text::push_str(out, ")\n");
    assert(out@ =~= old(out)@ + exit_line(i as int, task_id, reason));
}

/// A task exited: if it ran a service, the service is down, and the console says
/// so. Returns the place of that service.
pub fn task_exited(s: &mut Services, task_id: usize, reason: u64, console: &mut Vec<char>) -> (r:
    Option<usize>)
    requires
        old(s).wf(),
    ensures
        final(s).wf(),
        final(s)@ == old(s)@.task_gone(task_id, reason),
        match r {
            Some(i) => task_id < MAX_TASKS && place_of(old(s)@.task_services[task_id as int])
                == Some(i as int),
            None => task_id >= MAX_TASKS || place_of(old(s)@.task_services[task_id as int]) is None,
        },
        final(console)@ == match r {
            Some(i) => old(console)@ + exit_line(i as int, task_id, reason),
            None => old(console)@,
        },
{
    if task_id >= MAX_TASKS {
        return None;
    }
    let service_id: u64 = s.task_services[task_id];
    s.task_services[task_id] = 0;
    if service_id < 1 || service_id > SERVICE_COUNT as u64 {
        return None;
    }
    let i: usize = (service_id - 1) as usize;
    s.tasks[i] = 0;
    s.exits[i] = s.exits[i].wrapping_add(1);
    s.last_exits[i] = reason;
    s.started[i] = false;
    log_exit(console, i, task_id, reason);
    Some(i)
}

/// What the service at place `i` runs: a file of the boot volume, or, where
/// there is none, a task that is part of the kernel.
pub open spec fn service_file(i: int) -> Option<Seq<char>> {
    if i < 4 || i == 8 {
        None
    } else if i == 4 {
        Some("PING.ELF"@)
    } else if i == 5 {
        Some("PONG.ELF"@)
    } else if i == 6 {
        Some("PULSE.ELF"@)
    } else if i == 7 {
        Some("FAULT.ELF"@)
    } else if i < 14 {
        Some("PROBEBAD.ELF"@)
    } else {
        Some("PROBECHA.ELF"@)
    }
}

/// What the service is granted. ping sends on channel 2 and receives on
/// channel 3, pong the reverse; the channel probe sends on channel 4, which
/// nobody receives on, and receives on channel 5.
pub open spec fn service_grants(i: int) -> Seq<Slot> {
    if i == 4 {
        seq![
            Slot { channel: 2, rights: Rights(RIGHT_SEND) },
            Slot { channel: 3, rights: Rights(RIGHT_RECV) },
        ]
    } else if i == 5 {
        seq![
            Slot { channel: 2, rights: Rights(RIGHT_RECV) },
            Slot { channel: 3, rights: Rights(RIGHT_SEND) },
        ]
    } else if i == 14 {
        seq![
            Slot { channel: 4, rights: Rights(RIGHT_SEND) },
            Slot { channel: 5, rights: Rights(RIGHT_RECV) },
        ]
    } else {
        Seq::empty()
    }
}

/// The argument that tells a probe which access to try.
pub open spec fn service_arg(i: int) -> u64 {
    if i == 9 {
        0x4000_0000
    } else if i == 10 {
        0x4_2000_0000
    } else if i == 12 {
        1
    } else if i == 13 {
        2
    } else {
        0
    }
}

/// The channel whose receiver the service becomes.
pub open spec fn service_receives(i: int) -> Option<u32> {
    if i == 4 {
        Some(3)
    } else if i == 5 {
        Some(2)
    } else if i == 14 {
        Some(5)
    } else {
        None
    }
}

/// A handle table with these slots, in order, as its first handles.
pub open spec fn table_of(slots: Seq<Slot>) -> Seq<Option<Slot>> {
    Seq::new(
        MAX_HANDLES as nat,
        |i: int|
            if i < slots.len() {
                Some(slots[i])
            } else {
                None
            },
    )
}

fn grants(slots: &Vec<Slot>) -> (t: HandleTable)
    requires
        slots@.len() <= MAX_HANDLES,
    ensures
        t.wf(),
        t@ == table_of(slots@),
{
    let mut t: HandleTable = HandleTable::empty();
    let mut i: usize = 0;
    assert(t@ =~= table_of(slots@.take(0)));
    while i < slots.len()
        invariant
            i <= slots@.len() <= MAX_HANDLES,
            t.wf(),
            t@ == table_of(slots@.take(i as int)),
        decreases slots@.len() - i,
    {
        let ghost before = t@;
        let r = t.insert(slots[i]);
        proof {
            assert(before[i as int] is None);
            assert(r is Ok);
            assert(r->Ok_0.0 == i);
            assert(t@ =~= table_of(slots@.take(i + 1)));
        }
        i = i + 1;
    }
    assert(slots@.take(slots@.len() as int) =~= slots@);
    t
}

fn slots_at(i: usize) -> (r: Vec<Slot>)
    ensures
        r@ == service_grants(i as int),
{
    let r: Vec<Slot> = match i {
        4 => vec![
            Slot { channel: 2, rights: Rights::send() },
            Slot { channel: 3, rights: Rights::recv() },
        ],
        5 => vec![
            Slot { channel: 2, rights: Rights::recv() },
            Slot { channel: 3, rights: Rights::send() },
        ],
        14 => vec![
            Slot { channel: 4, rights: Rights::send() },
            Slot { channel: 5, rights: Rights::recv() },
        ],
        _ => Vec::new(),
    };
    assert(r@ =~= service_grants(i as int));
    r
}

fn file_at(i: usize) -> (r: Option<&'static str>)
    ensures
        match r {
            Some(s) => service_file(i as int) == Some(s@),
            None => service_file(i as int) is None,
        },
{
    match i {
        0 | 1 | 2 | 3 | 8 => None,
        4 => Some("PING.ELF"),
        5 => Some("PONG.ELF"),
        6 => Some("PULSE.ELF"),
        7 => Some("FAULT.ELF"),
        9 | 10 | 11 | 12 | 13 => Some("PROBEBAD.ELF"),
        _ => Some("PROBECHA.ELF"),
    }
}

/// `k1` is `k0` with `task` as the receiver of `channel`, if there is one.
pub open spec fn receiving(k0: Kernel, k1: Kernel, channel: Option<u32>, task: usize) -> bool {
    &&& k1.same_tables(k0)
    &&& k1.mem == k0.mem
    &&& k1.sched == k0.sched
    &&& k1.metrics == k0.metrics
    &&& k1.ipc@ == match channel {
        Some(c) => k0.ipc@.received_by(c, task, None),
        None => k0.ipc@,
    }
}

/// The image of the service is started with what it is granted.
pub open spec fn image_launched(
    k0: Kernel,
    k1: Kernel,
    i: int,
    image: Seq<u8>,
    code: Seq<u64>,
    t: Option<usize>,
) -> bool {
    exists|ka: Kernel, child: HandleTable, r: Result<TaskRef, SpawnError>|
        {
            &&& #[trigger] spawn::user_task_started(
                k0,
                ka,
                image,
                child,
                service_grants(i).len() as u64,
                service_arg(i),
                r,
            )
            &&& child@ == table_of(service_grants(i))
            &&& match r {
                Ok(task) => {
                    &&& t == Some(task.id as usize)
                    &&& receiving(ka, k1, service_receives(i), task.id as usize)
                    &&& spawn::code_listed(
                        ka.sched.tasks@[task.id as int].space.unwrap(),
                        ka.mem@,
                        image,
                        code,
                    )
                },
                Err(_) => t is None && k1 == ka,
            }
        }
}

/// An attempt to start the service at place `i`: the task that runs it, or none
/// if it could not be started.
pub open spec fn launched(
    k0: Kernel,
    k1: Kernel,
    programs: Programs,
    i: int,
    code: Seq<u64>,
    t: Option<usize>,
) -> bool {
    match service_file(i) {
        None => match boot_images::spec_builtin(
            programs.builtins@,
            text::one_byte_each(service_name(i)),
            0,
        ) {
            None => t is None && k1 == k0,
            Some(entry) => exists|r: Result<TaskRef, SpawnError>|
                {
                    &&& #[trigger] spawn::kernel_task_started(k0, k1, entry, r)
                    &&& t == match r {
                        Ok(task) => Some(task.id as usize),
                        Err(_) => None,
                    }
                },
        },
        Some(file) => match programs.images.spec_find(text::one_byte_each(file)) {
            None => t is None && k1 == k0,
            Some(image) => image_launched(k0, k1, i, image, code, t),
        },
    }
}

/// Starts `image` as the service at place `i`.
fn spawn_image(k: &mut Kernel, i: usize, image: &[u8], code: &mut Vec<u64>) -> (t: Option<usize>)
    requires
        old(k).wf(),
        i < SERVICE_COUNT,
    ensures
        final(k).wf(),
        image_launched(*old(k), *final(k), i as int, image@, final(code)@, t),
{
    let slots: Vec<Slot> = slots_at(i);
    let child: HandleTable = grants(&slots);
    let ghost ct = child;
    let arg: u64 = match i {
        9 => 0x4000_0000,
        10 => 0x4_2000_0000,
        12 => 1,
        13 => 2,
        _ => 0,
    };
    let channel: Option<u32> = match i {
        4 => Some(3),
        5 => Some(2),
        14 => Some(5),
        _ => None,
    };
    let r: Result<TaskRef, SpawnError> = spawn::spawn_el0(
        k,
        image,
        child,
        slots.len() as u64,
        arg,
        code,
    );
    let ghost ka = *k;
    assert(spawn::user_task_started(
        *old(k),
        ka,
        image@,
        ct,
        service_grants(i as int).len() as u64,
        service_arg(i as int),
        r,
    ));
    match r {
        Err(_) => None,
        Ok(task) => {
            if let Some(c) = channel {
                ipc::set_receiver(&mut k.ipc, c, task.id as usize);
            }
            assert(receiving(ka, *k, service_receives(i as int), task.id as usize));
            Some(task.id as usize)
        },
    }
}

fn launch(k: &mut Kernel, programs: &Programs, i: usize, code: &mut Vec<u64>) -> (t: Option<usize>)
    requires
        old(k).wf(),
        i < SERVICE_COUNT,
    ensures
        final(k).wf(),
        launched(*old(k), *final(k), *programs, i as int, final(code)@, t),
        t matches Some(id) ==> id <= u16::MAX,
{
    match file_at(i) {
        None => {
            let name: Vec<u8> = text::ascii_bytes(name_at(i));
            match boot_images::builtin(&programs.builtins, name.as_slice()) {
                None => None,
                Some(entry) => {
                    let r: Result<TaskRef, SpawnError> = spawn::spawn(k, entry);
                    assert(spawn::kernel_task_started(*old(k), *k, entry, r));
                    match r {
                        Ok(task) => Some(task.id as usize),
                        Err(_) => None,
                    }
                },
            }
        },
        Some(file) => {
            let file: Vec<u8> = text::ascii_bytes(file);
            match programs.images.find(file.as_slice()) {
                None => None,
                Some(image) => spawn_image(k, i, image, code),
            }
        },
    }
}

/// What a request to start a service changes and returns.
pub open spec fn service_spawned(
    s0: ServicesView,
    s1: ServicesView,
    names0: Seq<&'static str>,
    names1: Seq<&'static str>,
    k0: Kernel,
    k1: Kernel,
    programs: Programs,
    service_id: u64,
    code0: Seq<u64>,
    code1: Seq<u64>,
    r: Result<usize, i64>,
) -> bool {
    let unchanged = s1 == s0 && names1 == names0 && k1 == k0 && code1 == code0;
    match place_of(service_id) {
        None => r == Err::<usize, i64>(-1i64) && unchanged,
        Some(i) => if s0.started[i] {
            r == Ok::<usize, i64>(s0.tasks[i] as usize) && unchanged
        } else {
            match r {
                Err(e) => {
                    &&& e == -1
                    &&& launched(k0, k1, programs, i, code1, None)
                    &&& s1 == s0
                    &&& names1 == names0
                },
                Ok(task) => {
                    &&& launched(k0, k1, programs, i, code1, Some(task))
                    &&& s1 == s0.running_as(i, task)
                    &&& forall|id: int|
                        0 <= id < task_names::MAX ==> (#[trigger] names1[id])@ == if id == task {
                            service_name(i)
                        } else {
                            names0[id]@
                        }
                },
            }
        },
    }
}

/// Starts a service that is not running. One that is running is left alone, and
/// its task is returned. One that could not be started stays stopped, so that a
/// later request can try again.
pub fn spawn_service(
    s: &mut Services,
    names: &mut TaskNames,
    k: &mut Kernel,
    programs: &Programs,
    code: &mut Vec<u64>,
    service_id: u64,
) -> (r: Result<usize, i64>)
    requires
        old(s).wf(),
        old(names).wf(),
        old(k).wf(),
    ensures
        final(s).wf(),
        final(names).wf(),
        final(k).wf(),
        service_spawned(
            old(s)@,
            final(s)@,
            old(names)@,
            final(names)@,
            *old(k),
            *final(k),
            *programs,
            service_id,
            old(code)@,
            final(code)@,
            r,
        ),
{
    if service_id < 1 || service_id > SERVICE_COUNT as u64 {
        return Err(-1);
    }
    let i: usize = (service_id - 1) as usize;
    if s.started[i] {
        return Ok(s.tasks[i] as usize);
    }
    let task: usize = match launch(k, programs, i, code) {
        None => {
            return Err(-1);
        },
        Some(task) => task,
    };
    task_names::register_current(names, task, name_at(i));
    s.started[i] = true;
    if s.last_exits[i] != SERVICE_EXIT_NONE {
        s.restarts[i] = s.restarts[i].wrapping_add(1);
    }
    s.tasks[i] = task as u64;
    if task < MAX_TASKS {
        s.task_services[task] = service_id;
    }
    Ok(task)
}

/// A service that was started and whose task then exits is stopped, for that
/// reason, with one exit more.
pub proof fn law_exit_stops_service(v: ServicesView, i: int, task: usize, reason: u64)
    requires
        0 <= i < SERVICE_COUNT,
        task < MAX_TASKS,
        v.started.len() == SERVICE_COUNT,
        v.tasks.len() == SERVICE_COUNT,
        v.exits.len() == SERVICE_COUNT,
        v.last_exits.len() == SERVICE_COUNT,
        v.task_services.len() == MAX_TASKS,
    ensures
        v.running_as(i, task).status((i + 1) as u64).unwrap().state == SERVICE_STATE_RUNNING,
        ({
            let after = v.running_as(i, task).task_gone(task, reason);
            let st = after.status((i + 1) as u64).unwrap();
            &&& st.state == 0
            &&& st.task_id == 0
            &&& st.last_exit_reason == reason
            &&& st.exit_count == v.exits[i].wrapping_add(1)
            &&& after.task_services[task as int] == 0
        }),
{
}

/// The exit of one task changes nothing of a service that another runs.
pub proof fn law_exit_is_local(v: ServicesView, task: usize, reason: u64, id: u64)
    requires
        place_of(id) is Some,
        v.started.len() == SERVICE_COUNT,
        v.tasks.len() == SERVICE_COUNT,
        v.exits.len() == SERVICE_COUNT,
        v.last_exits.len() == SERVICE_COUNT,
        v.task_services.len() == MAX_TASKS,
        task < MAX_TASKS ==> v.task_services[task as int] != id,
    ensures
        v.task_gone(task, reason).status(id) == v.status(id),
{
}

/// A call that concerns the services.
pub enum Event {
    /// A request to start the service with this id, and what it returned.
    Start(u64, Result<usize, i64>),
    /// The exit of a task, for this reason.
    Exit(usize, u64),
}

/// What a call makes of the services.
pub open spec fn effect(v: ServicesView, e: Event) -> ServicesView {
    match e {
        Event::Start(id, Ok(task)) => match place_of(id) {
            Some(i) if !v.started[i] => v.running_as(i, task),
            _ => v,
        },
        Event::Start(_, Err(_)) => v,
        Event::Exit(task, reason) => v.task_gone(task, reason),
    }
}

/// A call as the kernel makes it: a running service keeps its task, and one that
/// is started gets a task that runs no other.
pub open spec fn possible(v: ServicesView, e: Event) -> bool {
    match e {
        Event::Start(id, r) => match place_of(id) {
            None => r is Err,
            Some(i) => if v.started[i] {
                r == Ok::<usize, i64>(v.tasks[i] as usize)
            } else {
                r matches Ok(task) ==> task < MAX_TASKS && v.task_services[task as int] == 0
            },
        },
        Event::Exit(_, _) => true,
    }
}

/// The services after the first `n` calls.
pub open spec fn after(events: Seq<Event>, n: int) -> ServicesView
    decreases n,
{
    if n <= 0 {
        ServicesView::none()
    } else {
        effect(after(events, n - 1), events[n - 1])
    }
}

/// The first `n` calls are such as the kernel makes.
pub open spec fn happened(events: Seq<Event>, n: int) -> bool {
    forall|j: int| 0 <= j < n ==> possible(after(events, j), #[trigger] events[j])
}

/// Call `j` started the service as `task`, or found it running so, and none of
/// the calls up to the `n`-th is the exit of that task.
pub open spec fn unended(events: Seq<Event>, n: int, j: int, id: u64, task: usize) -> bool {
    &&& 0 <= j < n
    &&& events[j] == Event::Start(id, Ok(task))
    &&& forall|k: int|
        j < k < n ==> !((#[trigger] events[k]) matches Event::Exit(t, _) && t == task)
}

/// A service runs exactly from a start that succeeded to the exit of its task.
pub open spec fn runs_unended(events: Seq<Event>, n: int, v: ServicesView) -> bool {
    &&& forall|j: int, id: u64, task: usize| #[trigger]
        unended(events, n, j, id, task) ==> place_of(id) is Some && v.started[id - 1] && v.tasks[id
            - 1] == task
    &&& forall|i: int|
        0 <= i < SERVICE_COUNT && #[trigger] v.started[i] ==> exists|j: int| #[trigger]
            unended(events, n, j, (i + 1) as u64, v.tasks[i] as usize)
}

/// Services and tasks name each other.
pub open spec fn paired(v: ServicesView) -> bool {
    &&& v.started.len() == SERVICE_COUNT
    &&& v.tasks.len() == SERVICE_COUNT
    &&& v.task_services.len() == MAX_TASKS
    &&& forall|i: int|
        0 <= i < SERVICE_COUNT && #[trigger] v.started[i] ==> v.tasks[i] < MAX_TASKS
            && v.task_services[v.tasks[i] as int] == i + 1
    &&& forall|t: int|
        0 <= t < MAX_TASKS && #[trigger] v.task_services[t] != 0 ==> {
            let i = v.task_services[t] - 1;
            i < SERVICE_COUNT && v.started[i] && v.tasks[i] == t
        }
}

proof fn lemma_paired(v: ServicesView, e: Event)
    requires
        paired(v),
        possible(v, e),
    ensures
        paired(effect(v, e)),
{
    let w = effect(v, e);
    assert forall|i: int| 0 <= i < SERVICE_COUNT && #[trigger] w.started[i] implies w.tasks[i]
        < MAX_TASKS && w.task_services[w.tasks[i] as int] == i + 1 by {
        if v.started[i] {
            assert(v.task_services[v.tasks[i] as int] == i + 1);
        }
    }
    assert forall|t: int| 0 <= t < MAX_TASKS && #[trigger] w.task_services[t] != 0 implies {
        let i = w.task_services[t] - 1;
        i < SERVICE_COUNT && w.started[i] && w.tasks[i] == t
    } by {
        if v.task_services[t] != 0 {
            assert(v.started[v.task_services[t] - 1]);
        }
    }
}

/// What is unended after a call is what the services then say.
proof fn lemma_unended_runs(events: Seq<Event>, n: int, j: int, id: u64, task: usize)
    requires
        0 < n <= events.len(),
        paired(after(events, n - 1)),
        possible(after(events, n - 1), events[n - 1]),
        runs_unended(events, n - 1, after(events, n - 1)),
        unended(events, n, j, id, task),
    ensures
        place_of(id) is Some,
        after(events, n).started[id - 1],
        after(events, n).tasks[id - 1] == task,
{
    let v = after(events, n - 1);
    let e = events[n - 1];
    assert(after(events, n) == effect(v, e));
    if j < n - 1 {
        assert(unended(events, n - 1, j, id, task));
        assert(!(events[n - 1] matches Event::Exit(t, _) && t == task));
        assert(v.started[id - 1] && v.tasks[id - 1] == task);
        assert(v.task_services[task as int] == id);
        match e {
            Event::Start(other, r) => {},
            Event::Exit(t, reason) => {
                if t < MAX_TASKS && v.task_services[t as int] != 0 {
                    assert(v.tasks[v.task_services[t as int] - 1] == t);
                }
            },
        }
    }
}

/// What runs after a call was started by an unended one.
proof fn lemma_runs_unended(events: Seq<Event>, n: int, i: int)
    requires
        0 < n <= events.len(),
        paired(after(events, n - 1)),
        possible(after(events, n - 1), events[n - 1]),
        runs_unended(events, n - 1, after(events, n - 1)),
        0 <= i < SERVICE_COUNT,
        after(events, n).started[i],
    ensures
        exists|j: int| #[trigger]
            unended(events, n, j, (i + 1) as u64, after(events, n).tasks[i] as usize),
{
    let v = after(events, n - 1);
    let w = after(events, n);
    let e = events[n - 1];
    let id = (i + 1) as u64;
    assert(w == effect(v, e));
    if v.started[i] {
        assert(v.task_services[v.tasks[i] as int] == i + 1);
        let j = choose|j: int| #[trigger] unended(events, n - 1, j, id, v.tasks[i] as usize);
        assert(w.tasks[i] == v.tasks[i]);
        assert(unended(events, n, j, id, w.tasks[i] as usize));
    } else {
        assert(unended(events, n, n - 1, id, w.tasks[i] as usize));
    }
}

proof fn lemma_history(events: Seq<Event>, n: int)
    requires
        0 <= n <= events.len(),
        happened(events, n),
    ensures
        paired(after(events, n)),
        runs_unended(events, n, after(events, n)),
    decreases n,
{
    if n > 0 {
        lemma_history(events, n - 1);
        let v = after(events, n - 1);
        let w = after(events, n);
        assert(possible(v, events[n - 1]));
        lemma_paired(v, events[n - 1]);
        assert forall|j: int, id: u64, task: usize| #[trigger]
            unended(events, n, j, id, task) implies place_of(id) is Some && w.started[id - 1]
            && w.tasks[id - 1] == task by {
            lemma_unended_runs(events, n, j, id, task);
        }
        assert forall|i: int| 0 <= i < SERVICE_COUNT && #[trigger] w.started[i] implies exists|j: int|
            #[trigger]
            unended(events, n, j, (i + 1) as u64, w.tasks[i] as usize) by {
            lemma_runs_unended(events, n, i);
        }
    }
}

/// After any calls that the kernel makes, a service is reported as running if
/// and only if a request to start it succeeded and its task has not exited
/// since.
pub proof fn law_service_runs_from_start_to_exit(events: Seq<Event>, id: u64)
    requires
        happened(events, events.len() as int),
        place_of(id) is Some,
    ensures
        ({
            let n = events.len() as int;
            let state = after(events, n).status(id).unwrap().state;
            &&& state == 0 || state == SERVICE_STATE_RUNNING
            &&& state == SERVICE_STATE_RUNNING <==> exists|j: int, task: usize| #[trigger]
                unended(events, n, j, id, task)
        }),
{
    let n = events.len() as int;
    lemma_history(events, n);
    let v = after(events, n);
    if v.started[id - 1] {
        let j = choose|j: int| #[trigger]
            unended(events, n, j, id, v.tasks[id - 1] as usize);
        assert(unended(events, n, j, id, v.tasks[id - 1] as usize));
    }
}

/// After any calls that the kernel makes, services and tasks name each other.
pub proof fn law_services_and_tasks_are_paired(events: Seq<Event>)
    requires
        happened(events, events.len() as int),
    ensures
        paired(after(events, events.len() as int)),
{
    lemma_history(events, events.len() as int);
}

/// A service that was started, or found running, as `task`, and whose task then
/// exits, is stopped for that reason, with one exit more and its restarts kept.
/// Every other service is as it was, and a second exit in a row changes nothing.
pub proof fn law_exit_after_start(
    before: ServicesView,
    id: u64,
    task: usize,
    reason: u64,
    other: u64,
    again: u64,
)
    requires
        paired(before),
        before.restarts.len() == SERVICE_COUNT,
        before.exits.len() == SERVICE_COUNT,
        before.last_exits.len() == SERVICE_COUNT,
        place_of(id) is Some,
        possible(before, Event::Start(id, Ok(task))),
        other != id,
    ensures
        ({
            let v = effect(before, Event::Start(id, Ok(task)));
            let s = v.status(id).unwrap();
            let w = effect(v, Event::Exit(task, reason));
            &&& s.state == SERVICE_STATE_RUNNING
            &&& w.status(id) == Some(
                ServiceStatus {
                    task_id: 0,
                    restart_count: s.restart_count,
                    exit_count: s.exit_count.wrapping_add(1),
                    last_exit_reason: reason,
                    state: 0,
                },
            )
            &&& w.status(other) == v.status(other)
            &&& effect(w, Event::Exit(task, again)) == w
        }),
{
    let e = Event::Start(id, Ok(task));
    lemma_paired(before, e);
    let v = effect(before, e);
    assert(v.started[id - 1]);
    assert(v.tasks[id - 1] == task);
    assert(v.task_services[task as int] == id);
    let w = effect(v, Event::Exit(task, reason));
    assert(w.task_services.update(task as int, 0) =~= w.task_services);
}

/// Starting a service is such a call, with the effect that the calls above are
/// taken to have.
pub proof fn law_start_is_an_event(
    s0: ServicesView,
    s1: ServicesView,
    names0: Seq<&'static str>,
    names1: Seq<&'static str>,
    k0: Kernel,
    k1: Kernel,
    programs: Programs,
    id: u64,
    code0: Seq<u64>,
    code1: Seq<u64>,
    r: Result<usize, i64>,
)
    requires
        k0.wf(),
        s0.task_services.len() == MAX_TASKS,
        service_spawned(s0, s1, names0, names1, k0, k1, programs, id, code0, code1, r),
        forall|t: int|
            0 <= t < MAX_TASKS && k0.sched.tasks@[t].state == State::Free
                ==> #[trigger] s0.task_services[t] == 0,
    ensures
        s1 == effect(s0, Event::Start(id, r)),
        possible(s0, Event::Start(id, r)),
{
    syscalls::lemma_free_slot_is_free(k0.sched.tasks@, 1);
}

/// No two services have the same name, so that each is found by its own.
pub proof fn law_found_by_name(i: int, j: int)
    requires
        0 <= i < 15,
        0 <= j < 15,
    ensures
        service_name(i) == service_name(j) ==> i == j,
        place_named(service_name(i), 0) == Some(i),
{
    lemma_names_differ(i, j);
    lemma_found_from(i, 0);
}

proof fn lemma_found_from(i: int, from: int)
    requires
        0 <= from <= i < 15,
    ensures
        place_named(service_name(i), from) == Some(i),
    decreases i - from,
{
    if from < i {
        lemma_names_differ(i, from);
        lemma_found_from(i, from + 1);
    }
}

proof fn lemma_names_differ(i: int, j: int)
    requires
        0 <= i < 15,
        0 <= j < 15,
    ensures
        service_name(i) == service_name(j) ==> i == j,
{
    reveal_strlit("kbd");
    reveal_strlit("comp");
    reveal_strlit("shell");
    reveal_strlit("dash");
    reveal_strlit("ping");
    reveal_strlit("pong");
    reveal_strlit("pulse");
    reveal_strlit("fault");
    reveal_strlit("mcp");
    reveal_strlit("probe-bad-kernel");
    reveal_strlit("probe-bad-unmapped");
    reveal_strlit("probe-bad-code");
    reveal_strlit("probe-bad-stack");
    reveal_strlit("probe-abi");
    reveal_strlit("probe-chan");
    let (a, b) = (service_name(i), service_name(j));
    if a == b {
        assert(a.len() == b.len() && a[0] == b[0] && a[1] == b[1]);
    }
}

/// A name that is found is the name of what is found.
pub proof fn law_name_found(name: Seq<char>, from: int)
    requires
        0 <= from,
    ensures
        place_named(name, from) matches Some(i) ==> from <= i < 15 && service_name(i) == name,
    decreases 15 - from,
{
    if from < 15 && service_name(from) != name {
        law_name_found(name, from + 1);
    }
}

/// The services by name and id.
pub proof fn law_service_ids()
    ensures
        service_name(SERVICE_KBD - 1) == "kbd"@,
        service_name(SERVICE_COMP - 1) == "comp"@,
        service_name(SERVICE_SHELL - 1) == "shell"@,
        service_name(SERVICE_DASH - 1) == "dash"@,
        service_name(SERVICE_PING - 1) == "ping"@,
        service_name(SERVICE_PONG - 1) == "pong"@,
        service_name(SERVICE_PULSE - 1) == "pulse"@,
        service_name(SERVICE_FAULT - 1) == "fault"@,
        service_name(SERVICE_MCP - 1) == "mcp"@,
        service_name(SERVICE_PROBE_BAD_KERNEL - 1) == "probe-bad-kernel"@,
        service_name(SERVICE_PROBE_BAD_UNMAPPED - 1) == "probe-bad-unmapped"@,
        service_name(SERVICE_PROBE_BAD_CODE - 1) == "probe-bad-code"@,
        service_name(SERVICE_PROBE_BAD_STACK - 1) == "probe-bad-stack"@,
        service_name(SERVICE_PROBE_ABI - 1) == "probe-abi"@,
        service_name(SERVICE_PROBE_CHAN - 1) == "probe-chan"@,
{
}

/// What ping sends pong receives, and the other way round. A service becomes the
/// receiver of exactly the channels that it is granted to receive on, and no two
/// services receive on the same one.
pub proof fn law_grants_fit(i: int, j: int, a: int, b: int)
    requires
        0 <= i < 15,
        0 <= j < 15,
        0 <= a < service_grants(i).len(),
        0 <= b < service_grants(j).len(),
    ensures
        service_grants(i)[a].rights.0 == 2 ==> service_receives(i) == Some(
            service_grants(i)[a].channel,
        ),
        service_grants(i)[a].rights.0 == 1 ==> service_receives(i) != Some(
            service_grants(i)[a].channel,
        ),
        service_grants(i)[a].rights.0 == 1 || service_grants(i)[a].rights.0 == 2,
        service_receives(i) is Some && service_receives(i) == service_receives(j) ==> i == j,
        service_grants(4)[0].channel == service_grants(5)[0].channel,
        service_grants(4)[1].channel == service_grants(5)[1].channel,
        service_grants(4)[0].rights.0 == 1 && service_grants(5)[0].rights.0 == 2,
        service_grants(4)[1].rights.0 == 2 && service_grants(5)[1].rights.0 == 1,
{
}

/// What a service is granted are its first handles, in order, and it has no others.
pub proof fn law_granted_handles(slots: Seq<Slot>, h: int)
    requires
        slots.len() <= 16,
        0 <= h < 16,
    ensures
        table_of(slots).len() == 16,
        h < slots.len() ==> table_of(slots)[h] == Some(slots[h]),
        h >= slots.len() ==> table_of(slots)[h] is None,
{
}

/// Only pulse and fault are supervised, and only they have a period; every service
/// starts by itself.
pub proof fn law_supervised(i: int)
    requires
        0 <= i < 15,
    ensures
        service_flags(i) & 1 == 1,
        service_flags(i) & 2 == 2 <==> service_name(i) == "pulse"@ || service_name(i) == "fault"@,
        service_name(i) == "pulse"@ ==> service_period(i) == 250,
        service_name(i) == "fault"@ ==> service_period(i) == 200,
        service_flags(i) & 2 != 2 ==> service_period(i) == 0,
{
    lemma_names_differ(i, 6);
    lemma_names_differ(i, 7);
    assert(3u64 & 1 == 1 && 3u64 & 2 == 2 && 1u64 & 1 == 1 && 1u64 & 2 == 0) by (bit_vector);
}

/// The number of times that a service was restarted counts the starts that followed
/// an exit, and a first start is none.
pub proof fn law_restarts_are_counted(v: ServicesView, i: int, j: int, task: usize)
    requires
        0 <= i < 15,
        0 <= j < 15,
        j != i,
        task < 16,
        v.started.len() == 15 && v.tasks.len() == 15 && v.restarts.len() == 15 && v.exits.len()
            == 15 && v.last_exits.len() == 15 && v.task_services.len() == 16,
        v.restarts[i] < u64::MAX,
    ensures
        ({
            let w = v.running_as(i, task);
            let s = w.status((i + 1) as u64).unwrap();
            &&& s.state == 1
            &&& s.task_id == task
            &&& s.restart_count == v.restarts[i] + if v.last_exits[i] == 0 {
                0int
            } else {
                1
            }
            &&& s.exit_count == v.exits[i]
            &&& s.last_exit_reason == v.last_exits[i]
            &&& w.status((j + 1) as u64) == v.status((j + 1) as u64)
            &&& w.task_services[task as int] == i + 1
        }),
{
}

/// The line for a service that exited names it, its task and the reason.
pub proof fn law_exit_line(i: int, task: usize, reason: u64)
    ensures
        exit_line(i, task, reason) == "[init] service "@ + service_name(i) + " exited (task "@
            + text::decimal(task as nat) + ", reason="@ + (if reason == 1 {
            "clean"@
        } else if reason == 2 {
            "fault"@
        } else if reason == 3 {
            "panic"@
        } else {
            "unknown"@
        }) + ")\n"@,
{
}

/// A name in a field of sixteen bytes: its first sixteen, and zeros behind it.
pub proof fn law_name_field(name: Seq<u8>, i: int)
    requires
        0 <= i < 16,
    ensures
        name_field(name).len() == 16,
        i < name.len() ==> name_field(name)[i] == name[i],
        i >= name.len() ==> name_field(name)[i] == 0,
{
}

/// A service that runs is left alone and its task is returned; a request for one
/// that there is not gives -1; one that is down is started, and runs exactly if a
/// task is returned.
pub proof fn law_start_request(
    s0: ServicesView,
    s1: ServicesView,
    names0: Seq<&'static str>,
    names1: Seq<&'static str>,
    k0: Kernel,
    k1: Kernel,
    programs: Programs,
    id: u64,
    code0: Seq<u64>,
    code1: Seq<u64>,
    r: Result<usize, i64>,
)
    requires
        service_spawned(s0, s1, names0, names1, k0, k1, programs, id, code0, code1, r),
        s0.started.len() == 15 && s0.tasks.len() == 15 && s0.last_exits.len() == 15,
    ensures
        id == 0 || id > 15 ==> r == Err::<usize, i64>((-1) as i64) && s1 == s0 && k1 == k0,
        1 <= id <= 15 && s0.started[id - 1] ==> r == Ok::<usize, i64>(s0.tasks[id - 1] as usize)
            && s1 == s0 && k1 == k0 && names1 == names0,
        1 <= id <= 15 && !s0.started[id - 1] ==> {
            &&& r is Err ==> r == Err::<usize, i64>((-1) as i64) && s1 == s0 && names1 == names0
            &&& r is Ok ==> s1.started[id - 1] && s1.tasks[id - 1] == r->Ok_0
            &&& (r is Ok && r->Ok_0 < 16) ==> names1[r->Ok_0 as int]@ == service_name(id - 1)
        },
{
}

/// What the probes are told to touch: the kernel's memory, or user memory that is
/// not mapped; the rest is told by a small number.
pub proof fn law_probe_targets(i: int)
    requires
        0 <= i < 15,
    ensures
        service_name(i) == "probe-bad-kernel"@ ==> service_arg(i) == 0x4000_0000,
        service_name(i) == "probe-bad-unmapped"@ ==> service_arg(i) == 0x4_2000_0000,
        service_name(i) == "probe-bad-stack"@ ==> service_arg(i) == 1,
        service_name(i) == "probe-abi"@ ==> service_arg(i) == 2,
        service_name(i) == "probe-bad-code"@ ==> service_arg(i) == 0,
        i < 9 || i == 14 ==> service_arg(i) == 0,
{
    lemma_names_differ(i, 9);
    lemma_names_differ(i, 10);
    lemma_names_differ(i, 11);
    lemma_names_differ(i, 12);
    lemma_names_differ(i, 13);
}

/// Which services are files of the boot volume, and which are part of the kernel.
pub proof fn law_service_files(i: int)
    requires
        0 <= i < 15,
    ensures
        service_file(i) is None <==> service_name(i) == "kbd"@ || service_name(i) == "comp"@
            || service_name(i) == "shell"@ || service_name(i) == "dash"@ || service_name(i)
            == "mcp"@,
        service_name(i) == "ping"@ ==> service_file(i) == Some("PING.ELF"@),
        service_name(i) == "pong"@ ==> service_file(i) == Some("PONG.ELF"@),
        service_name(i) == "pulse"@ ==> service_file(i) == Some("PULSE.ELF"@),
        service_name(i) == "fault"@ ==> service_file(i) == Some("FAULT.ELF"@),
        9 <= i < 14 ==> service_file(i) == Some("PROBEBAD.ELF"@),
        service_name(i) == "probe-chan"@ ==> service_file(i) == Some("PROBECHA.ELF"@),
{
    lemma_names_differ(i, 0);
    lemma_names_differ(i, 1);
    lemma_names_differ(i, 2);
    lemma_names_differ(i, 3);
    lemma_names_differ(i, 4);
    lemma_names_differ(i, 5);
    lemma_names_differ(i, 6);
    lemma_names_differ(i, 7);
    lemma_names_differ(i, 8);
    lemma_names_differ(i, 14);
}

} // verus!
