use freshos::abi::sys;
use freshos::abi::tag;
use freshos::abi::{
    Error, ExitReason, Grant, Handle, Message, Rights, SpawnRequest, TaskRef, USER_BASE,
    USER_SIZE, USER_STACK_SIZE,
};
use freshos::addrspace;
use freshos::addrspace::KernelMap;
use freshos::boot_images::{BootImages, Builtin};
use freshos::context;
use freshos::context::{SpawnError, State};
use freshos::delivery;
use freshos::exceptions;
use freshos::frame_alloc;
use freshos::frame_alloc::{FrameAllocator, MemRegion};
use freshos::handles::{HandleTable, Slot};
use freshos::ipc;
use freshos::kernel::Kernel;
use freshos::lifecycle;
use freshos::mem::PhysMem;
use freshos::registry;
use freshos::spawn;
use freshos::syscalls;
use freshos::syscalls::{Effects, Outcome, Programs, Resume};

const MIB: usize = 1024 * 1024;

fn put16(b: &mut Vec<u8>, at: usize, v: u16) {
    b[at..at + 2].copy_from_slice(&v.to_le_bytes());
}

fn put32(b: &mut Vec<u8>, at: usize, v: u32) {
    b[at..at + 4].copy_from_slice(&v.to_le_bytes());
}

fn put64(b: &mut Vec<u8>, at: usize, v: u64) {
    b[at..at + 8].copy_from_slice(&v.to_le_bytes());
}

/// An image with one executable and one writable page.
fn image() -> Vec<u8> {
    let mut b = vec![0u8; 64 + 2 * 56 + 16];
    b[0..4].copy_from_slice(&[0x7F, b'E', b'L', b'F']);
    b[4] = 2;
    b[5] = 1;
    b[6] = 1;
    put16(&mut b, 16, 2);
    put16(&mut b, 18, 0xB7);
    put32(&mut b, 20, 1);
    put64(&mut b, 24, USER_BASE + 0x1_0000);
    put64(&mut b, 32, 64);
    put16(&mut b, 52, 64);
    put16(&mut b, 54, 56);
    put16(&mut b, 56, 2);
    for (i, (flags, va, filesz)) in
        [(5u32, USER_BASE + 0x1_0000, 16u64), (6, USER_BASE + 0x2_0000, 0)].iter().enumerate()
    {
        let at = 64 + 56 * i;
        put32(&mut b, at, 1);
        put32(&mut b, at + 4, *flags);
        put64(&mut b, at + 8, 64 + 2 * 56);
        put64(&mut b, at + 16, *va);
        put64(&mut b, at + 24, *va);
        put64(&mut b, at + 32, *filesz);
        put64(&mut b, at + 40, 4096);
        put64(&mut b, at + 48, 4096);
    }
    for i in 0..16 {
        b[64 + 2 * 56 + i] = i as u8 + 1;
    }
    b
}

fn machine() -> Kernel {
    let mut fa = FrameAllocator::new();
    let regions = [MemRegion { start: 0x10_000, pages: 1800, usable: true }];
    frame_alloc::init(&mut fa, &regions, 1);
    let map = KernelMap { l1: 0x1000, l1_entries: 64, ram_memory_type: 0x4 };
    lifecycle::boot(PhysMem::new(vec![0; 8 * MIB]), fa, map, 0x1000)
}

fn programs() -> Programs {
    let mut images = BootImages::new();
    assert!(images.add(b"PONG.ELF".to_vec(), image()));
    assert!(images.add(b"BAD.ELF".to_vec(), vec![1, 2, 3]));
    Programs {
        images,
        builtins: vec![Builtin { name: b"mcp".to_vec(), entry: 0x8_0000 }],
    }
}

fn effects() -> Effects {
    Effects { console: Vec::new(), code: Vec::new() }
}

/// A kernel in which init runs, with its inbox as handle 0.
fn with_init() -> Kernel {
    let mut k = machine();
    for _ in 0..ipc::INIT_INBOX {
        ipc::create(&mut k.ipc).unwrap();
    }
    let inbox = ipc::create(&mut k.ipc).unwrap();
    assert_eq!(inbox, ipc::INIT_INBOX);
    let mut t = HandleTable::empty();
    let both = Rights::send().union(Rights::recv());
    t.insert(Slot { channel: inbox, rights: both }).unwrap();
    let mut code = Vec::new();
    let init = spawn::spawn_el0(&mut k, &image(), t, 1, 0, &mut code).unwrap();
    context::set_init_task(&mut k.sched, init.id as usize);
    ipc::set_receiver(&mut k.ipc, inbox, init.id as usize);
    run(&mut k, init.id as usize);
    k
}

/// The task becomes the one that runs.
fn run(k: &mut Kernel, id: usize) {
    let cur = k.sched.current;
    if k.sched.tasks[cur].state == State::Running {
        k.sched.tasks[cur].state = State::Ready;
    }
    k.sched.tasks[id].state = State::Running;
    k.sched.current = id;
}

const DATA: u64 = USER_BASE + 0x2_0000;

fn poke(k: &mut Kernel, at: u64, bytes: &[u8]) {
    let cur = k.sched.current;
    let space = k.sched.tasks[cur].space.as_ref().unwrap();
    addrspace::copy_to_user(space, &mut k.mem, at, bytes).unwrap();
}

fn peek(k: &Kernel, at: u64) -> Message {
    let cur = k.sched.current;
    let space = k.sched.tasks[cur].space.as_ref().unwrap();
    addrspace::read_user::<Message>(space, &k.mem, at).unwrap()
}

fn poke_message(k: &mut Kernel, at: u64, m: &Message) {
    let cur = k.sched.current;
    let space = k.sched.tasks[cur].space.as_ref().unwrap();
    addrspace::write_user::<Message>(space, &mut k.mem, at, m).unwrap();
}

fn call(k: &mut Kernel, nr: u64, a: [u64; 6]) -> Outcome {
    syscalls::dispatch(k, &programs(), nr, a, 1000, &mut effects())
}

fn code(e: Error) -> Outcome {
    Outcome::Return(e.code())
}

#[test]
fn boot_has_only_the_boot_task() {
    let k = machine();
    assert_eq!(context::task_count(&k.sched), 1);
    assert_eq!(context::current_task(&k.sched), 0);
    assert_eq!(ipc::channel_count(&k.ipc), 0);
    assert_eq!(frame_alloc::free_count(&k.frames), 1800);
    assert_eq!(frame_alloc::free_mb(&k.frames), 7);
}

#[test]
fn a_user_task_starts_at_its_entry_point() {
    let mut k = machine();
    let mut new_code = Vec::new();
    let r = spawn::spawn_el0(&mut k, &image(), HandleTable::empty(), 3, 77, &mut new_code).unwrap();
    assert_eq!(r, TaskRef { id: 1, generation: 1 });
    let t = &k.sched.tasks[1];
    assert_eq!(t.state, State::Ready);
    assert_eq!(k.mem.read_word(t.sp), 3);
    assert_eq!(k.mem.read_word(t.sp + 8), 77);
    assert_eq!(k.mem.read_word(t.sp + 256), USER_BASE + 0x1_0000);
    assert_eq!(new_code.len(), 1);
    let space = t.space.as_ref().unwrap();
    let pa = space.translate(&k.mem, USER_BASE + 0x1_0000, false).unwrap();
    assert_eq!(pa, new_code[0]);
    assert_eq!(k.mem.read_byte(pa + 2), 3);
    assert!(space.translate(&k.mem, USER_BASE + 0x1_0000, true).is_none());
    assert!(space.translate(&k.mem, DATA, true).is_some());
    assert!(space.translate(&k.mem, USER_BASE, false).is_none());
}

#[test]
fn a_bad_image_is_refused_and_leaves_no_frame_behind() {
    let mut k = machine();
    let free = frame_alloc::free_count(&k.frames);
    let mut new_code = Vec::new();
    let r = spawn::spawn_el0(&mut k, &[0u8; 10], HandleTable::empty(), 0, 0, &mut new_code);
    assert_eq!(r, Err(SpawnError::BadImage("ELF header too small")));
    assert_eq!(frame_alloc::free_count(&k.frames), free);
    let mut wx = image();
    put32(&mut wx, 64 + 4, 7);
    let r = spawn::spawn_el0(&mut k, &wx, HandleTable::empty(), 0, 0, &mut new_code);
    assert_eq!(r, Err(SpawnError::BadImage("segment is writable and executable")));
    assert_eq!(frame_alloc::free_count(&k.frames), free);
}

#[test]
fn slots_run_out() {
    let mut k = machine();
    for i in 1..16 {
        assert_eq!(spawn::spawn(&mut k, 0x8_0000).unwrap().id, i);
    }
    assert_eq!(spawn::spawn(&mut k, 0x8_0000), Err(SpawnError::NoSlot));
    assert_eq!(context::task_count(&k.sched), 16);
}

#[test]
fn memory_runs_out() {
    let mut fa = FrameAllocator::new();
    let regions = [MemRegion { start: 0x10_000, pages: 3, usable: true }];
    frame_alloc::init(&mut fa, &regions, 1);
    let map = KernelMap { l1: 0x1000, l1_entries: 64, ram_memory_type: 0x4 };
    let mut k = lifecycle::boot(PhysMem::new(vec![0; MIB]), fa, map, 0x1000);
    assert_eq!(spawn::spawn(&mut k, 0x8_0000), Err(SpawnError::OutOfMemory));
    assert_eq!(frame_alloc::free_count(&k.frames), 3);
}

#[test]
fn messages_travel_through_user_memory() {
    let mut k = with_init();
    let m = Message::new(7).with_data(0, 42).with_data(3, 9);
    poke_message(&mut k, DATA, &m);
    assert_eq!(call(&mut k, sys::SEND, [0, DATA, 0, 0, 0, 0]), Outcome::Return(0));
    assert_eq!(call(&mut k, sys::TRY_RECV, [0, DATA + 64, 0, 0, 0, 0]), Outcome::Return(0));
    let got = peek(&k, DATA + 64);
    assert_eq!(got.tag, 7);
    assert_eq!(got.payload, [42, 0, 0, 9]);
    assert_eq!(got.sender, 1);
    assert_eq!(call(&mut k, sys::TRY_RECV, [0, DATA + 64, 0, 0, 0, 0]), code(Error::WouldBlock));
    let mut trace = vec![ipc::TraceEntry {
        timestamp_ns: 0,
        from_task: 0,
        to_task: 0,
        channel: 0,
        tag: 0,
    }];
    assert_eq!(ipc::trace_read(&k.ipc, &mut trace, 1), 1);
    assert_eq!((trace[0].from_task, trace[0].channel, trace[0].tag), (1, 2, 7));
}

#[test]
fn bad_arguments_are_refused() {
    let mut k = with_init();
    assert_eq!(call(&mut k, 4711, [0; 6]), code(Error::NoSuchSyscall));
    assert_eq!(call(&mut k, sys::SEND, [5, DATA, 0, 0, 0, 0]), code(Error::NoSuchHandle));
    assert_eq!(call(&mut k, sys::SEND, [0, 0x4000_0000, 0, 0, 0, 0]), code(Error::BadPointer));
    assert_eq!(call(&mut k, sys::SEND, [0, 0, 0, 0, 0, 0]), code(Error::BadPointer));
    assert_eq!(call(&mut k, sys::SEND, [0, DATA + 1, 0, 0, 0, 0]), code(Error::BadPointer));
    let end = USER_BASE + USER_SIZE;
    assert_eq!(call(&mut k, sys::SEND, [0, end - 8, 0, 0, 0, 0]), code(Error::BadPointer));
    assert_eq!(call(&mut k, sys::LOG, [0x4000_0000, 16, 0, 0, 0, 0]), code(Error::BadPointer));
    let code_page = USER_BASE + 0x1_0000;
    assert_eq!(call(&mut k, sys::TRY_RECV, [0, code_page, 0, 0, 0, 0]), code(Error::BadPointer));
    assert_eq!(call(&mut k, sys::TIME_NS, [0; 6]), Outcome::Return(1000));
    assert_eq!(call(&mut k, sys::YIELD, [0; 6]), Outcome::Yield);
    poke_message(&mut k, DATA, &Message::new(0));
    for _ in 0..16 {
        assert_eq!(call(&mut k, sys::SEND, [0, DATA, 0, 0, 0, 0]), Outcome::Return(0));
    }
}

#[test]
fn a_send_only_handle_does_not_receive() {
    let mut k = with_init();
    let mut t = HandleTable::empty();
    t.insert(Slot { channel: ipc::INIT_INBOX, rights: Rights::send() }).unwrap();
    let mut new_code = Vec::new();
    let other = spawn::spawn_el0(&mut k, &image(), t, 1, 0, &mut new_code).unwrap();
    run(&mut k, other.id as usize);
    assert_eq!(call(&mut k, sys::TRY_RECV, [0, DATA, 0, 0, 0, 0]), code(Error::NoRight));
    assert_eq!(call(&mut k, sys::CHANNEL_CREATE, [0; 6]), code(Error::NotPermitted));
    assert_eq!(call(&mut k, sys::SPAWN, [DATA, 0, 0, 0, 0, 0]), code(Error::NotPermitted));
}

#[test]
fn a_full_channel_refuses_the_seventeenth_message() {
    let mut k = with_init();
    poke_message(&mut k, DATA, &Message::new(0));
    for _ in 0..16 {
        assert_eq!(call(&mut k, sys::SEND, [0, DATA, 0, 0, 0, 0]), Outcome::Return(0));
    }
    assert_eq!(call(&mut k, sys::SEND, [0, DATA, 0, 0, 0, 0]), code(Error::Full));
}

#[test]
fn a_waiting_receiver_is_handed_the_processor() {
    let mut k = with_init();
    assert_eq!(call(&mut k, sys::RECV, [0, DATA, 0, 0, 0, 0]), Outcome::Blocked);
    assert_eq!(k.sched.tasks[1].state, State::Blocked);
    let mut t = HandleTable::empty();
    t.insert(Slot { channel: ipc::INIT_INBOX, rights: Rights::send() }).unwrap();
    let mut new_code = Vec::new();
    let other = spawn::spawn_el0(&mut k, &image(), t, 1, 0, &mut new_code).unwrap();
    run(&mut k, other.id as usize);
    poke_message(&mut k, DATA, &Message::new(5).with_data(1, 6));
    assert_eq!(call(&mut k, sys::SEND, [0, DATA, 0, 0, 0, 0]), Outcome::HandOff(1));
    assert_eq!(k.sched.tasks[1].state, State::Ready);
    run(&mut k, 1);
    let got = peek(&k, DATA);
    assert_eq!((got.tag, got.payload[1], got.sender), (5, 6, 2));
    assert_eq!(k.mem.read_word(k.sched.tasks[1].sp), 0);
}

#[test]
fn a_wait_ends_at_its_deadline() {
    let mut k = with_init();
    assert_eq!(call(&mut k, sys::RECV, [0, DATA, 5000, 0, 0, 0]), Outcome::Blocked);
    context::expire_waits(&mut k, 4999);
    assert_eq!(k.sched.tasks[1].state, State::Blocked);
    context::expire_waits(&mut k, 5000);
    assert_eq!(k.sched.tasks[1].state, State::Ready);
    assert_eq!(k.mem.read_word(k.sched.tasks[1].sp) as i64, Error::Timeout.code());
}

fn request(k: &mut Kernel, name: &[u8], binary: &[u8], grants: &[Grant]) -> u64 {
    poke(k, DATA + 0x100, name);
    poke(k, DATA + 0x200, binary);
    for (i, g) in grants.iter().enumerate() {
        let cur = k.sched.current;
        let space = k.sched.tasks[cur].space.as_ref().unwrap();
        addrspace::write_user::<Grant>(space, &mut k.mem, DATA + 0x300 + 8 * i as u64, g).unwrap();
    }
    let q = SpawnRequest {
        name_ptr: DATA + 0x100,
        name_len: name.len() as u64,
        binary_ptr: DATA + 0x200,
        binary_len: binary.len() as u64,
        grants_ptr: DATA + 0x300,
        grants_len: grants.len() as u64,
        arg: 11,
    };
    let cur = k.sched.current;
    let space = k.sched.tasks[cur].space.as_ref().unwrap();
    addrspace::write_user::<SpawnRequest>(space, &mut k.mem, DATA, &q).unwrap();
    DATA
}

#[test]
fn init_starts_a_service_and_gets_its_right_back() {
    let mut k = with_init();
    let channel = match call(&mut k, sys::CHANNEL_CREATE, [0; 6]) {
        Outcome::Return(h) => h as u32,
        _ => panic!("no channel"),
    };
    assert_eq!(channel, 1);
    let grants = [Grant { handle: Handle(channel), rights: Rights::recv() }];
    let q = request(&mut k, b"pong", b"pong.elf", &grants);
    assert_eq!(call(&mut k, sys::SPAWN, [q, 0, 0, 0, 0, 0]), Outcome::Return(2));
    assert_eq!(registry::name(&k.registry, 2).as_str(), b"pong".to_vec());
    assert_eq!(ipc::receiver(&k.ipc, 3), Some(2));
    assert_eq!(k.mem.read_word(k.sched.tasks[2].sp + 8), 11);
    assert_eq!(call(&mut k, sys::TRY_RECV, [1, DATA, 0, 0, 0, 0]), code(Error::NoRight));
    let q = request(&mut k, b"twice", b"PONG.ELF", &grants);
    assert_eq!(call(&mut k, sys::SPAWN, [q, 0, 0, 0, 0, 0]), code(Error::ReceiverTaken));
    run(&mut k, 2);
    assert_eq!(call(&mut k, sys::EXIT, [1, 0, 0, 0, 0, 0]), Outcome::Exited);
    assert_eq!(ipc::receiver(&k.ipc, 3), Some(1));
    run(&mut k, 1);
    assert_eq!(call(&mut k, sys::TRY_RECV, [1, DATA, 0, 0, 0, 0]), code(Error::WouldBlock));
    assert_eq!(call(&mut k, sys::TRY_RECV, [0, DATA, 0, 0, 0, 0]), Outcome::Return(0));
    let notice = peek(&k, DATA);
    assert_eq!(notice.tag, tag::TASK_EXITED);
    assert_eq!(notice.sender, 0);
    assert_eq!(notice.payload[0], 2);
    assert_eq!(notice.payload[1], ExitReason::Clean.code());
    assert_eq!(notice.payload[2], 1);
}

#[test]
fn spawn_requests_are_checked() {
    let mut k = with_init();
    let q = request(&mut k, b"x", b"NONE.ELF", &[]);
    assert_eq!(call(&mut k, sys::SPAWN, [q, 0, 0, 0, 0, 0]), code(Error::NotFound));
    let q = request(&mut k, b"", b"PONG.ELF", &[]);
    assert_eq!(call(&mut k, sys::SPAWN, [q, 0, 0, 0, 0, 0]), code(Error::Invalid));
    let q = request(&mut k, b"bad", b"BAD.ELF", &[]);
    assert_eq!(call(&mut k, sys::SPAWN, [q, 0, 0, 0, 0, 0]), code(Error::Invalid));
    let q = request(&mut k, b"mcp", b"builtin:mcp", &[]);
    assert_eq!(call(&mut k, sys::SPAWN, [q, 0, 0, 0, 0, 0]), Outcome::Return(2));
    assert!(k.sched.tasks[2].space.is_none());
    let q = request(&mut k, b"no", b"builtin:none", &[]);
    assert_eq!(call(&mut k, sys::SPAWN, [q, 0, 0, 0, 0, 0]), code(Error::NotFound));
    let odd = [Grant { handle: Handle(0), rights: Rights(4) }];
    let q = request(&mut k, b"y", b"PONG.ELF", &odd);
    assert_eq!(call(&mut k, sys::SPAWN, [q, 0, 0, 0, 0, 0]), code(Error::Invalid));
    let missing = [Grant { handle: Handle(9), rights: Rights::send() }];
    let q = request(&mut k, b"y", b"PONG.ELF", &missing);
    assert_eq!(call(&mut k, sys::SPAWN, [q, 0, 0, 0, 0, 0]), code(Error::NoSuchHandle));
    let inbox = Grant { handle: Handle(0), rights: Rights::recv() };
    let q = request(&mut k, b"y", b"PONG.ELF", &[inbox, inbox]);
    assert_eq!(call(&mut k, sys::SPAWN, [q, 0, 0, 0, 0, 0]), code(Error::ReceiverTaken));
}

#[test]
fn a_refused_image_is_explained() {
    let mut k = with_init();
    let at = request(&mut k, b"bad", b"BAD.ELF", &[]);
    let mut fx = effects();
    let a = [at, 0, 0, 0, 0, 0];
    let o = syscalls::dispatch(&mut k, &programs(), sys::SPAWN, a, 0, &mut fx);
    assert_eq!(o, code(Error::Invalid));
    let said: String = fx.console.iter().collect();
    assert_eq!(said, "refused BAD.ELF: ELF header too small\n");
    let at = request(&mut k, b"pong", b"PONG.ELF", &[]);
    let mut fx = effects();
    let a = [at, 0, 0, 0, 0, 0];
    let o = syscalls::dispatch(&mut k, &programs(), sys::SPAWN, a, 0, &mut fx);
    assert!(matches!(o, Outcome::Return(id) if id > 0));
    assert!(fx.console.is_empty());
}

#[test]
fn log_lines_cannot_fake_others() {
    let mut k = with_init();
    poke(&mut k, DATA, b"fake\n[init] spoof");
    let mut fx = effects();
    let a = [DATA, 17, 0, 0, 0, 0];
    let o = syscalls::dispatch(&mut k, &programs(), sys::LOG, a, 0, &mut fx);
    assert_eq!(o, Outcome::Return(0));
    let line: String = fx.console.iter().collect();
    assert_eq!(line.matches('\n').count(), 1);
    assert!(line.ends_with('\n'));
    assert_eq!(line, "[] fake?[init] spoof\n");
    poke(&mut k, DATA, b"bad\xffutf8");
    let mut fx = effects();
    let a = [DATA, 8, 0, 0, 0, 0];
    assert_eq!(
        syscalls::dispatch(&mut k, &programs(), sys::LOG, a, 0, &mut fx),
        Outcome::Return(0)
    );
    let line: String = fx.console.iter().collect();
    assert_eq!(line, "[] bad?utf8\n");
    poke(&mut k, DATA, &[b'L'; 300]);
    let mut fx = effects();
    let a = [DATA, 300, 0, 0, 0, 0];
    assert_eq!(
        syscalls::dispatch(&mut k, &programs(), sys::LOG, a, 0, &mut fx),
        Outcome::Return(0)
    );
    let line: String = fx.console.iter().collect();
    assert_eq!(line, format!("[] {}\u{2026}\n", "L".repeat(256)));
}

#[test]
fn a_start_is_recorded_once() {
    let mut k = machine();
    registry::on_spawn(&mut k.registry, 3, b"pong");
    registry::on_spawn(&mut k.registry, 4, b"ping");
    registry::on_exit(&mut k.registry, 3, ExitReason::Fault);
    registry::on_spawn(&mut k.registry, 5, b"pong");
    let all = registry::services(&k.registry);
    let named: Vec<_> = all.iter().flatten().filter(|r| r.name.to_vec() == b"pong").collect();
    assert_eq!(named.len(), 1);
    assert_eq!((named[0].task, named[0].starts, named[0].exits), (Some(5), 2, 1));
    assert_eq!(named[0].last_exit, Some(ExitReason::Fault));
    assert_eq!(registry::name(&k.registry, 5).to_vec(), b"pong".to_vec());
}

#[test]
fn names_are_checked() {
    assert!(syscalls::valid_name(b"probe-chan"));
    assert!(!syscalls::valid_name(b"a\nb"));
    assert!(!syscalls::valid_name(b"a b"));
    assert!(!syscalls::valid_name(b"[init]"));
}

#[test]
fn a_fault_ends_one_task_only() {
    let mut k = with_init();
    let mut new_code = Vec::new();
    let t = spawn::spawn_el0(&mut k, &image(), HandleTable::empty(), 0, 0, &mut new_code).unwrap();
    let free = frame_alloc::free_count(&k.frames);
    run(&mut k, t.id as usize);
    assert_eq!(exceptions::task_fault(&mut k, 9), Outcome::Exited);
    assert_eq!(k.sched.tasks[2].state, State::Free);
    assert!(k.sched.tasks[2].space.is_none());
    assert!(frame_alloc::free_count(&k.frames) > free);
    let got = delivery::try_recv(&mut k, ipc::INIT_INBOX, 10).unwrap();
    assert_eq!(got.payload[1], ExitReason::Fault.code());
    assert_eq!(k.sched.tasks[1].state, State::Ready);
    run(&mut k, 1);
    assert_eq!(exceptions::task_fault(&mut k, 9), Outcome::Halt);
    let mut k = machine();
    assert_eq!(exceptions::task_fault(&mut k, 9), Outcome::Halt);
}

#[test]
fn a_slot_is_reused_with_a_new_generation() {
    let mut k = with_init();
    let a = spawn::spawn(&mut k, 0x8_0000).unwrap();
    run(&mut k, a.id as usize);
    lifecycle::retire_current(&mut k, ExitReason::Clean, 0);
    run(&mut k, 1);
    let b = spawn::spawn(&mut k, 0x8_0000).unwrap();
    assert_eq!(b.id, a.id);
    assert_eq!(b.generation, a.generation + 1);
}

#[test]
fn notices_wait_while_the_inbox_is_full() {
    let mut k = with_init();
    let m = Message::new(1);
    for _ in 0..16 {
        assert!(delivery::send(&mut k, 2, &m, 0).is_ok());
    }
    assert_eq!(delivery::send(&mut k, 2, &m, 0), Err(ipc::Error::Full));
    assert_eq!(delivery::send_as_kernel(&mut k, 2, &Message::new(100), 0), Ok(None));
    for _ in 0..16 {
        assert_eq!(delivery::try_dequeue(&mut k, 2, 0).unwrap().unwrap().tag, 1);
    }
    let last = delivery::try_dequeue(&mut k, 2, 0).unwrap().unwrap();
    assert_eq!((last.tag, last.sender), (100, 0));
    assert!(delivery::try_recv(&mut k, 2, 0).is_none());
    assert_eq!(delivery::send(&mut k, 31, &m, 0), Err(ipc::Error::InvalidChannel));
}

#[test]
fn receiving_moves_waiting_notices_up() {
    let notice = Message { tag: 100, sender: 0, len: 0, payload: [0; 4] };
    let full = || {
        let mut k = machine();
        let c = ipc::create(&mut k.ipc).unwrap();
        for _ in 0..16 {
            assert_eq!(delivery::send(&mut k, c, &Message::new(1), 0), Ok(None));
        }
        assert_eq!(delivery::send_as_kernel(&mut k, c, &Message::new(100), 0), Ok(None));
        (k, c)
    };
    let (mut k, c) = full();
    for _ in 0..16 {
        assert!(delivery::try_recv(&mut k, c, 0).is_some());
    }
    assert_eq!(delivery::try_recv(&mut k, c, 0), Some(notice));
    assert_eq!(delivery::try_recv(&mut k, c, 0), None);
    let (mut k, c) = full();
    for _ in 0..16 {
        assert_eq!(delivery::recv(&mut k, c, 0).unwrap().unwrap().tag, 1);
    }
    assert_eq!(delivery::recv(&mut k, c, 0).unwrap(), Some(notice));
    assert_eq!(delivery::recv(&mut k, c, 0).unwrap(), None);
    assert_eq!(k.sched.tasks[0].state, State::Blocked);
}

#[test]
fn tasks_take_turns() {
    let mut k = machine();
    let a = spawn::spawn(&mut k, 0x8_0000).unwrap();
    let b = spawn::spawn(&mut k, 0x8_0000).unwrap();
    let sp = k.sched.tasks[a.id as usize].sp;
    let sw = context::switch_away(&mut k, 0).unwrap();
    assert_eq!(sw.frame, sp);
    assert_eq!(k.sched.current, a.id as usize);
    let own = k.sched.tasks[a.id as usize].sp;
    let sw = lifecycle::scheduler_tick(&mut k, own, 1).unwrap();
    assert_eq!(k.sched.current, b.id as usize);
    assert_eq!(sw.frame, k.sched.tasks[b.id as usize].sp);
    assert_eq!(k.sched.tasks[a.id as usize].state, State::Ready);
}

#[test]
fn an_overrun_stack_is_noticed() {
    let mut k = machine();
    let a = spawn::spawn(&mut k, 0x8_0000).unwrap();
    context::switch_away(&mut k, 0).unwrap();
    let t = a.id as usize;
    let bottom = k.sched.tasks[t].kernel_stack_bottom;
    let sp = k.sched.tasks[t].sp;
    k.mem.write_word(bottom, 0);
    assert_eq!(context::switch_away(&mut k, sp), Err(t));
}

#[test]
fn a_system_call_reads_and_writes_the_saved_frame() {
    let mut k = with_init();
    let frame = k.sched.tasks[1].sp;
    k.mem.write_word(frame + 64, sys::TIME_NS);
    let r = syscalls::syscall_entry(&mut k, &programs(), frame, 777, &mut effects());
    assert_eq!(r, Resume::Caller);
    assert_eq!(k.mem.read_word(frame), 777);
    k.mem.write_word(frame + 64, sys::YIELD);
    match syscalls::syscall_entry(&mut k, &programs(), frame, 778, &mut effects()) {
        Resume::Task(_) => assert_eq!(k.mem.read_word(frame), 0),
        _ => panic!("no switch"),
    }
    k.mem.write_word(frame + 64, sys::EXIT);
    run(&mut k, 1);
    assert_eq!(
        syscalls::syscall_entry(&mut k, &programs(), frame, 779, &mut effects()),
        Resume::Halt
    );
}

#[test]
fn pages_are_mapped_once_and_kept_apart() {
    let mut k = with_init();
    let mut new_code = Vec::new();
    spawn::spawn_el0(&mut k, &image(), HandleTable::empty(), 0, 0, &mut new_code).unwrap();
    let a = k.sched.tasks[1].space.as_ref().unwrap().translate(&k.mem, DATA, true).unwrap();
    let b = k.sched.tasks[2].space.as_ref().unwrap().translate(&k.mem, DATA, true).unwrap();
    assert_ne!(a, b);
    poke(&mut k, DATA, &[1, 2, 3]);
    assert_eq!(k.mem.read_byte(a + 1), 2);
    assert_eq!(k.mem.read_byte(b + 1), 0);
    let mut out = vec![0u8; 3];
    let space = k.sched.tasks[1].space.as_ref().unwrap();
    assert!(addrspace::copy_from_user(space, &k.mem, DATA, &mut out).is_ok());
    assert_eq!(out, vec![1, 2, 3]);
    assert_eq!(
        addrspace::copy_from_user(space, &k.mem, USER_BASE, &mut out),
        Err(Error::BadPointer)
    );
    let stack = USER_BASE + USER_SIZE - USER_STACK_SIZE;
    assert!(space.translate(&k.mem, stack, true).is_some());
    assert!(space.translate(&k.mem, stack - 1, false).is_none());
    assert!(space.translate(&k.mem, USER_BASE + 0x1_0000, false).is_some());
    assert!(space.translate(&k.mem, USER_BASE + 0x1_0000, true).is_none());
}

#[test]
fn a_result_changes_one_register() {
    let mut k = with_init();
    let frame = k.sched.tasks[1].sp;
    for i in 0..31u64 {
        k.mem.write_word(frame + 8 * i, 1000 + i);
    }
    poke_message(&mut k, DATA, &Message::new(7));
    for (nr, a0, a1) in [(sys::SEND, 0, DATA), (sys::TRY_RECV, 0, DATA + 64), (4711, 0, 0)] {
        k.mem.write_word(frame, a0);
        k.mem.write_word(frame + 8, a1);
        k.mem.write_word(frame + 64, nr);
        let r = syscalls::syscall_entry(&mut k, &programs(), frame, 5, &mut effects());
        assert_eq!(r, Resume::Caller);
        assert_eq!(k.mem.read_word(frame + 8), a1);
        assert_eq!(k.mem.read_word(frame + 64), nr);
        for i in 2..31u64 {
            if i != 8 {
                assert_eq!(k.mem.read_word(frame + 8 * i), 1000 + i);
            }
        }
    }
    assert_eq!(k.mem.read_word(frame) as i64, Error::NoSuchSyscall.code());
}
