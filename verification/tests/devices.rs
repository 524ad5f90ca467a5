use freshos::acpi;
use freshos::board;
use freshos::board::Gic;
use freshos::cache;
use freshos::cpu;
use freshos::exceptions;
use freshos::frame_alloc;
use freshos::frame_alloc::{FrameAllocator, MemRegion};
use freshos::gic;
use freshos::heap;
use freshos::irq;
use freshos::mem::PhysMem;
use freshos::mouse;
use freshos::mouse::Access;
use freshos::paging;
use freshos::pci;
use freshos::pci::Ecam;
use freshos::pic;
use freshos::scheduler;
use freshos::scheduler::State;
use freshos::serial;
use freshos::serial::Serial;
use freshos::speaker;
use freshos::speaker::Sound;
use freshos::syscall;
use freshos::syscall::{Call, FbInfo, Pc, Screen, SurfaceInfo};
use freshos::tsc;
use freshos::virtio_gpu;
use freshos::virtio_gpu::{Bus, Failure, Op, Poll, Stage, VirtioGpu};
use freshos::virtio_pci;
use freshos::abi::{tag, Message};
use freshos::ipc;
use freshos::metrics::Metrics;

fn frames(pages: u64) -> FrameAllocator {
    let mut fa = FrameAllocator::new();
    let regions = [MemRegion { start: 0x10_000, pages, usable: true }];
    frame_alloc::init(&mut fa, &regions, 1);
    fa
}

#[test]
fn frames_come_back() {
    let mut fa = frames(8);
    let a = frame_alloc::allocate(&mut fa).unwrap();
    let b = frame_alloc::allocate(&mut fa).unwrap();
    assert_ne!(a, b);
    assert_eq!(frame_alloc::free_count(&fa), 6);
    frame_alloc::deallocate(&mut fa, a);
    assert_eq!(frame_alloc::free_count(&fa), 7);
    let c = frame_alloc::allocate_contiguous(&mut fa, 4).unwrap();
    assert_eq!(c % 4096, 0);
    assert!(frame_alloc::allocate_contiguous(&mut fa, 4).is_none());
    frame_alloc::deallocate_contiguous(&mut fa, c, 4);
    assert_eq!(frame_alloc::allocate_contiguous_aligned(&mut fa, 2, usize::MAX), None);
    assert_eq!(frame_alloc::allocate_contiguous_aligned(&mut fa, usize::MAX, 2), None);
    let d = frame_alloc::allocate_contiguous_aligned(&mut fa, 2, 2).unwrap();
    assert_eq!(d / 4096 % 2, 0);
}

#[test]
fn heap_blocks_split_and_join() {
    let mut fa = frames(300);
    let mut h = heap::init(&mut fa).unwrap();
    assert_eq!((h.used(), h.total()), (0, 1024 * 1024));
    let a = h.allocate(100).unwrap();
    let b = h.allocate(1).unwrap();
    let c = h.allocate(64).unwrap();
    assert_eq!((b - a, c - b), (112, 32));
    assert_eq!(h.used(), 112 + 32 + 64);
    h.deallocate(a, 100);
    h.deallocate(c, 64);
    assert_eq!(h.allocate(100), Some(a));
    h.deallocate(a, 100);
    h.deallocate(b, 1);
    assert_eq!(h.used(), 0);
    assert_eq!(h.allocate(1024 * 1024), Some(a));
    assert_eq!(h.allocate(1), None);
    let mut small = frames(10);
    assert!(heap::init(&mut small).is_none());
}

#[test]
fn a_rest_too_small_for_a_block_is_lost() {
    let mut fa = frames(300);
    let mut h = heap::init(&mut fa).unwrap();
    let all = 1024 * 1024;
    let a = h.allocate(all - 16).unwrap();
    h.deallocate(a, all - 16);
    assert_eq!(h.allocate(all), None);
    assert_eq!(h.allocate(all - 16), Some(a));
}

#[test]
fn user_tables_open_only_their_regions() {
    let mut fa = frames(100);
    let mut m = PhysMem::new(vec![0; 1024 * 1024]);
    let k = paging::init(&mut m, &mut fa).unwrap();
    assert_eq!(paging::kernel_pml4(&k), k.pml4);
    let pdpt = m.read_word(k.pml4) & 0x000F_FFFF_FFFF_F000;
    assert_eq!(m.read_word(k.pml4) & 7, 3);
    assert_eq!(m.read_word(k.pd1 + 8), 0x4000_0000 + 0x20_0000 + 0x83);
    assert_eq!(m.read_word(pdpt + 8), k.pd1 + 3);
    let regions = [(0x40_0000u64, 0x1000u64), (0x8000_0000, 0), (0x3FF_FFFF, 2)];
    let pml4 = paging::create_user_page_table(&mut m, &mut fa, &k, &regions).unwrap();
    let updpt = m.read_word(pml4) & 0x000F_FFFF_FFFF_F000;
    assert_eq!(m.read_word(pml4) & 7, 7);
    assert_eq!(m.read_word(updpt + 8), k.pd1 + 3);
    let pd = m.read_word(updpt) & 0x000F_FFFF_FFFF_F000;
    assert_ne!(pd, k.pd0);
    assert_eq!(m.read_word(pd + 8 * 2), 0x40_0000 + 0x87);
    assert_eq!(m.read_word(pd + 8 * 3), 0x60_0000 + 0x83);
    assert_eq!(m.read_word(pd + 8 * 31), 31 * 0x20_0000 + 0x87);
    assert_eq!(m.read_word(pd + 8 * 32), 32 * 0x20_0000 + 0x87);
    assert!(paging::map_mmio_1gib(&mut m, &mut fa, &k, 0xC0_0000_1234));
    let other = paging::create_user_page_table(&mut m, &mut fa, &k, &regions).unwrap();
    assert_eq!(m.read_word(other + 8), m.read_word(k.pml4 + 8));
    let mut none = frames(3);
    assert!(paging::init(&mut m, &mut none).is_none());
}

#[test]
fn the_pc_scheduler_takes_turns() {
    let mut fa = frames(200);
    let mut m = PhysMem::new(vec![0; 1024 * 1024]);
    let k = paging::init(&mut m, &mut fa).unwrap();
    let mut s = scheduler::init(k.pml4);
    let extra = [(0xFD00_0000u64, 0x1000u64)];
    let id = scheduler::spawn_user(&mut s, &mut m, &mut fa, &k, 0x12_3456, &extra).unwrap();
    assert_eq!((id, scheduler::task_count(&s)), (1, 2));
    let t = s.tasks[1];
    assert_eq!(m.read_word(t.kernel_stack_top - 40), 0x12_3456);
    assert_eq!(m.read_word(t.kernel_stack_top - 8), 0x1B);
    assert_eq!(t.rsp, t.kernel_stack_top - 160);
    let tick = scheduler::scheduler_tick(&mut s, 0x9999);
    assert_eq!(tick.rsp, t.rsp);
    assert_eq!(tick.cr3, Some(t.pml4_phys));
    assert_eq!(tick.rsp0, Some(t.kernel_stack_top));
    assert_eq!(scheduler::current_task(&s), 1);
    scheduler::block_current(&mut s);
    let tick = scheduler::scheduler_tick(&mut s, 0x7777);
    assert_eq!(tick.rsp, 0x9999);
    assert_eq!(tick.rsp0, None);
    assert_eq!(s.tasks[1].state, State::Blocked);
    scheduler::unblock(&mut s, 1);
    assert_eq!(s.tasks[1].state, State::Ready);
    scheduler::unblock(&mut s, 99);
}

#[test]
fn pc_calls_are_decoded() {
    let mut s = Screen::new();
    let fb = FbInfo { address: 0xFD00_0000, width: 800, height: 600, stride: 832, is_bgr: 1 };
    syscall::set_fb_info(&mut s, fb);
    let info = SurfaceInfo { address: 1, width: 2, height: 3, stride: 4 };
    assert_eq!(syscall::add_surface(&mut s, info), 0);
    assert_eq!(syscall::surface_count(&s), 1);
    assert_eq!(syscall::fb_address(&s), 0xFD00_0000);
    assert_eq!(syscall::fb_size(&s), 832 * 600 * 4);
    let d = |nr, a, b, c| syscall::syscall_dispatch(&s, nr, a, b, c, 5);
    assert_eq!(d(syscall::SYS_FBINFO, 9, 0, 0), Call::PutFbInfo(9, fb));
    assert_eq!(d(syscall::SYS_SURFACE_INFO, 0, 8, 0), Call::PutSurface(8, info));
    assert_eq!(d(syscall::SYS_SURFACE_INFO, 1, 8, 0), Call::Return(-1));
    assert_eq!(d(syscall::SYS_BEEP, 440, 9000, 0), Call::Beep(440, 200));
    assert_eq!(d(syscall::SYS_PORT_IN8, 0x1F7, 0, 0), Call::PortIn8(0x1F7));
    assert_eq!(d(syscall::SYS_PORT_OUT8, 0x60, 1, 0), Call::Return(-1));
    assert_eq!(d(syscall::SYS_PORT_INS16, 0x170, 7, 256), Call::PortIns16(0x170, 7, 256));
    assert_eq!(d(syscall::SYS_PRESENT_RECT, 1 + (2 << 32), 3 + (4 << 32), 0), Call::Present(1, 2, 3, 4));
    assert_eq!(d(syscall::SYS_TIME, 0, 0, 0), Call::Return(5));
    assert_eq!(d(1234, 0, 0, 0), Call::Return(-1));
    assert!(syscall::is_port_allowed(0x376));
    assert!(!syscall::is_port_allowed(0x178));
}

#[test]
fn pc_messages_wake_their_receiver() {
    let mut pc = Pc { ipc: ipc::Ipc::new(), sched: scheduler::init(0), metrics: Metrics::new() };
    let id = ipc::create(&mut pc.ipc).unwrap();
    assert_eq!(syscall::sys_recv(&mut pc, 9, 0), Some(Err(-1)));
    assert_eq!(syscall::sys_recv(&mut pc, id, 0), None);
    assert_eq!(pc.sched.tasks[0].state, State::Blocked);
    assert_eq!(syscall::sys_send(&mut pc, id, &irq::mouse_message(7), 3), 0);
    assert_eq!(pc.sched.tasks[0].state, State::Ready);
    match syscall::sys_recv(&mut pc, id, 5) {
        Some(Ok(m)) => assert_eq!((m.tag, m.payload[0]), (tag::MOUSE_RAW, 7)),
        _ => panic!("no message"),
    }
    assert_eq!(syscall::sys_send(&mut pc, 9, &Message::new(1), 3), -1);
    for _ in 0..16 {
        assert_eq!(syscall::sys_send(&mut pc, id, &Message::new(1), 3), 0);
    }
    assert!(syscall::send_as_kernel(&mut pc, id, &Message::new(100), 3).is_ok());
    assert!(syscall::send_as_kernel(&mut pc, 9, &Message::new(100), 3).is_err());
    for _ in 0..16 {
        assert!(matches!(syscall::sys_recv(&mut pc, id, 5), Some(Ok(m)) if m.tag == 1));
    }
    assert_eq!(syscall::sys_recv(&mut pc, id, 5), Some(Ok(Message::new(100))));
    assert_eq!(syscall::sys_recv(&mut pc, id, 5), None);
}

#[test]
fn interrupts_become_messages() {
    let m = irq::keyboard_message(0x1E, 99);
    assert_eq!((m.tag, m.len, m.payload), (tag::IRQ, 2, [0x1E, 99, 0, 0]));
    let m = irq::mouse_message(0x28);
    assert_eq!((m.tag, m.len, m.payload), (tag::MOUSE_RAW, 1, [0x28, 0, 0, 0]));
}

#[test]
fn the_interrupt_controllers_are_programmed() {
    let w = pic::init();
    assert_eq!(w.len(), 18);
    assert_eq!(w[4], (0x21, 32));
    assert_eq!(w[17], (0xA1, 0xFF));
    assert_eq!(pic::unmask(1, 0xFF), 0xFD);
    assert_eq!(pic::unmask(12, 0xFF), 0xEF);
    assert_eq!(pic::mask_port(12), 0xA1);
    assert_eq!(pic::eoi(1), vec![(0x20, 0x20)]);
    assert_eq!(pic::eoi(12), vec![(0xA0, 0x20), (0x20, 0x20)]);
    assert_eq!(gic::acknowledge(&Gic::V2(0, 0), 0xFFFF_FC1B), 27);
    assert_eq!(gic::acknowledge(&Gic::V3(0, 0), 0x100_001B), 27);
    let v2 = Gic::V2(0x1000, 0x2000);
    let (ops, stage) = gic::init(&v2, gic::Stage::Start, 0);
    assert_eq!((ops[0], ops[3]), (gic::Op::Write(0x1000, 0), gic::Op::Read(0x1418)));
    let (ops, stage) = gic::init(&v2, stage, 0xA0A0_A0A0);
    assert_eq!(ops[0], gic::Op::Write(0x1418, 0x00A0_A0A0));
    assert_eq!((ops[4], stage), (gic::Op::Write(0x2000, 3), gic::Stage::Done));
    assert_eq!(gic::end_of_interrupt(&v2, 27), gic::Op::Write(0x2010, 27));
    let v3 = Gic::V3(0x1000, 0x10_0000);
    let (ops, stage) = gic::init(&v3, gic::Stage::Start, 0);
    assert_eq!((ops[0], ops[2]), (gic::Op::Write(0x1000, 0x13), gic::Op::Read(0x10_0014)));
    let (ops, stage) = gic::init(&v3, stage, 7);
    assert_eq!(ops[0], gic::Op::Write(0x10_0014, 5));
    let (ops, stage) = gic::init(&v3, stage, 4);
    assert_eq!((ops, stage), (vec![gic::Op::Read(0x10_0014)], gic::Stage::Waking));
    let (ops, stage) = gic::init(&v3, stage, 3);
    assert_eq!((ops, stage), (vec![gic::Op::Read(0x11_0080)], gic::Stage::Group));
    let (ops, stage) = gic::init(&v3, stage, 1);
    assert_eq!(ops, vec![gic::Op::Write(0x11_0080, 0x800_0001), gic::Op::Read(0x11_0418)]);
    let (ops, stage) = gic::init(&v3, stage, 0xA0A0_A0A0);
    assert_eq!(ops[0], gic::Op::Write(0x11_0418, 0x00A0_A0A0));
    assert_eq!((ops[1], stage), (gic::Op::Write(0x11_0100, 0x800_0000), gic::Stage::System));
    let (ops, stage) = gic::init(&v3, stage, 6);
    assert_eq!(ops[0], gic::Op::WriteSystem(gic::SystemRegister::Enable, 7));
    assert_eq!((ops.len(), stage), (5, gic::Stage::Done));
    let end = gic::Op::WriteSystem(gic::SystemRegister::End, 27);
    assert_eq!(gic::end_of_interrupt(&v3, 27), end);
    assert_eq!(board::qemu_virt().name, "QEMU virt");
    assert!(board::rpi4().virtio_mmio.is_none());
}

#[test]
fn counters_become_time() {
    assert_eq!(tsc::ticks_to_ns(3_000_000, 3_000_000_000), 1_000_000);
    assert_eq!(tsc::ticks_to_us(3_000_000, 3_000_000_000), 1000);
    assert_eq!(tsc::now_ns(5, 0), 0);
    assert_eq!(tsc::calibrate(30_000_000), 2_999_954_743);
    assert_eq!(tsc::time_ns(62_500_001, 62_500_000), 1_000_000_016);
    assert_eq!(tsc::time_ns(18_446_744_073, 1), 18_446_744_073_000_000_000);
    assert_eq!(tsc::time_ns(99, 0), 0);
    assert_eq!(tsc::interval(62_500_000, 1000), 62_500);
    assert_eq!(tsc::pit_divisor(1000), (0xA9, 0x04));
}

#[test]
fn tones_are_programmed() {
    assert!(speaker::beep(0, 5).is_none());
    let t = speaker::beep(440, 5).unwrap();
    assert_eq!(t.setup, vec![(0x43, 0xB6), (0x42, 0x97), (0x42, 0x0A)]);
    assert_eq!(t.duration_ns, 5_000_000);
    assert_eq!(speaker::speaker_on(0x10), 0x13);
    assert_eq!(speaker::speaker_off(0x13), 0x10);
    assert_eq!(speaker::pause(20), 20_000_000);
    assert!(speaker::still_waiting(5, 3, 10));
    assert!(!speaker::still_waiting(13, 3, 10));
    assert_eq!(speaker::boot_chime()[6], Sound::Tone(1047, 120));
}

#[test]
fn serial_lines_get_returns() {
    let mut s = Serial { out: Vec::new() };
    s.write_str(b"a\nb");
    s.write_byte_raw(b'\n');
    assert_eq!(s.out, b"a\r\nb\n".to_vec());
    assert_eq!(serial::serial_write_byte(0x20, 7), None);
    assert_eq!(serial::serial_write_byte(0, 7), Some(7));
    assert_eq!(serial::serial_try_read(0x10, 0x41), None);
    assert_eq!(serial::serial_try_read(0, 0x141), Some(0x41));
}

#[test]
fn the_mouse_is_brought_up() {
    assert!(mouse::can_write(0x01) && !mouse::can_write(0x03));
    assert!(mouse::can_read(0x01) && !mouse::can_read(0x02));
    assert_eq!(mouse::enable()[2], Access::Read);
    let w = mouse::stream(0x45);
    assert_eq!(w.len(), 8);
    assert_eq!(w[1], Access::Write(0x60, 0x47));
    assert_eq!(w[3], Access::Write(0x60, 0xF6));
    assert_eq!(w[6], Access::Write(0x60, 0xF4));
}

#[test]
fn boot_sets_the_control_registers() {
    let s = cpu::plan(0x0012_0000_4567_8ABC, 0x0040_0019, 0x0020_0000, 0x0088_0001);
    assert!(s.pan);
    assert_eq!((s.sctlr, s.tcr, s.root, s.t0sz), (1, 0x19, 0x4567_8000, 25));
    let s = cpu::plan(0, 0, 0x0F0F_FFFF, 0x0088_0001);
    assert!(!s.pan);
    assert_eq!(s.sctlr, 0x0080_0001);
    assert_eq!(cpu::with_fp(1), 0x30_0001);
    assert_eq!(serial::pl011_enable(), [(0x30, 0), (0x2C, 0x70), (0x30, 0x301)]);
}

#[test]
fn cache_lines_cover_a_range() {
    assert_eq!(cache::cache_lines(70, 60, 64), vec![64, 128]);
    assert_eq!(cache::cache_lines(64, 0, 64), Vec::<u64>::new());
    assert_eq!(cache::sync_icache(0, 100, 4 << 16), vec![0, 64]);
    assert_eq!(virtio_gpu::clean_cache_range(0, 65), vec![0, 64]);
}

#[test]
fn exceptions_have_names() {
    assert_eq!(exceptions::exception_class(0x9200_0045), 0x24);
    assert_eq!(exceptions::class_name(0x24), "Data abort (lower EL)");
    assert_eq!(exceptions::class_name(0x3F), "unknown");
}

fn w32(m: &mut Vec<u8>, at: usize, v: u32) {
    m[at..at + 4].copy_from_slice(&v.to_le_bytes());
}

fn w64(m: &mut Vec<u8>, at: usize, v: u64) {
    m[at..at + 8].copy_from_slice(&v.to_le_bytes());
}

#[test]
fn the_mcfg_table_is_found() {
    let mut b = vec![0u8; 0x1000];
    b[0x100..0x108].copy_from_slice(b"RSD PTR ");
    b[0x100 + 15] = 2;
    w64(&mut b, 0x118, 0x200);
    w32(&mut b, 0x204, 36 + 16);
    w64(&mut b, 0x224, 0x300);
    w64(&mut b, 0x22C, 0x400);
    b[0x300..0x304].copy_from_slice(b"APIC");
    b[0x400..0x404].copy_from_slice(b"MCFG");
    w32(&mut b, 0x404, 44 + 16);
    w64(&mut b, 0x400 + 44, 0xE000_0000);
    b[0x400 + 54] = 0;
    b[0x400 + 55] = 255;
    let mut old = b.clone();
    let m = PhysMem::new(b);
    assert_eq!(acpi::init(&m, 0x100), Some(0x400));
    assert_eq!(acpi::init(&m, 0), None);
    assert_eq!(acpi::init(&m, 0x200), None);
    assert_eq!(
        pci::init(&m, 0x400),
        Some(Ecam { base: 0xE000_0000, start_bus: 0, end_bus: 255 })
    );
    old[0x100 + 15] = 0;
    w32(&mut old, 0x110, 0x500);
    w32(&mut old, 0x504, 36 + 4);
    w32(&mut old, 0x524, 0x400);
    assert_eq!(acpi::init(&PhysMem::new(old), 0x100), Some(0x400));
}

/// Configuration space of eight buses, at the lowest place it may be.
fn config() -> (Vec<u8>, Ecam) {
    let base = 0x1000_0000usize;
    let mut b = vec![0u8; base];
    b.extend(vec![0xFFu8; 8 << 20]);
    let dev = base + (1 << 20) + (3 << 15);
    for (off, v) in [(0u16, 0x1234u16), (2, 1)] {
        b[dev + off as usize..dev + off as usize + 2].copy_from_slice(&v.to_le_bytes());
    }
    let gpu = dev + (2 << 12);
    for i in 0..4096 {
        b[gpu + i] = 0;
    }
    b[gpu..gpu + 2].copy_from_slice(&0x1AF4u16.to_le_bytes());
    b[gpu + 2..gpu + 4].copy_from_slice(&0x1050u16.to_le_bytes());
    b[gpu + 0x34] = 0x40;
    for (at, next, kind, bar, off) in [(0x40, 0x60, 1u8, 4u8, 0u32), (0x60, 0, 2, 4, 0x3000)] {
        b[gpu + at] = 9;
        b[gpu + at + 1] = next;
        b[gpu + at + 3] = kind;
        b[gpu + at + 4] = bar;
        b[gpu + at + 8..gpu + at + 12].copy_from_slice(&off.to_le_bytes());
    }
    b[gpu + 0x60 + 16] = 4;
    b[gpu + 0x20..gpu + 0x24].copy_from_slice(&0x0000_000Cu32.to_le_bytes());
    b[gpu + 0x24..gpu + 0x28].copy_from_slice(&0xC0u32.to_le_bytes());
    (b, Ecam { base: base as u64, start_bus: 0, end_bus: 7 })
}

#[test]
fn pci_functions_are_found() {
    let (b, ecam) = config();
    let m = PhysMem::new(b);
    let dev = pci::find_device(&m, &ecam, 0x1AF4, 0x1050).unwrap();
    assert_eq!((dev.bus, dev.slot, dev.func), (1, 3, 2));
    assert!(pci::find_device(&m, &ecam, 0x1AF4, 0x1051).is_none());
    assert_eq!(pci::scan_bus(&m, &ecam).len(), 2);
    assert_eq!(dev.get_bar0(&m, &ecam), 0);
    let caps = virtio_pci::capabilities(&m, &ecam, &dev).unwrap();
    assert_eq!((caps[1].bar, caps[2].offset, caps[2].notify_off_multiplier), (4, 0x3000, 4));
    let (base, addr) = virtio_pci::get_addr(&m, &ecam, &dev, &caps[2]);
    assert_eq!((base, addr), (0xC0_0000_0000, Some(0xC0_0000_3000)));
    assert_eq!(virtio_gpu::notify_addr(addr.unwrap(), 2, 4), Some(0xC0_0000_3008));
    let none = Ecam { base: 0, ..ecam };
    assert!(pci::find_device(&m, &none, 0x1AF4, 0x1050).is_none());
}

#[test]
fn the_gpu_is_probed_among_the_slots() {
    let mut slots = vec![(0u32, 0u32); 32];
    slots[3] = (virtio_gpu::VIRTIO_MAGIC, 1);
    slots[7] = (virtio_gpu::VIRTIO_MAGIC, 16);
    assert_eq!(virtio_gpu::probe_gpu(&slots), Some(0x0a00_0000 + 7 * 0x200));
    slots[7].0 = 0;
    assert_eq!(virtio_gpu::probe_gpu(&slots), None);
}

fn answer(m: &mut PhysMem, g: &VirtioGpu, kind: u32) {
    let resp = g.queue_page + virtio_gpu::RESP_OFFSET;
    m.write_slice(resp, &kind.to_le_bytes());
    let used = g.avail_idx.to_le_bytes();
    m.write_slice(g.queue_page + virtio_gpu::USED_OFFSET + 2, &used);
}

#[test]
fn the_gpu_comes_up() {
    let mut fa = frames(200);
    let mut m = PhysMem::new(vec![0; 1024 * 1024]);
    let mut g = VirtioGpu::new(Bus::Mmio);
    assert_eq!(g.init(&mut m, &mut fa, 0).unwrap().len(), 9);
    assert_eq!(g.init(&mut m, &mut fa, 11).unwrap()[1], Op::Read32(virtio_gpu::QUEUE_NUM_MAX));
    let ops = g.init(&mut m, &mut fa, 64).unwrap();
    assert_eq!(ops[9], Op::Notify);
    assert_eq!(ops[1], Op::Write32(virtio_gpu::QUEUE_DESC_LOW, g.queue_page as u32));
    assert_eq!(m.read_u32(g.queue_page + 0x400), virtio_gpu::CMD_GET_DISPLAY_INFO);
    assert_eq!(g.poll_used(&m, 1, 0), Poll::Again);
    assert_eq!(g.poll_used(&m, 1, virtio_gpu::MAX_POLLS - 1), Poll::NotResponding);
    answer(&mut m, &g, virtio_gpu::RESP_OK_DISPLAY_INFO);
    let resp = g.queue_page + virtio_gpu::RESP_OFFSET;
    m.write_slice(resp + 32, &160u32.to_le_bytes());
    m.write_slice(resp + 36, &100u32.to_le_bytes());
    assert_eq!(g.poll_used(&m, 1, 5), Poll::Done);
    g.init(&mut m, &mut fa, 0).unwrap();
    assert_eq!((g.width, g.height, g.stage), (160, 100, Stage::Create));
    for stage in [Stage::Attach, Stage::Scanout, Stage::Transfer, Stage::Flush] {
        answer(&mut m, &g, virtio_gpu::RESP_OK_NODATA);
        assert_eq!(g.init(&mut m, &mut fa, 0), Ok(vec![Op::Notify]));
        assert_eq!(g.stage, stage);
    }
    answer(&mut m, &g, virtio_gpu::RESP_OK_NODATA);
    assert_eq!(g.init(&mut m, &mut fa, 0), Ok(Vec::new()));
    assert_eq!(g.stage, Stage::Ready);
    let (start, len) = g.present_rect(&mut m, 8, 4, 16, 2);
    assert_eq!((start, len), (g.backing_phys + 4 * 640 + 32, 2 * 640));
    assert_eq!(m.read_u32(g.queue_page + 0x400), virtio_gpu::CMD_TRANSFER_TO_HOST_2D);
    assert_eq!(m.read_word(g.queue_page + 0x400 + 40), (4 * 160 + 8) * 4);
    assert_eq!(m.read_u32(g.queue_page + 0x480), virtio_gpu::CMD_RESOURCE_FLUSH);
    assert_eq!(g.check_responses(&m), Err(Failure::BadResponse(0)));
    let (start, len) = g.present_full(&mut m);
    assert_eq!((start, len), (g.backing_phys, 100 * 640));
    let commands = |m: &PhysMem| -> Vec<u8> {
        (0..256).map(|i| m.read_byte(g.queue_page + 0x400 + i)).collect()
    };
    let full = commands(&m);
    let mut h = VirtioGpu { avail_idx: g.avail_idx.wrapping_sub(2), ..g };
    assert_eq!(h.present_rect(&mut m, 0, 0, 160, 100), (start, len));
    assert_eq!(commands(&m), full);
    assert_eq!(h.avail_idx, g.avail_idx);
}

#[test]
fn gpu_failures_are_told_apart() {
    let mut fa = frames(200);
    let mut m = PhysMem::new(vec![0; 1024 * 1024]);
    let mut g = VirtioGpu::new(Bus::Mmio);
    g.init(&mut m, &mut fa, 0).unwrap();
    assert_eq!(g.init(&mut m, &mut fa, 3), Err(Failure::FeaturesRejected));
    g.init(&mut m, &mut fa, 11).unwrap();
    assert_eq!(g.init(&mut m, &mut fa, 8), Err(Failure::QueueTooSmall(8)));
    let mut empty = FrameAllocator::new();
    assert_eq!(g.init(&mut m, &mut empty, 16), Err(Failure::OutOfMemory));
    g.init(&mut m, &mut fa, 16).unwrap();
    g.init(&mut m, &mut fa, 0).unwrap();
    assert_eq!((g.width, g.height), (800, 600));
    answer(&mut m, &g, 0x1200);
    assert_eq!(g.init(&mut m, &mut fa, 0), Err(Failure::BadResponse(0x1200)));
    let mut p = VirtioGpu::new(Bus::Pci);
    assert_eq!(p.init(&mut m, &mut fa, 0).unwrap()[0], Op::Write8(20, 0));
    assert_eq!(p.init(&mut m, &mut fa, 1), Ok(vec![Op::Read8(20)]));
    p.stage = Stage::Reset(virtio_gpu::RESET_SPINS);
    assert_eq!(p.init(&mut m, &mut fa, 1), Err(Failure::ResetStuck));
    assert_eq!(p.init(&mut m, &mut fa, 0).unwrap().len(), 8);
}
