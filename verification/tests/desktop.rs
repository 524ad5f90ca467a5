use freshos::abi::tag;
use freshos::abi::Message;
use freshos::boot;
use freshos::boot_images::{BootImages, Builtin};
use freshos::chrome;
use freshos::compositor;
use freshos::compositor::{Compositor, Next, Present, Progress};
use freshos::dashboard;
use freshos::dashboard::Dashboard;
use freshos::delivery;
use freshos::desktop;
use freshos::desktop::Rect;
use freshos::font::{AaFont, Font, Glyph, Glyphs};
use freshos::frame_alloc;
use freshos::frame_alloc::{FrameAllocator, MemRegion};
use freshos::framebuffer;
use freshos::framebuffer::{Color, Framebuffer};
use freshos::addrspace::KernelMap;
use freshos::init_abi;
use freshos::init_abi::Services;
use freshos::ipc;
use freshos::ipc::TraceEntry;
use freshos::kernel::Kernel;
use freshos::lifecycle;
use freshos::mem::PhysMem;
use freshos::metrics;
use freshos::metrics::Metrics;
use freshos::probes;
use freshos::probes::Step;
use freshos::scripting;
use freshos::service_abi;
use freshos::service_abi::{ExternalEntries, ServiceMessage};
use freshos::shell;
use freshos::shell::{LineBuf, Shell};
use freshos::syscalls::Programs;
use freshos::task_names;
use freshos::task_names::TaskNames;

const WHITE: Color = Color { r: 255, g: 255, b: 255 };
const BLACK: Color = Color { r: 0, g: 0, b: 0 };

/// Every glyph is solid, but the space, which is empty.
fn font() -> AaFont {
    let space = Glyph { ch: ' ', cells: vec![0; 160] };
    AaFont {
        width: 10,
        height: 16,
        glyphs: Glyphs { known: vec![space], other: vec![255; 160] },
    }
}

fn blank(w: usize, h: usize) -> Framebuffer {
    Framebuffer::new(vec![0; w * h], w, h, w, true)
}

#[test]
fn pixels_read_back() {
    for bgr in [true, false] {
        let mut fb = Framebuffer::new(vec![0; 12 * 4], 10, 4, 12, bgr);
        let c = Color::new(1, 2, 3);
        fb.put_pixel(9, 3, c);
        assert_eq!(fb.read_pixel(9, 3), c);
        assert_eq!(fb.base_ptr()[3 * 12 + 9], if bgr { 0x010203 } else { 0x030201 });
        fb.put_pixel(10, 0, c);
        fb.put_pixel(0, 4, c);
        assert_eq!(fb.read_pixel(10, 0), BLACK);
        assert_eq!(fb.base_ptr()[10], 0);
        assert_eq!((fb.width(), fb.height(), fb.stride(), fb.is_bgr()), (10, 4, 12, bgr));
    }
}

#[test]
fn rectangles_are_clipped() {
    let mut fb = blank(8, 8);
    fb.draw_rect(6, 6, 100, 100, WHITE);
    assert_eq!(fb.base_ptr().iter().filter(|p| **p != 0).count(), 4);
    fb.clear(WHITE);
    assert_eq!(fb.base_ptr().iter().filter(|p| **p != 0).count(), 64);
    fb.draw_rect(9, 0, 1, 1, BLACK);
    assert_eq!(fb.read_pixel(7, 7), WHITE);
}

#[test]
fn surfaces_are_copied() {
    let mut src = blank(4, 4);
    src.put_pixel(1, 1, WHITE);
    src.put_pixel(2, 2, Color::new(9, 0, 0));
    let mut dst = blank(6, 6);
    dst.blit(&src, 4, 4);
    assert_eq!(dst.read_pixel(5, 5), WHITE);
    dst.copy_rect_from(&src, 2, 2, 9, 9, 0, 0);
    assert_eq!(dst.read_pixel(0, 0), Color::new(9, 0, 0));
    let mut half = blank(2, 2);
    half.blit_scaled_half(&src, 0, 0);
    assert_eq!(half.read_pixel(1, 1), Color::new(9, 0, 0));
    let mut all = blank(4, 4);
    src.copy_to(&mut all);
    assert_eq!(all.read_pixel(1, 1), WHITE);
    src.copy_rect_to(&mut all, 1, 1, 1, 1, 3, 0);
    assert_eq!(all.read_pixel(3, 0), WHITE);
}

#[test]
fn text_is_drawn_in_both_fonts() {
    let bit = Font {
        width: 8,
        height: 1,
        glyphs: Glyphs { known: vec![Glyph { ch: 'a', cells: vec![0x81] }], other: vec![0] },
    };
    let mut fb = blank(40, 4);
    fb.draw_string(&bit, 0, 0, "aa", WHITE, 2);
    let row: Vec<usize> = (0..40).filter(|x| fb.read_pixel(*x, 1) == WHITE).collect();
    assert_eq!(row, vec![0, 1, 14, 15, 18, 19, 32, 33]);
    assert_eq!(fb.read_pixel(0, 2), BLACK);
    fb.draw_char(&bit, 3, 3, 'a', WHITE, 1);
    assert_eq!(fb.read_pixel(10, 3), WHITE);
    let mut fb = blank(40, 40);
    fb.draw_aa_string(&font(), 0, 0, "x y", WHITE, BLACK);
    assert_eq!(fb.read_pixel(9, 15), WHITE);
    assert_eq!(fb.read_pixel(10, 0), BLACK);
    assert_eq!(fb.read_pixel(29, 0), WHITE);
    fb.draw_aa_string_2x(&font(), 0, 20, "x", WHITE, BLACK);
    assert_eq!(fb.read_pixel(19, 39), WHITE);
    fb.draw_aa_char(&font(), 30, 0, 'z', Color::new(1, 2, 3), BLACK);
    assert_eq!(fb.read_pixel(30, 0), Color::new(1, 2, 3));
    assert_eq!(framebuffer::blend(WHITE, BLACK, 51), Color::new(51, 51, 51));
}

#[test]
fn numbers_and_times_are_formatted() {
    let s = |v: Vec<char>| v.into_iter().collect::<String>();
    assert_eq!(s(desktop::fmt_hms(3_661_000_000_000)), "01:01:01");
    assert_eq!(s(desktop::fmt_latency(0)), "0us");
    assert_eq!(s(desktop::fmt_latency(999)), "999us");
    assert_eq!(s(desktop::fmt_latency(1000)), "1.0ms");
    assert_eq!(s(desktop::fmt_latency(999_999_999)), "999999.9ms");
    assert_eq!(s(desktop::fmt_u64(0, 16)), "0");
    assert_eq!(s(desktop::fmt_u64(u64::MAX, 16)), "1844674407370955");
    assert_eq!(s(boot::fmt_simple("Memory ", 7, " MB")), "Memory 7 MB");
    let even = "\u{e9}".repeat(31);
    assert_eq!(s(boot::fmt_simple(&even, 7, "")), "\u{e9}".repeat(30) + "7");
    assert_eq!(s(boot::fmt_simple(&format!("a{even}"), 7, "")), "?");
    assert_eq!(s(boot::fmt_simple("", 7, &"x".repeat(80))), "7".to_string() + &"x".repeat(63));
    assert_eq!(s(boot::fmt_u64_str(1200)), "1200");
    assert_eq!(desktop::hud_metric_bucket(12_345), 12);
    assert_eq!(desktop::hud_metric_bucket(1234), 12);
    assert_eq!(desktop::hud_metric_bucket(99), 1);
    assert_eq!(desktop::color_of_latency(2000), desktop::rgb(desktop::ORANGE));
    assert_eq!(desktop::rgb(0x010203), Color::new(1, 2, 3));
}

#[test]
fn rectangles_unite_and_meet() {
    let a = Rect { x: 1, y: 1, w: 4, h: 4 };
    let b = Rect { x: 3, y: 0, w: 4, h: 2 };
    assert_eq!(desktop::rect_union(a, b), Rect { x: 1, y: 0, w: 6, h: 5 });
    assert_eq!(desktop::rect_intersection(a, b), Some(Rect { x: 3, y: 1, w: 2, h: 1 }));
    assert_eq!(desktop::rect_intersection(a, Rect { x: 5, y: 1, w: 4, h: 4 }), None);
    let mut d = None;
    desktop::extend_damage(&mut d, a);
    desktop::extend_damage(&mut d, b);
    assert_eq!(d, Some(Rect { x: 1, y: 0, w: 6, h: 5 }));
    assert_eq!(desktop::outer_rect_for_window(1, 100), Rect { x: 0, y: 70, w: 624, h: 432 });
}

#[test]
fn bars_and_panels_are_drawn() {
    let f = font();
    let menu = chrome::build_menu_bar_cache(&f, 800, true);
    assert_eq!((menu.width(), menu.height()), (800, 27));
    let mut fb = blank(800, 600);
    chrome::draw_menu_bar(&mut fb, &f, &menu, 800, 0, 1500, 3);
    assert_eq!(fb.read_pixel(800 - 92, 5), desktop::rgb(desktop::TEXT));
    assert_eq!(fb.read_pixel(800 - 92 - 12 - 58, 5), desktop::rgb(desktop::GREEN));
    chrome::draw_taskbar(&mut fb, &f, 800, 600, 0);
    assert_eq!(fb.read_pixel(294, 570), desktop::rgb(desktop::GREEN));
    let stats = chrome::build_stats_overlay_cache(&f, true);
    let mut hist = [0u64; 16];
    hist[5] = 6000;
    let m = Metrics::new();
    chrome::draw_stats_overlay(&mut fb, &f, &stats, 800, 0, metrics::snapshot(&m), &hist, 5, 1, 2);
    let y = 26 + 12 + 8 + 148;
    assert_eq!(fb.read_pixel(594, y), desktop::rgb(desktop::RED));
    assert_eq!(fb.read_pixel(594 + 11, y + 5), desktop::rgb(desktop::PANEL_BG));
    let mut fb = blank(200, 200);
    chrome::draw_desktop_icons(&mut fb, &f);
    assert_eq!(fb.read_pixel(30, 50), BLACK);
    assert_eq!(fb.read_pixel(34, 50), Color::new(0x20, 0x25, 0x30));
}

fn compositor_at_rest() -> (Compositor, Framebuffer, Framebuffer, Framebuffer, Metrics) {
    let mut bb = blank(1280, 800);
    let c = Compositor::new(font(), &mut bb, true);
    let mut shell = blank(620, 400);
    shell.clear(WHITE);
    (c, bb, shell, blank(620, 400), Metrics::new())
}

fn frame(
    c: &mut Compositor,
    bb: &mut Framebuffer,
    m: &mut Metrics,
    s: &Framebuffer,
    d: &Framebuffer,
    from: u64,
) -> (Option<Present>, String) {
    let mut p = Progress::Idle;
    let mut shown = None;
    let mut log = Vec::new();
    let mut now = from;
    loop {
        match compositor::compositor_el1(c, &mut p, bb, m, s, d, now, 3, 2, &mut log) {
            Next::Go => {}
            Next::Show(x) => shown = Some(x),
            Next::Wait => return (shown, log.into_iter().collect()),
        }
        now += 1000;
    }
}

#[test]
fn the_first_frame_is_presented_in_full() {
    let (mut c, mut bb, s, d, mut m) = compositor_at_rest();
    let (shown, _) = frame(&mut c, &mut bb, &mut m, &s, &d, 1_000_000);
    assert!(matches!(shown, Some(Present::Full)));
    assert_eq!(bb.read_pixel(640, 400), WHITE);
    assert_eq!(metrics::snapshot(&m).background_us.latest, 1);
    assert_eq!(metrics::snapshot(&m).frame_us.latest, 7);
    assert_eq!(metrics::snapshot(&m).windows_us.latest, 1);
    assert_eq!(metrics::snapshot(&m).chrome_us.latest, 1);
    assert_eq!(metrics::snapshot(&m).present_us.latest, 1);
    let (shown, log) = frame(&mut c, &mut bb, &mut m, &s, &d, 2_000_000);
    assert!(shown.is_none());
    assert_eq!(log, "");
    let (_, log) = frame(&mut c, &mut bb, &mut m, &s, &d, 1_000_000_000);
    assert_eq!(log, "[comp] redraws=1 content=1\n");
    c.state.frames = 239;
    c.state.menu_dirty = true;
    let (_, log) = frame(&mut c, &mut bb, &mut m, &s, &d, 1_100_000_000);
    assert!(log.starts_with("[metrics] frame="), "{log}");
    assert!(log.ends_with("us photon=0us ipc_rtt=0us wake=0us\n"), "{log}");
}

#[test]
fn damage_is_presented_alone() {
    let (mut c, mut bb, mut s, d, mut m) = compositor_at_rest();
    frame(&mut c, &mut bb, &mut m, &s, &d, 1_000_000);
    s.put_pixel(5, 6, Color::new(9, 9, 9));
    metrics::mark_shell_surface_damage(&mut m, 900_000, 5, 6, 1, 1);
    let (shown, log) = frame(&mut c, &mut bb, &mut m, &s, &d, 1_100_000);
    let parts = match shown {
        Some(Present::Parts(v)) => v,
        _ => panic!("no parts"),
    };
    let r = parts[0];
    assert_eq!((r.w, r.h), (1, 1));
    assert_eq!(bb.read_pixel(r.x, r.y), Color::new(9, 9, 9));
    assert_eq!(log, "[photon] 206us\n");
    let mut display = blank(1280, 800);
    compositor::flip(&bb, &mut display, &Present::Parts(parts));
    assert_eq!(display.read_pixel(r.x, r.y), Color::new(9, 9, 9));
    assert_eq!(display.read_pixel(r.x + 1, r.y), BLACK);
}

fn key(ch: u8) -> Message {
    probes::keyboard_el1(Some(ch), 7).unwrap()
}

#[test]
fn keys_switch_workspaces_or_go_to_the_shell() {
    let (mut c, _, _, _, _) = compositor_at_rest();
    assert!(c.key(&key(b'x')));
    assert!(!c.key(&key(b'1')));
    assert_eq!(c.state.active_ws, 0);
    assert!(!c.key(&key(b'\t')));
    assert_eq!((c.state.active_ws, c.state.pending_input_ns), (1, 7));
    assert!(!c.key(&key(b'x')));
    assert!(!c.key(&key(b'`')));
    assert_eq!(c.state.active_ws, 0);
    assert!(!c.key(&key(b'2')));
    assert_eq!(c.state.active_ws, 1);
    assert!(!c.key(&Message::new(tag::PING)));
}

#[test]
fn keys_are_taken_from_the_keyboard() {
    let (mut c, _, _, _, _) = compositor_at_rest();
    let mut k = machine();
    assert!(!compositor::take_key(&mut c, &mut k, 1, 2));
    for _ in 0..2 {
        ipc::create(&mut k.ipc).unwrap();
    }
    assert!(!compositor::take_key(&mut c, &mut k, 1, 2));
    for ch in [b'x', b'2', b'y'] {
        delivery::send(&mut k, desktop::CH_KBD_EVENTS, &key(ch), 1).unwrap();
    }
    for _ in 0..3 {
        assert!(compositor::take_key(&mut c, &mut k, 1, 2));
    }
    assert!(!compositor::take_key(&mut c, &mut k, 1, 2));
    assert_eq!(c.state.active_ws, 1);
    let sent = delivery::try_recv(&mut k, desktop::CH_SHELL_KEYS, 3).unwrap();
    assert_eq!(sent.payload[0], b'x' as u64);
    assert!(delivery::try_recv(&mut k, desktop::CH_SHELL_KEYS, 3).is_none());
}

fn machine() -> Kernel {
    let mut fa = FrameAllocator::new();
    let regions = [MemRegion { start: 0x10_000, pages: 200, usable: true }];
    frame_alloc::init(&mut fa, &regions, 1);
    let map = KernelMap { l1: 0x1000, l1_entries: 64, ram_memory_type: 0x4 };
    lifecycle::boot(PhysMem::new(vec![0; 1024 * 1024]), fa, map, 0x1000)
}

struct Desk {
    sh: Shell,
    s: Services,
    names: TaskNames,
    k: Kernel,
    programs: Programs,
}

impl Desk {
    fn new() -> Desk {
        let mut k = machine();
        let sh = Shell::new(blank(620, 400), &font(), &mut k.metrics);
        let programs = Programs {
            images: BootImages::new(),
            builtins: vec![Builtin { name: b"dash".to_vec(), entry: 0x1234 }],
        };
        Desk { sh, s: Services::new(), names: TaskNames::new(), k, programs }
    }

    fn press(&mut self, ch: u8) {
        let mut code = Vec::new();
        shell::shell_el1(
            &mut self.sh,
            &font(),
            &mut self.s,
            &mut self.names,
            &mut self.k,
            &self.programs,
            &mut code,
            &key(ch),
        );
    }

    fn enter(&mut self, line: &str) -> String {
        self.sh.screen.console.clear();
        for b in line.bytes() {
            self.press(b);
        }
        self.press(b'\n');
        self.sh.screen.console.iter().collect()
    }
}

#[test]
fn the_shell_edits_a_line() {
    let mut d = Desk::new();
    assert_eq!(d.sh.cx, 34);
    d.press(b'a');
    d.press(b'b');
    assert_eq!(d.sh.command, vec!['a', 'b']);
    assert_eq!(d.sh.cx, 54);
    d.press(0x7F);
    assert_eq!(d.sh.command, vec!['a']);
    assert_eq!(d.sh.cx, 44);
    d.press(0x08);
    d.press(0x08);
    assert_eq!((d.sh.command.len(), d.sh.cx), (0, 34));
    for _ in 0..70 {
        d.press(b'x');
    }
    assert_eq!(d.sh.command.len(), 64);
    let (seq, input) = metrics::shell_surface_snapshot(&d.k.metrics);
    assert!(seq > 60);
    assert_eq!(input, 7);
}

#[test]
fn the_shell_answers_commands() {
    let mut d = Desk::new();
    assert_eq!(d.enter("   "), "");
    let said = d.enter("help");
    assert_eq!(said, "[shell] > help\n[shell] commands: help services ps restart <name>\n");
    assert_eq!(d.enter(" frob x"), "[shell] > frob x\n[shell] unknown command: frob\n");
    assert_eq!(d.enter("restart"), "[shell] > restart\n[shell] usage: restart <name>\n");
    assert_eq!(d.enter("start a b"), "[shell] > start a b\n[shell] usage: restart <name>\n");
    assert!(d.enter("restart nope").ends_with("[shell] unknown service: nope\n"));
    assert!(d.enter("restart ping").ends_with("[shell] restart failed ping code -1\n"));
    assert!(d.enter("restart dash").ends_with("[shell] started dash task 1\n"));
    assert!(d.enter("restart dash").ends_with("[shell] dash already running (task 1)\n"));
    let list = d.enter("ps");
    assert!(list.contains("[shell] dash    run    1    0  0  -\n"), "{list}");
    assert!(list.contains("[shell] ping    idle   -    0  0  -\n"));
    let mut out = Vec::new();
    init_abi::task_exited(&mut d.s, 1, init_abi::SERVICE_EXIT_FAULT, &mut out);
    let out: String = out.into_iter().collect();
    assert_eq!(out, "[init] service dash exited (task 1, reason=fault)\n");
    assert!(d.enter("services").contains("[shell] dash    fault  -    0  1  fault\n"));
}

#[test]
fn commands_are_trimmed_and_cut_by_bytes() {
    let mut d = Desk::new();
    let run = |d: &mut Desk, line: &str| {
        d.sh.screen.console.clear();
        let mut code = Vec::new();
        shell::shell_run_command(
            &mut d.sh.screen,
            &font(),
            &mut d.s,
            &mut d.names,
            &mut d.k,
            &d.programs,
            &mut code,
            &line.chars().collect(),
        );
        d.sh.screen.console.iter().collect::<String>()
    };
    let help = "[shell] > help\n[shell] commands: help services ps restart <name>\n";
    assert_eq!(run(&mut d, "\u{b}help\u{3000}"), help);
    assert_eq!(run(&mut d, "\u{a0}\u{2003}"), "");
    let said = run(&mut d, "a\u{b}b");
    assert!(said.ends_with("[shell] unknown command: a\u{b}b\n"));
    let long = "\u{e9}".repeat(40);
    assert!(run(&mut d, &long).ends_with("[shell] ?\n"));
    let fits = "\u{e9}".repeat(4);
    assert!(run(&mut d, &fits).ends_with("[shell] unknown command: \u{e9}\u{e9}\u{e9}\u{e9}\n"));
}

#[test]
fn services_are_counted() {
    let mut d = Desk::new();
    let mut code = Vec::new();
    let id = init_abi::SERVICE_DASH;
    let mut start = |d: &mut Desk| {
        init_abi::spawn_service(&mut d.s, &mut d.names, &mut d.k, &d.programs, &mut code, id)
    };
    assert_eq!(start(&mut d), Ok(1));
    assert_eq!(task_names::name(&d.names, 1), "dash");
    assert_eq!(start(&mut d), Ok(1));
    let clean = init_abi::SERVICE_EXIT_CLEAN;
    let mut out = Vec::new();
    assert_eq!(init_abi::service_status(&d.s, id).unwrap().state, 1);
    assert_eq!(init_abi::task_exited(&mut d.s, 1, clean, &mut out), Some(3));
    assert_eq!(init_abi::service_status(&d.s, id).unwrap().state, 0);
    assert_eq!(init_abi::task_exited(&mut d.s, 1, clean, &mut out), None);
    assert_eq!(start(&mut d), Ok(2));
    let st = init_abi::service_status(&d.s, id).unwrap();
    assert_eq!((st.task_id, st.restart_count, st.exit_count, st.state), (2, 1, 1, 1));
    assert!(init_abi::service_status(&d.s, 99).is_none());
    assert_eq!(init_abi::service_count(), 15);
    assert_eq!(init_abi::service_record(6).unwrap().restart_period_ticks, 250);
    assert_eq!(&init_abi::service_info(10).unwrap().name, b"probe-bad-unmapp");
    assert!(init_abi::service_info(15).is_none());
    assert_eq!(init_abi::find_service(&vec!['m', 'c', 'p']).unwrap().id, 9);
    assert_eq!(init_abi::exit_reason_name(3), "panic");
    assert_eq!(init_abi::exit_reason_name(9), "unknown");
    let mut out = Vec::new();
    init_abi::init_log(&mut out, b"hi");
    init_abi::init_log(&mut out, &[0xFF]);
    assert_eq!(out.iter().collect::<String>(), "hi\n[init] <non-utf8:1 bytes>\n");
}

#[test]
fn lines_are_padded_and_cut() {
    let mut l: LineBuf<8> = LineBuf::new();
    l.push_str("ab");
    l.pad_to(4);
    l.push_u64(12345);
    l.push_byte(b'x');
    assert_eq!(l.as_str().iter().collect::<String>(), "ab  1234");
    let mut l: LineBuf<3> = LineBuf::new();
    l.push_str("a\u{e9}");
    assert_eq!(l.as_str(), vec!['a', '\u{e9}']);
    let mut l: LineBuf<2> = LineBuf::new();
    l.push_str("a\u{e9}");
    assert_eq!(l.as_str(), vec!['?']);
}

#[test]
fn the_dashboard_redraws_four_times_a_second() {
    let mut d = Dashboard { surf: blank(620, 400), next_redraw_ns: 0, last_log_ns: 0 };
    let mut m = Metrics::new();
    let e = TraceEntry { timestamp_ns: 0, from_task: 1, to_task: 99, channel: 0, tag: 20 };
    let mut log = Vec::new();
    let t = dashboard::dashboard_el1(&mut d, &font(), &mut m, 10, 3, 2, &vec![e; 5], 5_000_000_000, &mut log);
    assert!(t.drawn && !t.log);
    assert_eq!(d.surf.read_pixel(14, 352), desktop::rgb(desktop::DIM));
    assert_eq!(d.surf.read_pixel(44, 352), desktop::rgb(desktop::DIM));
    assert_eq!(d.surf.read_pixel(14 + 70, 352), desktop::rgb(desktop::ACCENT));
    assert_eq!(metrics::surface_commit_seq(&m, 1), 1);
    let t = dashboard::dashboard_el1(&mut d, &font(), &mut m, 11, 3, 2, &Vec::new(), 11, &mut log);
    assert!(!t.drawn);
    let t = dashboard::dashboard_el1(&mut d, &font(), &mut m, 1_000_000_000, 3, 2, &Vec::new(), 0, &mut log);
    assert!(t.drawn && t.log);
    assert_eq!(
        log.iter().collect::<String>(),
        "[metrics] frame=0us bg=0us win=0us ui=0us present=0us photon=0us ipc_rtt=0us wake=0us\n"
    );
    assert_eq!(dashboard::tag_label(21), "KEY_UP");
    assert_eq!(dashboard::tag_label(999), "MSG");
}

#[test]
fn the_probe_measures_round_trips() {
    let ping = probes::ping_message(1_000);
    let pong = probes::ipc_probe_pong_el1(&ping);
    assert_eq!((pong.tag, pong.payload[0]), (tag::PONG, 1_000));
    let mut m = Metrics::new();
    let mut n = 63;
    assert_eq!(probes::ipc_probe_ping_el1(&mut m, &mut n, &pong, 6_000), Some(5));
    assert_eq!(metrics::snapshot(&m).ipc_rtt_us.latest, 5);
    assert_eq!(probes::ipc_probe_ping_el1(&mut m, &mut n, &ping, 6_000), None);
    assert_eq!(n, 64);
    assert_eq!(probes::supervised_pulse_el1(0), Step::Yield);
    assert_eq!(probes::supervised_pulse_el1(1000), Step::Beat(2));
    assert_eq!(probes::supervised_pulse_el1(1501), Step::Done);
    assert_eq!(probes::supervised_fault_el1(600), Step::Beat(2));
    assert_eq!(probes::keyboard_el1(Some(b'\r'), 3).unwrap().payload, [10, 0, 3, 0]);
    assert!(probes::keyboard_el1(None, 3).is_none());
}

#[test]
fn services_outside_send_and_receive() {
    let mut k = machine();
    let id = ipc::create(&mut k.ipc).unwrap();
    let m = ServiceMessage { tag: 3, sender: 9, len: 99, payload: [1, 2, 3, 4] };
    assert_eq!(service_abi::service_send(&mut k, id, None, 0), -1);
    assert_eq!(service_abi::service_send(&mut k, 30, Some(m), 0), -2);
    for _ in 0..16 {
        assert_eq!(service_abi::service_send(&mut k, id, Some(m), 0), 0);
    }
    assert_eq!(service_abi::service_send(&mut k, id, Some(m), 0), -3);
    let got = service_abi::service_recv(&mut k, id, 0).unwrap().unwrap();
    assert_eq!((got.tag, got.sender, got.len, got.payload), (3, 0, 32, [1, 2, 3, 4]));
    assert_eq!(service_abi::service_recv(&mut k, 30, 0), Some(Err(-2)));
    let mut e = ExternalEntries { pong: 0, pulse: 0, fault: 0, fault_user_stack: 0 };
    assert_eq!(service_abi::external_pong_entry(&e), None);
    service_abi::register_external_pong(&mut e, 5);
    service_abi::register_external_pulse(&mut e, 6);
    service_abi::register_external_fault(&mut e, 7, 8);
    assert_eq!(service_abi::external_pong_entry(&e), Some(5));
    assert_eq!(service_abi::external_pulse_entry(&e), Some(6));
    assert_eq!(service_abi::external_fault_entry(&e), Some(7));
    assert_eq!(service_abi::external_fault_user_stack(&e), Some(8));
    let mut out = Vec::new();
    service_abi::service_log(&mut out, &[0x80; 300]);
    assert_eq!(out.iter().collect::<String>(), "[service] <non-utf8:300 bytes>\n");
}

#[test]
fn scripts_send_and_receive() {
    let mut k = machine();
    let id = ipc::create(&mut k.ipc).unwrap() as i64;
    assert_eq!(scripting::script_send(&mut k, id, 5, 42, 0), 0);
    assert_eq!(scripting::script_send(&mut k, id, 6, 43, 0), 0);
    assert_eq!(scripting::script_send(&mut k, 31, 6, 43, 0), -1);
    assert_eq!(scripting::script_recv(&mut k, id, false, 0), Some(42));
    assert_eq!(scripting::script_recv(&mut k, id, true, 0), Some(6));
    assert_eq!(scripting::script_recv(&mut k, 31, true, 0), Some(-1));
    assert_eq!(scripting::script_recv(&mut k, id, true, 0), None);
    assert_eq!(scripting::script_time(5_999), 5);
}

#[test]
fn boot_picks_a_mode_and_draws_a_screen() {
    let modes = vec![(800, 600), (3840, 2160), (1280, 1024), (1024, 1280), (1280, 1024)];
    assert_eq!(boot::best_mode(&modes), Some(4));
    assert_eq!(boot::best_mode(&vec![(4000, 4000)]), None);
    let all = vec![MemRegion { start: 0, pages: 2, usable: true }; 130];
    let (kept, pages) = boot::collect_regions(&all);
    assert_eq!((kept.len(), pages), (128, 260));
    let mut fb = blank(800, 600);
    boot::draw_boot_screen(&mut fb, &font(), 800, 600, 7);
    assert_eq!(fb.read_pixel(80, 180), desktop::rgb(desktop::TEXT));
    assert_eq!(fb.read_pixel(330, 80), desktop::rgb(boot::TITLE));
    assert_eq!(fb.read_pixel(0, 599), desktop::rgb(boot::BG));
}
