//! The dashboard: system information and the flow of messages, drawn on a
//! surface of its own.
use vstd::prelude::*;

use crate::abi::tag;
use crate::desktop;
use crate::desktop::{
    put, put_line, rgb, ACCENT, DASH_BG, DIM, GREEN, HEADER_BG, LATENCY_LIMIT, ORANGE, SEP, SUBTLE,
    SURF_H, SURF_W, TEXT, UI_REFRESH_NS,
};
use crate::font::AaFont;
use crate::framebuffer;
use crate::framebuffer::{Color, Framebuffer, Picture};
use crate::ipc::TraceEntry;
use crate::metrics;
use crate::metrics::{DamageRect, MetricSample, Metrics, Snapshot};
use crate::text;

verus! {

/// The label of a task.
pub open spec fn task_label(task: int) -> Seq<char> {
    if task == 0 {
        "idle"@
    } else if task == 1 {
        "kbd"@
    } else if task == 2 {
        "comp"@
    } else if task == 3 {
        "shell"@
    } else if task == 4 {
        "dash"@
    } else if task == 5 {
        "ping"@
    } else if task == 6 {
        "pong"@
    } else {
        "?"@
    }
}

pub open spec fn task_color(task: int) -> Color {
    if task == 1 {
        rgb(ACCENT)
    } else if task == 2 {
        rgb(SUBTLE)
    } else if task == 3 {
        rgb(GREEN)
    } else if task == 4 {
        rgb(ORANGE)
    } else if task == 5 {
        rgb(0x4F8BFF)
    } else if task == 6 {
        rgb(0xFFC158)
    } else {
        rgb(DIM)
    }
}

fn label_of(task: usize) -> (r: &'static str)
    ensures
        r@ == task_label(task as int),
        1 <= r@.len() <= 5,
{
    proof {
        reveal_strlit("idle");
        reveal_strlit("kbd");
        reveal_strlit("comp");
        reveal_strlit("shell");
        reveal_strlit("dash");
        reveal_strlit("ping");
        reveal_strlit("pong");
        reveal_strlit("?");
    }
    match task {
        0 => "idle",
        1 => "kbd",
        2 => "comp",
        3 => "shell",
        4 => "dash",
        5 => "ping",
        6 => "pong",
        _ => "?",
    }
}

fn color_of(task: usize) -> (c: Color)
    ensures
        c == task_color(task as int),
{
    match task {
        1 => rgb(ACCENT),
        2 => rgb(SUBTLE),
        3 => rgb(GREEN),
        4 => rgb(ORANGE),
        5 => rgb(0x4F8BFF),
        6 => rgb(0xFFC158),
        _ => rgb(DIM),
    }
}

/// The label of a kind of message.
pub open spec fn label_of_tag(t: u16) -> Seq<char> {
    if t == tag::IRQ {
        "IRQ"@
    } else if t == tag::KEY_DOWN {
        "KEY"@
    } else if t == tag::KEY_UP {
        "KEY_UP"@
    } else if t == tag::PING {
        "PING"@
    } else if t == tag::PONG {
        "PONG"@
    } else {
        "MSG"@
    }
}

pub fn tag_label(t: u16) -> (r: &'static str)
    ensures
        r@ == label_of_tag(t),
        1 <= r@.len() <= 6,
{
    proof {
        reveal_strlit("IRQ");
        reveal_strlit("KEY");
        reveal_strlit("KEY_UP");
        reveal_strlit("PING");
        reveal_strlit("PONG");
        reveal_strlit("MSG");
    }
    match t as u32 {
        tag::IRQ => "IRQ",
        tag::KEY_DOWN => "KEY",
        tag::KEY_UP => "KEY_UP",
        tag::PING => "PING",
        tag::PONG => "PONG",
        _ => "MSG",
    }
}

/// A measurement: its label, its latest value and its largest.
pub open spec fn pair_line(
    p: Picture,
    font: AaFont,
    x: int,
    y: int,
    label: Seq<char>,
    s: MetricSample,
    bg: Color,
) -> Picture {
    p.text(font, x, y, label, rgb(SUBTLE), bg).text(
        font,
        x + 96,
        y,
        desktop::latency(s.latest),
        rgb(TEXT),
        bg,
    ).text(font, x + 148, y, "/"@, rgb(DIM), bg).text(
        font,
        x + 158,
        y,
        desktop::latency(s.max),
        rgb(DIM),
        bg,
    )
}

pub fn draw_metric_pair_line(
    fb: &mut Framebuffer,
    font: &AaFont,
    x: usize,
    y: usize,
    label: &str,
    sample: MetricSample,
    bg: Color,
)
    requires
        old(fb).wf(),
        font.wf(),
        desktop::roomy(x + 200),
        desktop::roomy(y as int),
        label@.len() <= 100,
        sample.latest < LATENCY_LIMIT,
        sample.max < LATENCY_LIMIT,
    ensures
        final(fb).wf(),
        final(fb)@ == pair_line(old(fb)@, *font, x as int, y as int, label@, sample, bg),
{
    proof {
        reveal_strlit("/");
    }
    let latest: Vec<char> = desktop::fmt_latency(sample.latest);
    let max: Vec<char> = desktop::fmt_latency(sample.max);
    put(fb, font, x, y, label, rgb(SUBTLE), bg);
    put_line(fb, font, x + 96, y, &latest, rgb(TEXT), bg);
    put(fb, font, x + 148, y, "/", rgb(DIM), bg);
    put_line(fb, font, x + 158, y, &max, rgb(DIM), bg);
}

/// The times of the three phases of a frame.
pub open spec fn triplet_line(
    p: Picture,
    font: AaFont,
    x: int,
    y: int,
    bg_us: u64,
    win_us: u64,
    ui_us: u64,
    bg: Color,
) -> Picture {
    p.text(font, x, y, "BG"@, rgb(SUBTLE), bg).text(
        font,
        x + 20,
        y,
        desktop::latency(bg_us),
        rgb(TEXT),
        bg,
    ).text(font, x + 84, y, "WIN"@, rgb(SUBTLE), bg).text(
        font,
        x + 114,
        y,
        desktop::latency(win_us),
        rgb(TEXT),
        bg,
    ).text(font, x + 188, y, "UI"@, rgb(SUBTLE), bg).text(
        font,
        x + 208,
        y,
        desktop::latency(ui_us),
        rgb(TEXT),
        bg,
    )
}

pub fn draw_phase_triplet_line(
    fb: &mut Framebuffer,
    font: &AaFont,
    x: usize,
    y: usize,
    bg_us: u64,
    win_us: u64,
    ui_us: u64,
    bg: Color,
)
    requires
        old(fb).wf(),
        font.wf(),
        desktop::roomy(x + 208),
        desktop::roomy(y as int),
        bg_us < LATENCY_LIMIT,
        win_us < LATENCY_LIMIT,
        ui_us < LATENCY_LIMIT,
    ensures
        final(fb).wf(),
        final(fb)@ == triplet_line(
            old(fb)@,
            *font,
            x as int,
            y as int,
            bg_us,
            win_us,
            ui_us,
            bg,
        ),
{
    proof {
        reveal_strlit("BG");
        reveal_strlit("WIN");
        reveal_strlit("UI");
    }
    let b: Vec<char> = desktop::fmt_latency(bg_us);
    let w: Vec<char> = desktop::fmt_latency(win_us);
    let u: Vec<char> = desktop::fmt_latency(ui_us);
    put(fb, font, x, y, "BG", rgb(SUBTLE), bg);
    put_line(fb, font, x + 20, y, &b, rgb(TEXT), bg);
    put(fb, font, x + 84, y, "WIN", rgb(SUBTLE), bg);
    put_line(fb, font, x + 114, y, &w, rgb(TEXT), bg);
    put(fb, font, x + 188, y, "UI", rgb(SUBTLE), bg);
    put_line(fb, font, x + 208, y, &u, rgb(TEXT), bg);
}

/// An age in milliseconds, right-aligned in four columns, of which it shows the
/// last four digits.
pub open spec fn age_text(ms: u64) -> Seq<char> {
    seq![
        if ms >= 1000 {
            text::digit(ms as int / 1000 % 10)
        } else {
            ' '
        },
        if ms >= 100 {
            text::digit(ms as int / 100 % 10)
        } else {
            ' '
        },
        if ms >= 10 {
            text::digit(ms as int / 10 % 10)
        } else {
            ' '
        },
        text::digit(ms as int % 10),
    ]
}

fn fmt_age(ms: u64) -> (r: Vec<char>)
    ensures
        r@ == age_text(ms),
{
    let r: Vec<char> = vec![
        if ms >= 1000 {
            text::digit_char((ms / 1000 % 10) as u8)
        } else {
            ' '
        },
        if ms >= 100 {
            text::digit_char((ms / 100 % 10) as u8)
        } else {
            ' '
        },
        if ms >= 10 {
            text::digit_char((ms / 10 % 10) as u8)
        } else {
            ' '
        },
        text::digit_char((ms % 10) as u8),
    ];
    assert(r@ =~= age_text(ms));
    r
}

pub open spec fn age_ms(now: u64, sent: u64) -> u64 {
    if now > sent {
        ((now - sent) / 1_000_000) as u64
    } else {
        0
    }
}

/// Fresh messages are bright, old ones dim.
pub open spec fn age_color(ms: u64) -> Color {
    if ms < 300 {
        rgb(GREEN)
    } else if ms < 2000 {
        rgb(SUBTLE)
    } else {
        rgb(DIM)
    }
}

pub open spec fn at_most(a: int, b: int) -> int {
    if a < b {
        a
    } else {
        b
    }
}

/// One message: its age, who sent it to whom, and what it is.
pub open spec fn trace_row(p: Picture, font: AaFont, y: int, e: TraceEntry, now: u64) -> Picture {
    let gw = font.width as int;
    let (dim, bg) = (rgb(DIM), rgb(DASH_BG));
    let ms = age_ms(now, e.timestamp_ns);
    let c = age_color(ms);
    let from = at_most(e.from_task as int, 7);
    let to = e.to_task as int;
    let x0 = 14 + 7 * gw;
    let x1 = x0 + task_label(from).len() * gw;
    let x2 = x1 + gw;
    let sender = p.text(font, 14, y, age_text(ms), dim, bg).text(
        font,
        14 + 4 * gw,
        y,
        "ms"@,
        dim,
        bg,
    ).text(font, x0, y, task_label(from), task_color(from), bg).text(font, x1, y, ">"@, c, bg);
    if to < 7 {
        sender.text(font, x2, y, task_label(to), task_color(to), bg).text(
            font,
            x2 + task_label(to).len() * gw + gw,
            y,
            label_of_tag(e.tag),
            c,
            bg,
        )
    } else {
        sender.text(font, x2, y, "?"@, dim, bg).text(
            font,
            x2 + 2 * gw,
            y,
            label_of_tag(e.tag),
            c,
            bg,
        )
    }
}

fn draw_trace_row(fb: &mut Framebuffer, font: &AaFont, y: usize, e: &TraceEntry, now: u64)
    requires
        old(fb).wf(),
        font.wf(),
        desktop::roomy(y as int),
    ensures
        final(fb).wf(),
        final(fb)@ == trace_row(old(fb)@, *font, y as int, *e, now),
{
    proof {
        reveal_strlit("ms");
        reveal_strlit(">");
        reveal_strlit("?");
    }
    let gw: usize = font.width;
    let (dim, bg): (Color, Color) = (rgb(DIM), rgb(DASH_BG));
    let ms: u64 = if now > e.timestamp_ns { (now - e.timestamp_ns) / 1_000_000 } else { 0 };
    let c: Color = if ms < 300 {
        rgb(GREEN)
    } else if ms < 2000 {
        rgb(SUBTLE)
    } else {
        rgb(DIM)
    };
    let age: Vec<char> = fmt_age(ms);
    put_line(fb, font, 14, y, &age, dim, bg);
    put(fb, font, 14 + 4 * gw, y, "ms", dim, bg);
    let mut rx: usize = 14 + 7 * gw;
    let from: usize = if (e.from_task as usize) < 7 { e.from_task as usize } else { 7 };
    let to: usize = e.to_task as usize;
    let label: &'static str = label_of(from);
    put(fb, font, rx, y, label, color_of(from), bg);
    proof {
        assert(0 <= label@.len() * gw <= 5 * 64) by (nonlinear_arith)
            requires
                0 <= label@.len() <= 5,
                0 <= gw <= 64,
        ;
    }
    rx = rx + text::length(label) * gw;
    put(fb, font, rx, y, ">", c, bg);
    rx = rx + gw;
    if to < 7 {
        let label: &'static str = label_of(to);
        put(fb, font, rx, y, label, color_of(to), bg);
        proof {
            assert(0 <= label@.len() * gw <= 5 * 64) by (nonlinear_arith)
                requires
                    0 <= label@.len() <= 5,
                    0 <= gw <= 64,
            ;
        }
        rx = rx + text::length(label) * gw + gw;
    } else {
        put(fb, font, rx, y, "?", dim, bg);
        rx = rx + 2 * gw;
    }
    put(fb, font, rx, y, tag_label(e.tag), c, bg);
}

/// The first `n` of the messages from place `start` on, a row each.
pub open spec fn trace_rows(
    p: Picture,
    font: AaFont,
    trace: Seq<TraceEntry>,
    start: int,
    now: u64,
    n: int,
) -> Picture
    decreases n,
{
    if n <= 0 {
        p
    } else {
        trace_row(
            trace_rows(p, font, trace, start, now, n - 1),
            font,
            310 + 14 * (n - 1),
            trace[start + n - 1],
            now,
        )
    }
}

/// The latest four messages.
pub open spec fn message_flow(p: Picture, font: AaFont, trace: Seq<TraceEntry>, now: u64) -> Picture {
    let show = at_most(trace.len() as int, 4);
    if trace.len() == 0 {
        p.text(font, 14, 310, "(waiting for messages...)"@, rgb(DIM), rgb(DASH_BG))
    } else {
        trace_rows(p, font, trace, trace.len() - show, now, show)
    }
}

/// The clock and the system information.
pub open spec fn system_info(
    p: Picture,
    font: AaFont,
    ns: u64,
    m: Snapshot,
    tasks: u64,
    channels: u64,
) -> Picture {
    let bg = rgb(DASH_BG);
    let (label, value) = (rgb(SUBTLE), rgb(TEXT));
    let count = desktop::number(tasks, 16);
    let head = p.rect(0, 0, p.width, p.height, bg).rect(0, 0, SURF_W as int, 38, rgb(HEADER_BG)).text(
        font,
        14,
        10,
        "~  dashboard"@,
        rgb(ORANGE),
        rgb(HEADER_BG),
    ).rect(0, 38, SURF_W as int, 1, rgb(SEP));
    let clock = head.paint(
        framebuffer::aa_shape(head, font, 14, 50, desktop::hms(ns), value, bg, 2),
    ).text(font, 14, 90, "uptime"@, rgb(DIM), bg).rect(14, 112, SURF_W - 28, 1, rgb(SEP));
    let counts = clock.text(font, 14, 122, "Tasks"@, label, bg).text(
        font,
        110,
        122,
        count,
        value,
        bg,
    ).text(font, 110 + count.len() * font.width + 6, 122, "EL1 @ 1 kHz"@, value, bg).text(
        font,
        14,
        140,
        "Arch"@,
        label,
        bg,
    ).text(font, 110, 140, "aarch64 (Apple Silicon)"@, value, bg).text(
        font,
        14,
        158,
        "Chans"@,
        label,
        bg,
    ).text(font, 110, 158, desktop::number(channels, 16), value, bg);
    let frame = pair_line(counts, font, 14, 176, "Frame"@, m.frame_us, bg);
    let present = pair_line(frame, font, 14, 194, "Present"@, m.present_us, bg);
    let photon = pair_line(present, font, 14, 212, "Photon"@, m.input_to_photon_us, bg);
    let rtt = pair_line(photon, font, 14, 230, "IPC RTT"@, m.ipc_rtt_us, bg);
    let wake = pair_line(rtt, font, 14, 248, "Wake"@, m.sched_wake_us, bg);
    triplet_line(
        wake,
        font,
        14,
        266,
        m.background_us.latest,
        m.windows_us.latest,
        m.chrome_us.latest,
        bg,
    )
}

/// The whole dashboard.
pub open spec fn dashboard(
    p: Picture,
    font: AaFont,
    ns: u64,
    m: Snapshot,
    tasks: u64,
    channels: u64,
    trace: Seq<TraceEntry>,
    now: u64,
) -> Picture {
    let info = system_info(p, font, ns, m, tasks, channels).text(
        font,
        14,
        288,
        "Message Flow"@,
        rgb(ORANGE),
        rgb(DASH_BG),
    ).rect(14, 302, SURF_W - 28, 1, rgb(SEP));
    message_flow(info, font, trace, now).text(
        font,
        14,
        SURF_H - 22,
        "The architecture is perceptible."@,
        rgb(DIM),
        rgb(DASH_BG),
    )
}

pub open spec fn short(s: MetricSample) -> bool {
    s.latest < LATENCY_LIMIT && s.max < LATENCY_LIMIT
}

/// Every measurement shown is short enough to be shown.
pub open spec fn showable(m: Snapshot) -> bool {
    &&& short(m.frame_us)
    &&& short(m.present_us)
    &&& short(m.input_to_photon_us)
    &&& short(m.ipc_rtt_us)
    &&& short(m.sched_wake_us)
    &&& m.background_us.latest < LATENCY_LIMIT
    &&& m.windows_us.latest < LATENCY_LIMIT
    &&& m.chrome_us.latest < LATENCY_LIMIT
}

fn draw_system_info(
    surf: &mut Framebuffer,
    font: &AaFont,
    ns: u64,
    m: &Snapshot,
    tasks: u64,
    channels: u64,
)
    requires
        old(surf).wf(),
        font.wf(),
        showable(*m),
    ensures
        final(surf).wf(),
        final(surf)@ == system_info(old(surf)@, *font, ns, *m, tasks, channels),
{
    proof {
        reveal_strlit("~  dashboard");
        reveal_strlit("uptime");
        reveal_strlit("Tasks");
        reveal_strlit("EL1 @ 1 kHz");
        reveal_strlit("Arch");
        reveal_strlit("aarch64 (Apple Silicon)");
        reveal_strlit("Chans");
        reveal_strlit("Frame");
        reveal_strlit("Present");
        reveal_strlit("Photon");
        reveal_strlit("IPC RTT");
        reveal_strlit("Wake");
    }
    let bg: Color = rgb(DASH_BG);
    let (label, value): (Color, Color) = (rgb(SUBTLE), rgb(TEXT));
    surf.clear(bg);
    surf.draw_rect(0, 0, SURF_W, 38, rgb(HEADER_BG));
    put(surf, font, 14, 10, "~  dashboard", rgb(ORANGE), rgb(HEADER_BG));
    surf.draw_rect(0, 38, SURF_W, 1, rgb(SEP));
    let mut y: usize = 50;
    let clock: Vec<char> = desktop::fmt_hms(ns);
    proof {
        assert(clock@.len() * (font.width * 2) <= 8 * 128) by (nonlinear_arith)
            requires
                clock@.len() == 8,
                font.width <= 64,
        ;
    }
    surf.draw_aa_line_2x(font, 14, y, &clock, value, bg);
    y = y + 40;
    put(surf, font, 14, y, "uptime", rgb(DIM), bg);
    y = y + 22;
    surf.draw_rect(14, y, SURF_W - 28, 1, rgb(SEP));
    y = y + 10;
    put(surf, font, 14, y, "Tasks", label, bg);
    let count: Vec<char> = desktop::fmt_u64(tasks, 16);
    put_line(surf, font, 110, y, &count, value, bg);
    proof {
        assert(0 <= count@.len() * font.width <= 16 * 64) by (nonlinear_arith)
            requires
                0 <= count@.len() <= 16,
                0 <= font.width <= 64,
        ;
    }
    put(surf, font, 110 + count.len() * font.width + 6, y, "EL1 @ 1 kHz", value, bg);
    y = y + 18;
    put(surf, font, 14, y, "Arch", label, bg);
    put(surf, font, 110, y, "aarch64 (Apple Silicon)", value, bg);
    y = y + 18;
    put(surf, font, 14, y, "Chans", label, bg);
    let count: Vec<char> = desktop::fmt_u64(channels, 16);
    put_line(surf, font, 110, y, &count, value, bg);
    y = y + 18;
    draw_metric_pair_line(surf, font, 14, y, "Frame", m.frame_us, bg);
    y = y + 18;
    draw_metric_pair_line(surf, font, 14, y, "Present", m.present_us, bg);
    y = y + 18;
    draw_metric_pair_line(surf, font, 14, y, "Photon", m.input_to_photon_us, bg);
    y = y + 18;
    draw_metric_pair_line(surf, font, 14, y, "IPC RTT", m.ipc_rtt_us, bg);
    y = y + 18;
    draw_metric_pair_line(surf, font, 14, y, "Wake", m.sched_wake_us, bg);
    y = y + 18;
    draw_phase_triplet_line(
        surf,
        font,
        14,
        y,
        m.background_us.latest,
        m.windows_us.latest,
        m.chrome_us.latest,
        bg,
    );
}

fn draw_message_flow(surf: &mut Framebuffer, font: &AaFont, trace: &Vec<TraceEntry>, now: u64)
    requires
        old(surf).wf(),
        font.wf(),
    ensures
        final(surf).wf(),
        final(surf)@ == message_flow(old(surf)@, *font, trace@, now),
{
    proof {
        reveal_strlit("(waiting for messages...)");
    }
    if trace.len() == 0 {
        put(surf, font, 14, 310, "(waiting for messages...)", rgb(DIM), rgb(DASH_BG));
        return ;
    }
    let show: usize = if trace.len() < 4 { trace.len() } else { 4 };
    let start: usize = trace.len() - show;
    let mut row: usize = 0;
    while row < show
        invariant
            row <= show <= 4,
            start + show == trace@.len(),
            surf.wf(),
            font.wf(),
            surf@ == trace_rows(old(surf)@, *font, trace@, start as int, now, row as int),
        decreases show - row,
    {
        assert(trace.len() == trace@.len());
        draw_trace_row(surf, font, 310 + 14 * row, &trace[start + row], now);
        row = row + 1;
    }
}

pub struct Dashboard {
    pub surf: Framebuffer,
    pub next_redraw_ns: u64,
    pub last_log_ns: u64,
}

/// What one turn of the dashboard did.
#[derive(Clone, Copy, Debug, PartialEq, Eq, Structural)]
pub struct Turn {
    pub drawn: bool,
    /// The measurements were logged.
    pub log: bool,
}

/// One turn of the dashboard at `ns`: it redraws itself at most every quarter of
/// a second. `trace` holds the latest messages and `now` is when it was read.
pub fn dashboard_el1(
    d: &mut Dashboard,
    font: &AaFont,
    m: &mut Metrics,
    ns: u64,
    tasks: u64,
    channels: u64,
    trace: &Vec<TraceEntry>,
    now: u64,
    console: &mut Vec<char>,
) -> (turn: Turn)
    requires
        old(d).surf.wf(),
        font.wf(),
        old(m).wf(),
        showable(old(m)@.samples),
    ensures
        final(d).surf.wf(),
        final(m).wf(),
        turn.drawn == (ns >= old(d).next_redraw_ns),
        turn.log == (turn.drawn && ns - old(d).last_log_ns >= 1_000_000_000),
        final(d).last_log_ns == if turn.log {
            ns
        } else {
            old(d).last_log_ns
        },
        final(console)@ == if turn.log {
            old(console)@ + metrics::metrics_line(old(m)@.samples)
        } else {
            old(console)@
        },
        if turn.drawn {
            &&& final(d).next_redraw_ns == if ns + UI_REFRESH_NS > u64::MAX {
                u64::MAX
            } else {
                (ns + UI_REFRESH_NS) as u64
            }
            &&& final(d).surf@ == dashboard(
                old(d).surf@,
                *font,
                ns,
                old(m)@.samples,
                tasks,
                channels,
                trace@,
                now,
            )
            &&& final(m)@ == old(m)@.damaged(
                1,
                (DamageRect { x: 0, y: 0, w: SURF_W as u32, h: SURF_H as u32 }),
            ).committed(1)
        } else {
            final(d).next_redraw_ns == old(d).next_redraw_ns && final(d).surf == old(d).surf
                && final(m)@ == old(m)@
        },
{
    if ns < d.next_redraw_ns {
        return Turn { drawn: false, log: false };
    }
    proof {
        reveal_strlit("Message Flow");
        reveal_strlit("The architecture is perceptible.");
    }
    d.next_redraw_ns = ns.saturating_add(UI_REFRESH_NS);
    let samples: Snapshot = metrics::snapshot(m);
    let log: bool = ns.saturating_sub(d.last_log_ns) >= 1_000_000_000;
    if log {
        d.last_log_ns = ns;
        metrics::log_metrics(console, &samples);
    }
    draw_system_info(&mut d.surf, font, ns, &samples, tasks, channels);
    put(&mut d.surf, font, 14, 288, "Message Flow", rgb(ORANGE), rgb(DASH_BG));
    d.surf.draw_rect(14, 302, SURF_W - 28, 1, rgb(SEP));
    draw_message_flow(&mut d.surf, font, trace, now);
    put(
        &mut d.surf,
        font,
        14,
        SURF_H - 22,
        "The architecture is perceptible.",
        rgb(DIM),
        rgb(DASH_BG),
    );
    metrics::mark_surface_damage(m, 1, 0, 0, SURF_W as u32, SURF_H as u32);
    Turn { drawn: true, log }
}

/// The first `rows` rows of a line of text can be read at `(x, y)`: every dot of
/// every character is there in the line's colour.
pub open spec fn shows(
    q: Picture,
    font: AaFont,
    x: int,
    y: int,
    rows: int,
    s: Seq<char>,
    fg: Color,
    bg: Color,
) -> bool {
    forall|n: int, i: int, j: int|
        #![trigger font.alpha(s[n], i, j)]
        0 <= n < s.len() && 0 <= i < font.width && 0 <= j < rows && q.visible(
            x + n * font.width + i,
            y + j,
        ) && font.alpha(s[n], i, j) != 0 ==> q.color(x + n * font.width + i, y + j)
            == framebuffer::blended(fg, bg, font.alpha(s[n], i, j))
}

/// A picture in which everything visible has a cell.
pub open spec fn whole(p: Picture) -> bool {
    p.width <= p.stride && p.cells.len() == p.stride * p.height
}

/// Above row `y` the pictures are the same.
pub open spec fn same_above(p: Picture, q: Picture, y: int) -> bool {
    &&& q.same_form(p)
    &&& forall|px: int, py: int|
        p.visible(px, py) && py < y ==> #[trigger] q.at(px, py) == p.at(px, py)
}

pub proof fn lemma_text_shows(
    p: Picture,
    font: AaFont,
    x: int,
    y: int,
    s: Seq<char>,
    fg: Color,
    bg: Color,
)
    requires
        font.wf(),
        whole(p),
    ensures
        shows(p.text(font, x, y, s, fg, bg), font, x, y, font.height as int, s, fg, bg),
        p.text(font, x, y, s, fg, bg).same_form(p),
{
    let q = p.text(font, x, y, s, fg, bg);
    assert forall|n: int, i: int, j: int|
        #![trigger font.alpha(s[n], i, j)]
        0 <= n < s.len() && 0 <= i < font.width && 0 <= j < font.height && q.visible(
            x + n * font.width + i,
            y + j,
        ) && font.alpha(s[n], i, j) != 0 implies q.color(x + n * font.width + i, y + j)
        == framebuffer::blended(fg, bg, font.alpha(s[n], i, j)) by {
        framebuffer::law_text(p, font, x, y, s, fg, bg, n, i, j);
    }
}

/// Text in other columns or below leaves a line readable.
pub proof fn lemma_shows_kept(
    p: Picture,
    font: AaFont,
    x: int,
    y: int,
    rows: int,
    s: Seq<char>,
    fg: Color,
    bg: Color,
    x2: int,
    y2: int,
    s2: Seq<char>,
    fg2: Color,
    bg2: Color,
)
    requires
        font.wf(),
        whole(p),
        shows(p, font, x, y, rows, s, fg, bg),
        x + s.len() * font.width <= x2 || y + rows <= y2,
    ensures
        shows(p.text(font, x2, y2, s2, fg2, bg2), font, x, y, rows, s, fg, bg),
{
    let q = p.text(font, x2, y2, s2, fg2, bg2);
    let w = font.width as int;
    assert forall|n: int, i: int, j: int|
        #![trigger font.alpha(s[n], i, j)]
        0 <= n < s.len() && 0 <= i < font.width && 0 <= j < rows && q.visible(
            x + n * font.width + i,
            y + j,
        ) && font.alpha(s[n], i, j) != 0 implies q.color(x + n * font.width + i, y + j)
        == framebuffer::blended(fg, bg, font.alpha(s[n], i, j)) by {
        assert(n * w + i < s.len() * w) by (nonlinear_arith)
            requires
                0 <= n < s.len(),
                0 <= i < w,
        ;
        framebuffer::law_text_is_local(
            p,
            font,
            x2,
            y2,
            s2,
            fg2,
            bg2,
            x + n * font.width + i,
            y + j,
        );
    }
}

/// What is the same above a row is as readable.
pub proof fn lemma_shows_above(
    p: Picture,
    q: Picture,
    font: AaFont,
    x: int,
    y: int,
    rows: int,
    s: Seq<char>,
    fg: Color,
    bg: Color,
)
    requires
        shows(p, font, x, y, rows, s, fg, bg),
        same_above(p, q, y + rows),
    ensures
        shows(q, font, x, y, rows, s, fg, bg),
{
    assert forall|n: int, i: int, j: int|
        #![trigger font.alpha(s[n], i, j)]
        0 <= n < s.len() && 0 <= i < font.width && 0 <= j < rows && q.visible(
            x + n * font.width + i,
            y + j,
        ) && font.alpha(s[n], i, j) != 0 implies q.color(x + n * font.width + i, y + j)
        == framebuffer::blended(fg, bg, font.alpha(s[n], i, j)) by {
        assert(q.at(x + n * font.width + i, y + j) == p.at(x + n * font.width + i, y + j));
    }
}

pub proof fn lemma_shows_fewer(
    q: Picture,
    font: AaFont,
    x: int,
    y: int,
    rows: int,
    fewer: int,
    s: Seq<char>,
    fg: Color,
    bg: Color,
)
    requires
        shows(q, font, x, y, rows, s, fg, bg),
        fewer <= rows,
    ensures
        shows(q, font, x, y, fewer, s, fg, bg),
{
}

pub proof fn lemma_text_below(
    p: Picture,
    font: AaFont,
    x: int,
    y: int,
    s: Seq<char>,
    fg: Color,
    bg: Color,
    above: int,
)
    requires
        whole(p),
        above <= y,
    ensures
        same_above(p, p.text(font, x, y, s, fg, bg), above),
        whole(p.text(font, x, y, s, fg, bg)),
{
    let q = p.text(font, x, y, s, fg, bg);
    assert forall|px: int, py: int| p.visible(px, py) && py < above implies #[trigger] q.at(px, py)
        == p.at(px, py) by {
        framebuffer::law_text_is_local(p, font, x, y, s, fg, bg, px, py);
    }
}

/// Whom a message is from or to, and in which colour.
pub open spec fn name_of(task: int) -> Seq<char> {
    task_label(at_most(task, 7))
}

/// The row at `y` tells of message `e`: how long ago it was, from whom and to
/// whom it went, and what it was, in the first `rows` rows of its characters.
#[verifier::opaque]
pub open spec fn row_tells(
    q: Picture,
    font: AaFont,
    y: int,
    rows: int,
    e: TraceEntry,
    now: u64,
) -> bool {
    let gw = font.width as int;
    let bg = rgb(DASH_BG);
    let ms = age_ms(now, e.timestamp_ns);
    let from = name_of(e.from_task as int);
    let to = name_of(e.to_task as int);
    let x1 = 14 + (7 + from.len()) * gw;
    let x2 = x1 + gw;
    let x3 = x2 + (to.len() + 1) * gw;
    &&& shows(q, font, 14, y, rows, age_text(ms), rgb(DIM), bg)
    &&& shows(q, font, 14 + 4 * gw, y, rows, "ms"@, rgb(DIM), bg)
    &&& shows(
        q,
        font,
        14 + 7 * gw,
        y,
        rows,
        from,
        task_color(at_most(e.from_task as int, 7)),
        bg,
    )
    &&& shows(q, font, x1, y, rows, ">"@, age_color(ms), bg)
    &&& shows(q, font, x2, y, rows, to, task_color(at_most(e.to_task as int, 7)), bg)
    &&& shows(q, font, x3, y, rows, label_of_tag(e.tag), age_color(ms), bg)
}

proof fn lemma_row_tells(p: Picture, font: AaFont, y: int, e: TraceEntry, now: u64)
    requires
        font.wf(),
        whole(p),
    ensures
        row_tells(trace_row(p, font, y, e, now), font, y, font.height as int, e, now),
        same_above(p, trace_row(p, font, y, e, now), y),
        whole(trace_row(p, font, y, e, now)),
{
    reveal(row_tells);
    reveal_strlit("ms");
    reveal_strlit(">");
    reveal_strlit("?");
    let gw = font.width as int;
    let (dim, bg) = (rgb(DIM), rgb(DASH_BG));
    let ms = age_ms(now, e.timestamp_ns);
    let c = age_color(ms);
    let h = font.height as int;
    let f = at_most(e.from_task as int, 7);
    let t = at_most(e.to_task as int, 7);
    let (from, to) = (task_label(f), task_label(t));
    let x0 = 14 + 7 * gw;
    let x1 = x0 + from.len() * gw;
    let x2 = x1 + gw;
    let x3 = x2 + to.len() * gw + gw;
    let tg = label_of_tag(e.tag);
    assert(14 + (7 + from.len()) * gw == x1) by (nonlinear_arith)
        requires
            x1 == 14 + 7 * gw + from.len() * gw,
    ;
    assert(x2 + (to.len() + 1) * gw == x3) by (nonlinear_arith)
        requires
            x3 == x2 + to.len() * gw + gw,
    ;
    assert(0 <= from.len() * gw && 0 <= to.len() * gw) by (nonlinear_arith)
        requires
            gw >= 0,
    ;
    let age = age_text(ms);
    assert(age.len() * gw == 4 * gw);
    assert("ms"@.len() * gw == 2 * gw);
    assert(">"@.len() * gw == gw);
    let tc = task_color(t);
    let a = p.text(font, 14, y, age, dim, bg);
    let b = a.text(font, 14 + 4 * gw, y, "ms"@, dim, bg);
    let d = b.text(font, x0, y, from, task_color(f), bg);
    let g = d.text(font, x1, y, ">"@, c, bg);
    let k = g.text(font, x2, y, to, tc, bg);
    let r = k.text(font, x3, y, tg, c, bg);
    assert(r == trace_row(p, font, y, e, now)) by {
        if e.to_task >= 7 {
            assert(to == "?"@);
            assert(tc == dim);
            assert(to.len() * gw == gw);
        }
    }
    lemma_text_shows(p, font, 14, y, age, dim, bg);
    lemma_text_shows(a, font, 14 + 4 * gw, y, "ms"@, dim, bg);
    lemma_text_shows(b, font, x0, y, from, task_color(f), bg);
    lemma_text_shows(d, font, x1, y, ">"@, c, bg);
    lemma_text_shows(g, font, x2, y, to, tc, bg);
    lemma_text_shows(k, font, x3, y, tg, c, bg);
    lemma_shows_kept(a, font, 14, y, h, age, dim, bg, 14 + 4 * gw, y, "ms"@, dim, bg);
    lemma_shows_kept(b, font, 14, y, h, age, dim, bg, x0, y, from, task_color(f), bg);
    lemma_shows_kept(d, font, 14, y, h, age, dim, bg, x1, y, ">"@, c, bg);
    lemma_shows_kept(g, font, 14, y, h, age, dim, bg, x2, y, to, tc, bg);
    lemma_shows_kept(k, font, 14, y, h, age, dim, bg, x3, y, tg, c, bg);
    let u = 14 + 4 * gw;
    lemma_shows_kept(b, font, u, y, h, "ms"@, dim, bg, x0, y, from, task_color(f), bg);
    lemma_shows_kept(d, font, u, y, h, "ms"@, dim, bg, x1, y, ">"@, c, bg);
    lemma_shows_kept(g, font, u, y, h, "ms"@, dim, bg, x2, y, to, tc, bg);
    lemma_shows_kept(k, font, u, y, h, "ms"@, dim, bg, x3, y, tg, c, bg);
    lemma_shows_kept(d, font, x0, y, h, from, task_color(f), bg, x1, y, ">"@, c, bg);
    lemma_shows_kept(g, font, x0, y, h, from, task_color(f), bg, x2, y, to, tc, bg);
    lemma_shows_kept(k, font, x0, y, h, from, task_color(f), bg, x3, y, tg, c, bg);
    lemma_shows_kept(g, font, x1, y, h, ">"@, c, bg, x2, y, to, tc, bg);
    lemma_shows_kept(k, font, x1, y, h, ">"@, c, bg, x3, y, tg, c, bg);
    lemma_shows_kept(k, font, x2, y, h, to, tc, bg, x3, y, tg, c, bg);
    lemma_text_below(p, font, 14, y, age, dim, bg, y);
    lemma_text_below(a, font, 14 + 4 * gw, y, "ms"@, dim, bg, y);
    lemma_text_below(b, font, x0, y, from, task_color(f), bg, y);
    lemma_text_below(d, font, x1, y, ">"@, c, bg, y);
    lemma_text_below(g, font, x2, y, to, tc, bg, y);
    lemma_text_below(k, font, x3, y, tg, c, bg, y);
    assert forall|px: int, py: int| p.visible(px, py) && py < y implies #[trigger] r.at(px, py)
        == p.at(px, py) by {
        assert(a.at(px, py) == p.at(px, py));
        assert(b.at(px, py) == a.at(px, py));
        assert(d.at(px, py) == b.at(px, py));
        assert(g.at(px, py) == d.at(px, py));
        assert(k.at(px, py) == g.at(px, py));
    }
}

proof fn lemma_row_kept(
    p: Picture,
    q: Picture,
    font: AaFont,
    y: int,
    rows: int,
    fewer: int,
    e: TraceEntry,
    now: u64,
)
    requires
        row_tells(p, font, y, rows, e, now),
        fewer <= rows,
        same_above(p, q, y + fewer),
    ensures
        row_tells(q, font, y, fewer, e, now),
{
    reveal(row_tells);
    let gw = font.width as int;
    let bg = rgb(DASH_BG);
    let ms = age_ms(now, e.timestamp_ns);
    let c = age_color(ms);
    let from = name_of(e.from_task as int);
    let to = name_of(e.to_task as int);
    let (fc, tc) = (
        task_color(at_most(e.from_task as int, 7)),
        task_color(at_most(e.to_task as int, 7)),
    );
    let x1 = 14 + (7 + from.len()) * gw;
    let x2 = x1 + gw;
    let x3 = x2 + (to.len() + 1) * gw;
    let tg = label_of_tag(e.tag);
    lemma_shows_fewer(p, font, 14, y, rows, fewer, age_text(ms), rgb(DIM), bg);
    lemma_shows_above(p, q, font, 14, y, fewer, age_text(ms), rgb(DIM), bg);
    lemma_shows_fewer(p, font, 14 + 4 * gw, y, rows, fewer, "ms"@, rgb(DIM), bg);
    lemma_shows_above(p, q, font, 14 + 4 * gw, y, fewer, "ms"@, rgb(DIM), bg);
    lemma_shows_fewer(p, font, 14 + 7 * gw, y, rows, fewer, from, fc, bg);
    lemma_shows_above(p, q, font, 14 + 7 * gw, y, fewer, from, fc, bg);
    lemma_shows_fewer(p, font, x1, y, rows, fewer, ">"@, c, bg);
    lemma_shows_above(p, q, font, x1, y, fewer, ">"@, c, bg);
    lemma_shows_fewer(p, font, x2, y, rows, fewer, to, tc, bg);
    lemma_shows_above(p, q, font, x2, y, fewer, to, tc, bg);
    lemma_shows_fewer(p, font, x3, y, rows, fewer, tg, c, bg);
    lemma_shows_above(p, q, font, x3, y, fewer, tg, c, bg);
}

/// How many rows of a character are not under the next row, 14 further down.
pub open spec fn clear_rows(font: AaFont, last: bool) -> int {
    if last || font.height < 14 {
        font.height as int
    } else {
        14
    }
}

proof fn lemma_rows_tell(
    p: Picture,
    font: AaFont,
    trace: Seq<TraceEntry>,
    start: int,
    now: u64,
    n: int,
    r: int,
)
    requires
        font.wf(),
        whole(p),
        0 <= n,
        0 <= r < n || n == 0,
    ensures
        whole(trace_rows(p, font, trace, start, now, n)),
        same_above(p, trace_rows(p, font, trace, start, now, n), 310),
        0 <= r < n ==> row_tells(
            trace_rows(p, font, trace, start, now, n),
            font,
            310 + 14 * r,
            clear_rows(font, r == n - 1),
            trace[start + r],
            now,
        ),
    decreases n,
{
    if n > 0 {
        let q = trace_rows(p, font, trace, start, now, n - 1);
        let y = 310 + 14 * (n - 1);
        if r < n - 1 {
            lemma_rows_tell(p, font, trace, start, now, n - 1, r);
        } else if n - 1 > 0 {
            lemma_rows_tell(p, font, trace, start, now, n - 1, 0);
        } else {
            lemma_rows_tell(p, font, trace, start, now, 0, 0);
        }
        lemma_row_tells(q, font, y, trace[start + n - 1], now);
        lemma_one_more_row(
            p,
            q,
            trace_rows(p, font, trace, start, now, n),
            font,
            trace[start + r],
            now,
            n,
            r,
        );
    }
}

/// The rows above the last are as before.
proof fn lemma_one_more_row(
    p: Picture,
    q: Picture,
    z: Picture,
    font: AaFont,
    e: TraceEntry,
    now: u64,
    n: int,
    r: int,
)
    requires
        font.wf(),
        0 <= r < n,
        same_above(p, q, 310),
        same_above(q, z, 310 + 14 * (n - 1)),
        r < n - 1 ==> row_tells(q, font, 310 + 14 * r, clear_rows(font, r == n - 2), e, now),
    ensures
        same_above(p, z, 310),
        r < n - 1 ==> row_tells(z, font, 310 + 14 * r, clear_rows(font, false), e, now),
{
    assert forall|px: int, py: int| p.visible(px, py) && py < 310 implies #[trigger] z.at(px, py)
        == p.at(px, py) by {
        assert(z.at(px, py) == q.at(px, py));
    }
    if r < n - 1 {
        let fewer = clear_rows(font, false);
        let yr = 310 + 14 * r;
        assert forall|px: int, py: int| q.visible(px, py) && py < yr + fewer implies #[trigger] z.at(
            px,
            py,
        ) == q.at(px, py) by {}
        lemma_row_kept(q, z, font, yr, clear_rows(font, r == n - 2), fewer, e, now);
    }
}

/// The message flow tells of the latest messages, the oldest of them at the top
/// and the newest in the last row: with `n` messages on record, up to four are
/// shown, and row `r` tells of number `n - min(n, 4) + r`.
pub proof fn law_flow_tells_of_the_latest(
    p: Picture,
    font: AaFont,
    trace: Seq<TraceEntry>,
    now: u64,
    r: int,
)
    requires
        font.wf(),
        whole(p),
        0 <= r < trace.len(),
        r < 4,
    ensures
        trace.len() >= 4 ==> row_tells(
            message_flow(p, font, trace, now),
            font,
            310 + 14 * r,
            clear_rows(font, r == 3),
            trace[trace.len() - 4 + r],
            now,
        ),
        trace.len() < 4 ==> row_tells(
            message_flow(p, font, trace, now),
            font,
            310 + 14 * r,
            clear_rows(font, r == trace.len() - 1),
            trace[r],
            now,
        ),
{
    let show = at_most(trace.len() as int, 4);
    lemma_rows_tell(p, font, trace, trace.len() - show, now, show, r);
}

/// The message flow does not depend on anything but the latest four messages.
pub proof fn law_flow_forgets_the_rest(
    p: Picture,
    font: AaFont,
    a: Seq<TraceEntry>,
    b: Seq<TraceEntry>,
    now: u64,
)
    requires
        a.len() >= 4,
        b.len() >= 4,
        a.skip(a.len() - 4) == b.skip(b.len() - 4),
    ensures
        message_flow(p, font, a, now) == message_flow(p, font, b, now),
{
    lemma_same_rows(p, font, a, b, now, 4);
}

proof fn lemma_same_rows(
    p: Picture,
    font: AaFont,
    a: Seq<TraceEntry>,
    b: Seq<TraceEntry>,
    now: u64,
    n: int,
)
    requires
        a.len() >= 4,
        b.len() >= 4,
        a.skip(a.len() - 4) == b.skip(b.len() - 4),
        0 <= n <= 4,
    ensures
        trace_rows(p, font, a, a.len() - 4, now, n) == trace_rows(p, font, b, b.len() - 4, now, n),
    decreases n,
{
    if n > 0 {
        lemma_same_rows(p, font, a, b, now, n - 1);
        assert(a.skip(a.len() - 4)[n - 1] == a[a.len() - 4 + n - 1]);
        assert(b.skip(b.len() - 4)[n - 1] == b[b.len() - 4 + n - 1]);
    }
}

/// Tasks and messages by name: every task that the desktop starts with has its
/// own label, and every kind of message that is common too.
pub proof fn law_labels(task: int, t: u16)
    ensures
        task == 0 ==> name_of(task) == "idle"@,
        task == 1 ==> name_of(task) == "kbd"@,
        task == 2 ==> name_of(task) == "comp"@,
        task == 3 ==> name_of(task) == "shell"@,
        task == 4 ==> name_of(task) == "dash"@,
        task == 5 ==> name_of(task) == "ping"@,
        task == 6 ==> name_of(task) == "pong"@,
        task >= 7 ==> name_of(task) == "?"@,
        t == 10 ==> label_of_tag(t) == "IRQ"@,
        t == 20 ==> label_of_tag(t) == "KEY"@,
        t == 21 ==> label_of_tag(t) == "KEY_UP"@,
        t == 1 ==> label_of_tag(t) == "PING"@,
        t == 2 ==> label_of_tag(t) == "PONG"@,
        t != 10 && t != 20 && t != 21 && t != 1 && t != 2 ==> label_of_tag(t) == "MSG"@,
{
}

/// A message's age is the time since it was sent, in milliseconds; a fresh one,
/// of less than 300, stands out most, and one of two seconds or more least.
pub proof fn law_age(now: u64, sent: u64)
    ensures
        now >= sent ==> age_ms(now, sent) == (now - sent) / 1_000_000,
        now < sent ==> age_ms(now, sent) == 0,
        age_ms(now, sent) < 300 ==> age_color(age_ms(now, sent)) == rgb(GREEN),
        300 <= age_ms(now, sent) < 2000 ==> age_color(age_ms(now, sent)) == rgb(SUBTLE),
        2000 <= age_ms(now, sent) ==> age_color(age_ms(now, sent)) == rgb(DIM),
{
}

/// An age below ten seconds is shown as its digits, to the right, with spaces
/// before them.
pub proof fn law_age_text(ms: u64, i: int)
    requires
        ms < 10_000,
        0 <= i < 4,
    ensures
        age_text(ms).len() == 4,
        ({
            let d = text::decimal(ms as nat);
            &&& d.len() <= 4
            &&& i >= 4 - d.len() ==> age_text(ms)[i] == d[i - (4 - d.len())]
            &&& i < 4 - d.len() ==> age_text(ms)[i] == ' '
        }),
{
    reveal_with_fuel(text::decimal, 5);
    let n = ms as nat;
    assert(n / 10 / 10 == n / 100 && n / 10 / 10 / 10 == n / 1000);
}

pub proof fn lemma_above_further(p: Picture, q: Picture, z: Picture, a: int, b: int)
    requires
        same_above(p, q, a),
        same_above(q, z, b),
        a <= b,
    ensures
        same_above(p, z, a),
{
    assert forall|px: int, py: int| p.visible(px, py) && py < a implies #[trigger] z.at(px, py)
        == p.at(px, py) by {
        assert(z.at(px, py) == q.at(px, py));
    }
}

pub proof fn lemma_rect_below(p: Picture, x: int, y: int, w: int, h: int, c: Color)
    requires
        whole(p),
    ensures
        same_above(p, p.rect(x, y, w, h, c), y),
        whole(p.rect(x, y, w, h, c)),
{
    let q = p.rect(x, y, w, h, c);
    assert forall|px: int, py: int| p.visible(px, py) && py < y implies #[trigger] q.at(px, py)
        == p.at(px, py) by {
        framebuffer::law_rect(p, x, y, w, h, c, px, py);
    }
}

/// A measurement's line shows its latest value beside its label.
proof fn lemma_pair(p: Picture, font: AaFont, y: int, label: Seq<char>, s: MetricSample, bg: Color)
    requires
        font.wf(),
        whole(p),
        desktop::latency(s.latest).len() * font.width <= 52,
    ensures
        shows(
            pair_line(p, font, 14, y, label, s, bg),
            font,
            110,
            y,
            font.height as int,
            desktop::latency(s.latest),
            rgb(TEXT),
            bg,
        ),
        shows(
            pair_line(p, font, 14, y, label, s, bg),
            font,
            172,
            y,
            font.height as int,
            desktop::latency(s.max),
            rgb(DIM),
            bg,
        ),
        same_above(p, pair_line(p, font, 14, y, label, s, bg), y),
        whole(pair_line(p, font, 14, y, label, s, bg)),
{
    let h = font.height as int;
    let v = desktop::latency(s.latest);
    let a = p.text(font, 14, y, label, rgb(SUBTLE), bg);
    let b = a.text(font, 110, y, v, rgb(TEXT), bg);
    let c = b.text(font, 162, y, "/"@, rgb(DIM), bg);
    let d = c.text(font, 172, y, desktop::latency(s.max), rgb(DIM), bg);
    lemma_text_below(p, font, 14, y, label, rgb(SUBTLE), bg, y);
    lemma_text_below(a, font, 110, y, v, rgb(TEXT), bg, y);
    lemma_text_below(b, font, 162, y, "/"@, rgb(DIM), bg, y);
    lemma_text_below(c, font, 172, y, desktop::latency(s.max), rgb(DIM), bg, y);
    lemma_above_further(p, a, b, y, y);
    lemma_above_further(p, b, c, y, y);
    lemma_above_further(p, c, d, y, y);
    lemma_text_shows(a, font, 110, y, v, rgb(TEXT), bg);
    lemma_shows_kept(b, font, 110, y, h, v, rgb(TEXT), bg, 162, y, "/"@, rgb(DIM), bg);
    lemma_shows_kept(
        c,
        font,
        110,
        y,
        h,
        v,
        rgb(TEXT),
        bg,
        172,
        y,
        desktop::latency(s.max),
        rgb(DIM),
        bg,
    );
    lemma_text_shows(c, font, 172, y, desktop::latency(s.max), rgb(DIM), bg);
    assert(pair_line(p, font, 14, y, label, s, bg) == d);
}

proof fn lemma_triplet(p: Picture, font: AaFont, y: int, a: u64, b: u64, c: u64, bg: Color)
    requires
        font.wf(),
        whole(p),
    ensures
        ({
            let q = triplet_line(p, font, 14, y, a, b, c, bg);
            let (va, vb, vc) = (desktop::latency(a), desktop::latency(b), desktop::latency(c));
            let h = font.height as int;
            &&& same_above(p, q, y)
            &&& whole(q)
            &&& va.len() * font.width <= 64 ==> shows(q, font, 34, y, h, va, rgb(TEXT), bg)
            &&& vb.len() * font.width <= 74 ==> shows(q, font, 128, y, h, vb, rgb(TEXT), bg)
            &&& shows(q, font, 222, y, h, vc, rgb(TEXT), bg)
        }),
{
    let h = font.height as int;
    let (va, vb, vc) = (desktop::latency(a), desktop::latency(b), desktop::latency(c));
    let (l, v) = (rgb(SUBTLE), rgb(TEXT));
    let p1 = p.text(font, 14, y, "BG"@, l, bg);
    let p2 = p1.text(font, 34, y, va, v, bg);
    let p3 = p2.text(font, 98, y, "WIN"@, l, bg);
    let p4 = p3.text(font, 128, y, vb, v, bg);
    let p5 = p4.text(font, 202, y, "UI"@, l, bg);
    let p6 = p5.text(font, 222, y, vc, v, bg);
    lemma_text_below(p, font, 14, y, "BG"@, l, bg, y);
    lemma_text_below(p1, font, 34, y, va, v, bg, y);
    lemma_text_below(p2, font, 98, y, "WIN"@, l, bg, y);
    lemma_text_below(p3, font, 128, y, vb, v, bg, y);
    lemma_text_below(p4, font, 202, y, "UI"@, l, bg, y);
    lemma_text_below(p5, font, 222, y, vc, v, bg, y);
    lemma_above_further(p, p1, p2, y, y);
    lemma_above_further(p, p2, p3, y, y);
    lemma_above_further(p, p3, p4, y, y);
    lemma_above_further(p, p4, p5, y, y);
    lemma_above_further(p, p5, p6, y, y);
    if va.len() * font.width <= 64 {
        lemma_text_shows(p1, font, 34, y, va, v, bg);
        lemma_shows_kept(p2, font, 34, y, h, va, v, bg, 98, y, "WIN"@, l, bg);
        lemma_shows_kept(p3, font, 34, y, h, va, v, bg, 128, y, vb, v, bg);
        lemma_shows_kept(p4, font, 34, y, h, va, v, bg, 202, y, "UI"@, l, bg);
        lemma_shows_kept(p5, font, 34, y, h, va, v, bg, 222, y, vc, v, bg);
    }
    if vb.len() * font.width <= 74 {
        lemma_text_shows(p3, font, 128, y, vb, v, bg);
        lemma_shows_kept(p4, font, 128, y, h, vb, v, bg, 202, y, "UI"@, l, bg);
        lemma_shows_kept(p5, font, 128, y, h, vb, v, bg, 222, y, vc, v, bg);
    }
    lemma_text_shows(p5, font, 222, y, vc, v, bg);
    assert(triplet_line(p, font, 14, y, a, b, c, bg) == p6);
}

/// The lines of measurements, one below the other, leave each other readable.
proof fn lemma_measurements(
    p: Picture,
    font: AaFont,
    m: Snapshot,
    y: int,
    s: MetricSample,
    bg: Color,
)
    requires
        font.wf(),
        whole(p),
        desktop::latency(m.frame_us.latest).len() * font.width <= 52,
        desktop::latency(m.present_us.latest).len() * font.width <= 52,
        desktop::latency(m.input_to_photon_us.latest).len() * font.width <= 52,
        desktop::latency(m.ipc_rtt_us.latest).len() * font.width <= 52,
        desktop::latency(m.sched_wake_us.latest).len() * font.width <= 52,
        (y == 176 && s == m.frame_us) || (y == 194 && s == m.present_us) || (y == 212 && s
            == m.input_to_photon_us) || (y == 230 && s == m.ipc_rtt_us) || (y == 248 && s
            == m.sched_wake_us),
    ensures
        ({
            let frame = pair_line(p, font, 14, 176, "Frame"@, m.frame_us, bg);
            let present = pair_line(frame, font, 14, 194, "Present"@, m.present_us, bg);
            let photon = pair_line(present, font, 14, 212, "Photon"@, m.input_to_photon_us, bg);
            let rtt = pair_line(photon, font, 14, 230, "IPC RTT"@, m.ipc_rtt_us, bg);
            let wake = pair_line(rtt, font, 14, 248, "Wake"@, m.sched_wake_us, bg);
            &&& whole(wake)
            &&& same_above(p, wake, 176)
            &&& shows(
                wake,
                font,
                110,
                y,
                at_most(font.height as int, 18),
                desktop::latency(s.latest),
                rgb(TEXT),
                bg,
            )
            &&& shows(
                wake,
                font,
                172,
                y,
                at_most(font.height as int, 18),
                desktop::latency(s.max),
                rgb(DIM),
                bg,
            )
        }),
{
    let rows = at_most(font.height as int, 18);
    let frame = pair_line(p, font, 14, 176, "Frame"@, m.frame_us, bg);
    lemma_pair(p, font, 176, "Frame"@, m.frame_us, bg);
    let present = pair_line(frame, font, 14, 194, "Present"@, m.present_us, bg);
    lemma_pair(frame, font, 194, "Present"@, m.present_us, bg);
    let photon = pair_line(present, font, 14, 212, "Photon"@, m.input_to_photon_us, bg);
    lemma_pair(present, font, 212, "Photon"@, m.input_to_photon_us, bg);
    let rtt = pair_line(photon, font, 14, 230, "IPC RTT"@, m.ipc_rtt_us, bg);
    lemma_pair(photon, font, 230, "IPC RTT"@, m.ipc_rtt_us, bg);
    let wake = pair_line(rtt, font, 14, 248, "Wake"@, m.sched_wake_us, bg);
    lemma_pair(rtt, font, 248, "Wake"@, m.sched_wake_us, bg);
    lemma_above_further(photon, rtt, wake, 230, 248);
    lemma_above_further(present, photon, wake, 212, 230);
    lemma_above_further(frame, present, wake, 194, 212);
    lemma_above_further(p, frame, wake, 176, 194);
    let v = desktop::latency(s.latest);
    let at = if y == 176 {
        frame
    } else if y == 194 {
        present
    } else if y == 212 {
        photon
    } else if y == 230 {
        rtt
    } else {
        wake
    };
    let u = desktop::latency(s.max);
    lemma_shows_fewer(at, font, 110, y, font.height as int, rows, v, rgb(TEXT), bg);
    lemma_shows_fewer(at, font, 172, y, font.height as int, rows, u, rgb(DIM), bg);
    if y < 248 {
        lemma_above_less(at, wake, y + 18, y + rows);
        lemma_shows_above(at, wake, font, 110, y, rows, v, rgb(TEXT), bg);
        lemma_shows_above(at, wake, font, 172, y, rows, u, rgb(DIM), bg);
    }
}

pub proof fn lemma_above_less(p: Picture, q: Picture, y: int, less: int)
    requires
        same_above(p, q, y),
        less <= y,
    ensures
        same_above(p, q, less),
{
}

/// What is drawn below the system information.
spec fn lower_part(info: Picture, font: AaFont, trace: Seq<TraceEntry>, now: u64) -> Picture {
    message_flow(
        info.text(font, 14, 288, "Message Flow"@, rgb(ORANGE), rgb(DASH_BG)).rect(
            14,
            302,
            592,
            1,
            rgb(SEP),
        ),
        font,
        trace,
        now,
    ).text(font, 14, 378, "The architecture is perceptible."@, rgb(DIM), rgb(DASH_BG))
}

proof fn lemma_lower_part(info: Picture, font: AaFont, trace: Seq<TraceEntry>, now: u64)
    requires
        font.wf(),
        whole(info),
    ensures
        same_above(info, lower_part(info, font, trace, now), 288),
        whole(lower_part(info, font, trace, now)),
        ({
            let start = info.text(font, 14, 288, "Message Flow"@, rgb(ORANGE), rgb(DASH_BG)).rect(
                14,
                302,
                592,
                1,
                rgb(SEP),
            );
            whole(start) && same_above(
                message_flow(start, font, trace, now),
                lower_part(info, font, trace, now),
                378,
            )
        }),
{
    let bg = rgb(DASH_BG);
    let a = info.text(font, 14, 288, "Message Flow"@, rgb(ORANGE), bg);
    let b = a.rect(14, 302, 592, 1, rgb(SEP));
    let c = message_flow(b, font, trace, now);
    let last = "The architecture is perceptible."@;
    let d = c.text(font, 14, 378, last, rgb(DIM), bg);
    lemma_text_below(info, font, 14, 288, "Message Flow"@, rgb(ORANGE), bg, 288);
    lemma_rect_below(a, 14, 302, 592, 1, rgb(SEP));
    if trace.len() == 0 {
        lemma_text_below(
            b,
            font,
            14,
            310,
            "(waiting for messages...)"@,
            rgb(DIM),
            bg,
            310,
        );
    } else {
        let show = at_most(trace.len() as int, 4);
        lemma_rows_tell(b, font, trace, trace.len() - show, now, show, 0);
    }
    lemma_text_below(c, font, 14, 378, last, rgb(DIM), bg, 378);
    lemma_above_further(b, c, d, 310, 378);
    lemma_above_further(a, b, d, 302, 310);
    lemma_above_further(info, a, d, 288, 302);
}

/// The head of the dashboard, down to the lines of measurements.
spec fn upper_part(p: Picture, font: AaFont, ns: u64, tasks: u64, channels: u64) -> Picture {
    let bg = rgb(DASH_BG);
    let (label, value) = (rgb(SUBTLE), rgb(TEXT));
    let count = desktop::number(tasks, 16);
    let head = p.rect(0, 0, p.width, p.height, bg).rect(0, 0, 620, 38, rgb(HEADER_BG)).text(
        font,
        14,
        10,
        "~  dashboard"@,
        rgb(ORANGE),
        rgb(HEADER_BG),
    ).rect(0, 38, 620, 1, rgb(SEP));
    let clock = head.paint(
        framebuffer::aa_shape(head, font, 14, 50, desktop::hms(ns), value, bg, 2),
    ).text(font, 14, 90, "uptime"@, rgb(DIM), bg).rect(14, 112, 592, 1, rgb(SEP));
    clock.text(font, 14, 122, "Tasks"@, label, bg).text(font, 110, 122, count, value, bg).text(
        font,
        110 + count.len() * font.width + 6,
        122,
        "EL1 @ 1 kHz"@,
        value,
        bg,
    ).text(font, 14, 140, "Arch"@, label, bg).text(
        font,
        110,
        140,
        "aarch64 (Apple Silicon)"@,
        value,
        bg,
    ).text(font, 14, 158, "Chans"@, label, bg).text(
        font,
        110,
        158,
        desktop::number(channels, 16),
        value,
        bg,
    )
}

proof fn lemma_upper_part(p: Picture, font: AaFont, ns: u64, tasks: u64, channels: u64)
    requires
        font.wf(),
        whole(p),
    ensures
        whole(upper_part(p, font, ns, tasks, channels)),
        shows(
            upper_part(p, font, ns, tasks, channels),
            font,
            110,
            122,
            at_most(font.height as int, 18),
            desktop::number(tasks, 16),
            rgb(TEXT),
            rgb(DASH_BG),
        ),
        shows(
            upper_part(p, font, ns, tasks, channels),
            font,
            110,
            158,
            font.height as int,
            desktop::number(channels, 16),
            rgb(TEXT),
            rgb(DASH_BG),
        ),
{
    let bg = rgb(DASH_BG);
    let (label, value) = (rgb(SUBTLE), rgb(TEXT));
    let rows = at_most(font.height as int, 18);
    let count = desktop::number(tasks, 16);
    let chans = desktop::number(channels, 16);
    let head = p.rect(0, 0, p.width, p.height, bg).rect(0, 0, 620, 38, rgb(HEADER_BG)).text(
        font,
        14,
        10,
        "~  dashboard"@,
        rgb(ORANGE),
        rgb(HEADER_BG),
    ).rect(0, 38, 620, 1, rgb(SEP));
    let clock = head.paint(
        framebuffer::aa_shape(head, font, 14, 50, desktop::hms(ns), value, bg, 2),
    ).text(font, 14, 90, "uptime"@, rgb(DIM), bg).rect(14, 112, 592, 1, rgb(SEP));
    assert(whole(clock));
    let x2 = 110 + count.len() * font.width + 6;
    let a = clock.text(font, 14, 122, "Tasks"@, label, bg);
    let b = a.text(font, 110, 122, count, value, bg);
    let c = b.text(font, x2, 122, "EL1 @ 1 kHz"@, value, bg);
    let d = c.text(font, 14, 140, "Arch"@, label, bg);
    let e = d.text(font, 110, 140, "aarch64 (Apple Silicon)"@, value, bg);
    let f = e.text(font, 14, 158, "Chans"@, label, bg);
    let g = f.text(font, 110, 158, chans, value, bg);
    assert(g == upper_part(p, font, ns, tasks, channels));
    lemma_text_below(clock, font, 14, 122, "Tasks"@, label, bg, 122);
    lemma_text_below(a, font, 110, 122, count, value, bg, 122);
    lemma_text_below(b, font, x2, 122, "EL1 @ 1 kHz"@, value, bg, 122);
    lemma_text_below(c, font, 14, 140, "Arch"@, label, bg, 140);
    lemma_text_below(d, font, 110, 140, "aarch64 (Apple Silicon)"@, value, bg, 140);
    lemma_text_below(e, font, 14, 158, "Chans"@, label, bg, 158);
    lemma_text_below(f, font, 110, 158, chans, value, bg, 158);
    lemma_above_further(e, f, g, 158, 158);
    lemma_above_further(d, e, g, 140, 158);
    lemma_above_further(c, d, g, 140, 140);
    lemma_text_shows(a, font, 110, 122, count, value, bg);
    lemma_shows_kept(
        b,
        font,
        110,
        122,
        font.height as int,
        count,
        value,
        bg,
        x2,
        122,
        "EL1 @ 1 kHz"@,
        value,
        bg,
    );
    lemma_shows_fewer(c, font, 110, 122, font.height as int, rows, count, value, bg);
    lemma_above_less(c, g, 140, 122 + rows);
    lemma_shows_above(c, g, font, 110, 122, rows, count, value, bg);
    lemma_text_shows(f, font, 110, 158, chans, value, bg);
}

/// The dashboard tells how many tasks and channels there are, as far as its lines
/// do not run into each other.
#[verifier::spinoff_prover]
#[verifier::rlimit(60)]
pub proof fn law_dashboard_tells_counts(
    p: Picture,
    font: AaFont,
    ns: u64,
    m: Snapshot,
    tasks: u64,
    channels: u64,
    trace: Seq<TraceEntry>,
    now: u64,
)
    requires
        font.wf(),
        whole(p),
        desktop::latency(m.frame_us.latest).len() * font.width <= 52,
        desktop::latency(m.present_us.latest).len() * font.width <= 52,
        desktop::latency(m.input_to_photon_us.latest).len() * font.width <= 52,
        desktop::latency(m.ipc_rtt_us.latest).len() * font.width <= 52,
        desktop::latency(m.sched_wake_us.latest).len() * font.width <= 52,
    ensures
        ({
            let q = dashboard(p, font, ns, m, tasks, channels, trace, now);
            let rows = at_most(font.height as int, 18);
            let bg = rgb(DASH_BG);
            &&& shows(q, font, 110, 122, rows, desktop::number(tasks, 16), rgb(TEXT), bg)
            &&& shows(q, font, 110, 158, rows, desktop::number(channels, 16), rgb(TEXT), bg)
        }),
{
    let bg = rgb(DASH_BG);
    let rows = at_most(font.height as int, 18);
    let up = upper_part(p, font, ns, tasks, channels);
    lemma_upper_part(p, font, ns, tasks, channels);
    lemma_whole_dashboard(p, font, ns, m, tasks, channels, trace, now);
    let q = dashboard(p, font, ns, m, tasks, channels, trace, now);
    let (count, chans) = (desktop::number(tasks, 16), desktop::number(channels, 16));
    lemma_above_less(up, q, 176, 122 + rows);
    lemma_shows_above(up, q, font, 110, 122, rows, count, rgb(TEXT), bg);
    lemma_shows_fewer(up, font, 110, 158, font.height as int, rows, chans, rgb(TEXT), bg);
    lemma_above_less(up, q, 176, 158 + rows);
    lemma_shows_above(up, q, font, 110, 158, rows, chans, rgb(TEXT), bg);
}

/// Where the parts of the dashboard stand.
proof fn lemma_whole_dashboard(
    p: Picture,
    font: AaFont,
    ns: u64,
    m: Snapshot,
    tasks: u64,
    channels: u64,
    trace: Seq<TraceEntry>,
    now: u64,
)
    requires
        font.wf(),
        whole(p),
        desktop::latency(m.frame_us.latest).len() * font.width <= 52,
        desktop::latency(m.present_us.latest).len() * font.width <= 52,
        desktop::latency(m.input_to_photon_us.latest).len() * font.width <= 52,
        desktop::latency(m.ipc_rtt_us.latest).len() * font.width <= 52,
        desktop::latency(m.sched_wake_us.latest).len() * font.width <= 52,
    ensures
        ({
            let bg = rgb(DASH_BG);
            let q = dashboard(p, font, ns, m, tasks, channels, trace, now);
            let up = upper_part(p, font, ns, tasks, channels);
            let frame = pair_line(up, font, 14, 176, "Frame"@, m.frame_us, bg);
            let present = pair_line(frame, font, 14, 194, "Present"@, m.present_us, bg);
            let photon = pair_line(present, font, 14, 212, "Photon"@, m.input_to_photon_us, bg);
            let rtt = pair_line(photon, font, 14, 230, "IPC RTT"@, m.ipc_rtt_us, bg);
            let wake = pair_line(rtt, font, 14, 248, "Wake"@, m.sched_wake_us, bg);
            let info = triplet_line(
                wake,
                font,
                14,
                266,
                m.background_us.latest,
                m.windows_us.latest,
                m.chrome_us.latest,
                bg,
            );
            &&& whole(wake)
            &&& same_above(info, q, 288)
            &&& same_above(wake, q, 266)
            &&& same_above(up, q, 176)
        }),
{
    let bg = rgb(DASH_BG);
    let q = dashboard(p, font, ns, m, tasks, channels, trace, now);
    let up = upper_part(p, font, ns, tasks, channels);
    lemma_upper_part(p, font, ns, tasks, channels);
    lemma_measurements(up, font, m, 248, m.sched_wake_us, bg);
    let frame = pair_line(up, font, 14, 176, "Frame"@, m.frame_us, bg);
    let present = pair_line(frame, font, 14, 194, "Present"@, m.present_us, bg);
    let photon = pair_line(present, font, 14, 212, "Photon"@, m.input_to_photon_us, bg);
    let rtt = pair_line(photon, font, 14, 230, "IPC RTT"@, m.ipc_rtt_us, bg);
    let wake = pair_line(rtt, font, 14, 248, "Wake"@, m.sched_wake_us, bg);
    let (x, y, z) = (m.background_us.latest, m.windows_us.latest, m.chrome_us.latest);
    let info = triplet_line(wake, font, 14, 266, x, y, z, bg);
    lemma_triplet(wake, font, 266, x, y, z, bg);
    assert(info == system_info(p, font, ns, m, tasks, channels));
    assert(q == lower_part(info, font, trace, now));
    lemma_lower_part(info, font, trace, now);
    lemma_above_further(wake, info, q, 266, 288);
    lemma_above_further(up, wake, q, 176, 266);
}

/// The dashboard tells each measurement, its latest value and its largest, in the row
/// of its own label: the frame, the presentation, the way from a key to the screen, a
/// round trip and a wake-up.
#[verifier::spinoff_prover]
#[verifier::rlimit(60)]
pub proof fn law_dashboard_tells_measurements(
    p: Picture,
    font: AaFont,
    ns: u64,
    m: Snapshot,
    tasks: u64,
    channels: u64,
    trace: Seq<TraceEntry>,
    now: u64,
)
    requires
        font.wf(),
        whole(p),
        desktop::latency(m.frame_us.latest).len() * font.width <= 52,
        desktop::latency(m.present_us.latest).len() * font.width <= 52,
        desktop::latency(m.input_to_photon_us.latest).len() * font.width <= 52,
        desktop::latency(m.ipc_rtt_us.latest).len() * font.width <= 52,
        desktop::latency(m.sched_wake_us.latest).len() * font.width <= 52,
    ensures
        ({
            let q = dashboard(p, font, ns, m, tasks, channels, trace, now);
            let rows = at_most(font.height as int, 18);
            let (fg, bg) = (rgb(TEXT), rgb(DASH_BG));
            let photon = desktop::latency(m.input_to_photon_us.latest);
            &&& shows(q, font, 110, 176, rows, desktop::latency(m.frame_us.latest), fg, bg)
            &&& shows(q, font, 110, 194, rows, desktop::latency(m.present_us.latest), fg, bg)
            &&& shows(q, font, 110, 212, rows, photon, fg, bg)
            &&& shows(q, font, 110, 230, rows, desktop::latency(m.ipc_rtt_us.latest), fg, bg)
            &&& shows(q, font, 110, 248, rows, desktop::latency(m.sched_wake_us.latest), fg, bg)
            &&& shows(q, font, 172, 176, rows, desktop::latency(m.frame_us.max), rgb(DIM), bg)
            &&& shows(q, font, 172, 194, rows, desktop::latency(m.present_us.max), rgb(DIM), bg)
            &&& shows(
                q,
                font,
                172,
                212,
                rows,
                desktop::latency(m.input_to_photon_us.max),
                rgb(DIM),
                bg,
            )
            &&& shows(q, font, 172, 230, rows, desktop::latency(m.ipc_rtt_us.max), rgb(DIM), bg)
            &&& shows(q, font, 172, 248, rows, desktop::latency(m.sched_wake_us.max), rgb(DIM), bg)
        }),
{
    lemma_measurement_told(p, font, ns, m, tasks, channels, trace, now, 176, m.frame_us);
    lemma_measurement_told(p, font, ns, m, tasks, channels, trace, now, 194, m.present_us);
    lemma_measurement_told(p, font, ns, m, tasks, channels, trace, now, 212, m.input_to_photon_us);
    lemma_measurement_told(p, font, ns, m, tasks, channels, trace, now, 230, m.ipc_rtt_us);
    lemma_measurement_told(p, font, ns, m, tasks, channels, trace, now, 248, m.sched_wake_us);
}

proof fn lemma_measurement_told(
    p: Picture,
    font: AaFont,
    ns: u64,
    m: Snapshot,
    tasks: u64,
    channels: u64,
    trace: Seq<TraceEntry>,
    now: u64,
    y: int,
    s: MetricSample,
)
    requires
        font.wf(),
        whole(p),
        desktop::latency(m.frame_us.latest).len() * font.width <= 52,
        desktop::latency(m.present_us.latest).len() * font.width <= 52,
        desktop::latency(m.input_to_photon_us.latest).len() * font.width <= 52,
        desktop::latency(m.ipc_rtt_us.latest).len() * font.width <= 52,
        desktop::latency(m.sched_wake_us.latest).len() * font.width <= 52,
        (y == 176 && s == m.frame_us) || (y == 194 && s == m.present_us) || (y == 212 && s
            == m.input_to_photon_us) || (y == 230 && s == m.ipc_rtt_us) || (y == 248 && s
            == m.sched_wake_us),
    ensures
        shows(
            dashboard(p, font, ns, m, tasks, channels, trace, now),
            font,
            110,
            y,
            at_most(font.height as int, 18),
            desktop::latency(s.latest),
            rgb(TEXT),
            rgb(DASH_BG),
        ),
        shows(
            dashboard(p, font, ns, m, tasks, channels, trace, now),
            font,
            172,
            y,
            at_most(font.height as int, 18),
            desktop::latency(s.max),
            rgb(DIM),
            rgb(DASH_BG),
        ),
{
    let bg = rgb(DASH_BG);
    let rows = at_most(font.height as int, 18);
    let q = dashboard(p, font, ns, m, tasks, channels, trace, now);
    let up = upper_part(p, font, ns, tasks, channels);
    lemma_upper_part(p, font, ns, tasks, channels);
    lemma_whole_dashboard(p, font, ns, m, tasks, channels, trace, now);
    lemma_measurements(up, font, m, y, s, bg);
    let frame = pair_line(up, font, 14, 176, "Frame"@, m.frame_us, bg);
    let present = pair_line(frame, font, 14, 194, "Present"@, m.present_us, bg);
    let photon = pair_line(present, font, 14, 212, "Photon"@, m.input_to_photon_us, bg);
    let rtt = pair_line(photon, font, 14, 230, "IPC RTT"@, m.ipc_rtt_us, bg);
    let wake = pair_line(rtt, font, 14, 248, "Wake"@, m.sched_wake_us, bg);
    lemma_above_less(wake, q, 266, y + rows);
    lemma_shows_above(wake, q, font, 110, y, rows, desktop::latency(s.latest), rgb(TEXT), bg);
    lemma_shows_above(wake, q, font, 172, y, rows, desktop::latency(s.max), rgb(DIM), bg);
}

/// The dashboard tells the three phases of a frame, each behind its label: the
/// background, the windows and the bars.
#[verifier::spinoff_prover]
#[verifier::rlimit(60)]
pub proof fn law_dashboard_tells_phases(
    p: Picture,
    font: AaFont,
    ns: u64,
    m: Snapshot,
    tasks: u64,
    channels: u64,
    trace: Seq<TraceEntry>,
    now: u64,
)
    requires
        font.wf(),
        whole(p),
        desktop::latency(m.frame_us.latest).len() * font.width <= 52,
        desktop::latency(m.present_us.latest).len() * font.width <= 52,
        desktop::latency(m.input_to_photon_us.latest).len() * font.width <= 52,
        desktop::latency(m.ipc_rtt_us.latest).len() * font.width <= 52,
        desktop::latency(m.sched_wake_us.latest).len() * font.width <= 52,
        desktop::latency(m.background_us.latest).len() * font.width <= 64,
        desktop::latency(m.windows_us.latest).len() * font.width <= 74,
    ensures
        ({
            let q = dashboard(p, font, ns, m, tasks, channels, trace, now);
            let rows = at_most(font.height as int, 22);
            let (fg, bg) = (rgb(TEXT), rgb(DASH_BG));
            &&& shows(q, font, 34, 266, rows, desktop::latency(m.background_us.latest), fg, bg)
            &&& shows(q, font, 128, 266, rows, desktop::latency(m.windows_us.latest), fg, bg)
            &&& shows(q, font, 222, 266, rows, desktop::latency(m.chrome_us.latest), fg, bg)
        }),
{
    let bg = rgb(DASH_BG);
    let v = rgb(TEXT);
    let h = font.height as int;
    let rows = at_most(h, 22);
    let q = dashboard(p, font, ns, m, tasks, channels, trace, now);
    let up = upper_part(p, font, ns, tasks, channels);
    lemma_whole_dashboard(p, font, ns, m, tasks, channels, trace, now);
    let frame = pair_line(up, font, 14, 176, "Frame"@, m.frame_us, bg);
    let present = pair_line(frame, font, 14, 194, "Present"@, m.present_us, bg);
    let photon = pair_line(present, font, 14, 212, "Photon"@, m.input_to_photon_us, bg);
    let rtt = pair_line(photon, font, 14, 230, "IPC RTT"@, m.ipc_rtt_us, bg);
    let wake = pair_line(rtt, font, 14, 248, "Wake"@, m.sched_wake_us, bg);
    let (x, y, z) = (m.background_us.latest, m.windows_us.latest, m.chrome_us.latest);
    let info = triplet_line(wake, font, 14, 266, x, y, z, bg);
    lemma_triplet(wake, font, 266, x, y, z, bg);
    let (va, vb, vc) = (desktop::latency(x), desktop::latency(y), desktop::latency(z));
    lemma_above_less(info, q, 288, 266 + rows);
    lemma_shows_fewer(info, font, 34, 266, h, rows, va, v, bg);
    lemma_shows_above(info, q, font, 34, 266, rows, va, v, bg);
    lemma_shows_fewer(info, font, 128, 266, h, rows, vb, v, bg);
    lemma_shows_above(info, q, font, 128, 266, rows, vb, v, bg);
    lemma_shows_fewer(info, font, 222, 266, h, rows, vc, v, bg);
    lemma_shows_above(info, q, font, 222, 266, rows, vc, v, bg);
}

/// The dashboard's flow is the message flow, in the rows above its last line.
pub proof fn law_dashboard_tells_the_flow(
    p: Picture,
    font: AaFont,
    ns: u64,
    m: Snapshot,
    tasks: u64,
    channels: u64,
    trace: Seq<TraceEntry>,
    now: u64,
    r: int,
)
    requires
        font.wf(),
        whole(p),
        0 <= r < trace.len(),
        r < 4,
        font.height <= 26,
        desktop::latency(m.frame_us.latest).len() * font.width <= 52,
        desktop::latency(m.present_us.latest).len() * font.width <= 52,
        desktop::latency(m.input_to_photon_us.latest).len() * font.width <= 52,
        desktop::latency(m.ipc_rtt_us.latest).len() * font.width <= 52,
        desktop::latency(m.sched_wake_us.latest).len() * font.width <= 52,
    ensures
        ({
            let q = dashboard(p, font, ns, m, tasks, channels, trace, now);
            let rows = at_most(font.height as int, 14);
            &&& trace.len() >= 4 ==> row_tells(
                q,
                font,
                310 + 14 * r,
                rows,
                trace[trace.len() - 4 + r],
                now,
            )
            &&& trace.len() < 4 ==> row_tells(q, font, 310 + 14 * r, rows, trace[r], now)
        }),
{
    let bg = rgb(DASH_BG);
    let rows = at_most(font.height as int, 14);
    let q = dashboard(p, font, ns, m, tasks, channels, trace, now);
    let up = upper_part(p, font, ns, tasks, channels);
    lemma_upper_part(p, font, ns, tasks, channels);
    lemma_measurements(up, font, m, 248, m.sched_wake_us, bg);
    let frame = pair_line(up, font, 14, 176, "Frame"@, m.frame_us, bg);
    let present = pair_line(frame, font, 14, 194, "Present"@, m.present_us, bg);
    let photon = pair_line(present, font, 14, 212, "Photon"@, m.input_to_photon_us, bg);
    let rtt = pair_line(photon, font, 14, 230, "IPC RTT"@, m.ipc_rtt_us, bg);
    let wake = pair_line(rtt, font, 14, 248, "Wake"@, m.sched_wake_us, bg);
    let (x, y, z) = (m.background_us.latest, m.windows_us.latest, m.chrome_us.latest);
    let info = triplet_line(wake, font, 14, 266, x, y, z, bg);
    lemma_triplet(wake, font, 266, x, y, z, bg);
    assert(info == system_info(p, font, ns, m, tasks, channels));
    assert(q == lower_part(info, font, trace, now));
    lemma_lower_part(info, font, trace, now);
    let start = info.text(font, 14, 288, "Message Flow"@, rgb(ORANGE), bg).rect(
        14,
        302,
        592,
        1,
        rgb(SEP),
    );
    let flow = message_flow(start, font, trace, now);
    law_flow_tells_of_the_latest(start, font, trace, now, r);
    let n = trace.len() as int;
    let last = r == at_most(n, 4) - 1;
    let e = if n >= 4 {
        trace[n - 4 + r]
    } else {
        trace[r]
    };
    lemma_above_less(flow, q, 378, 310 + 14 * r + rows);
    lemma_row_kept(flow, q, font, 310 + 14 * r, clear_rows(font, last), rows, e, now);
}

} // verus!
