//! What surrounds the windows: menu bar, taskbar, window frames, statistics
//! and icons.
use vstd::prelude::*;

use crate::dashboard;
use crate::desktop;
use crate::desktop::{
    put, put_line, rgb, ACCENT, ACCENT_DIM, DESKTOP_BG, DIM, GREEN, LATENCY_LIMIT, MENU_BG, MENU_H,
    ORANGE, PANEL_BG, STATS_PANEL_H, STATS_PANEL_W, SUBTLE, SURF_H, SURF_W, TBAR_BG, TBAR_H, TEXT,
    WIN_BORDER, WIN_TITLE_H,
};
use crate::font::AaFont;
use crate::framebuffer;
use crate::framebuffer::{Color, Framebuffer, Picture};
use crate::metrics::Snapshot;
use crate::text;

verus! {

pub const BAR_ACTIVE: u32 = 0x181C24;

pub const BAR_INACTIVE: u32 = 0x101318;

pub const PILL_INACTIVE: u32 = 0x181C22;

pub const PILL_W: usize = 100;

pub const PILL_H: usize = 24;

pub const PILL_GAP: usize = 12;

/// The fixed part of the menu bar.
pub open spec fn menu_base(font: AaFont, sw: int, bgr: bool) -> Picture {
    desktop::blank(sw, MENU_H + 1, bgr).rect(0, 0, sw, MENU_H as int, rgb(MENU_BG)).rect(
        0,
        MENU_H as int,
        sw,
        1,
        rgb(ACCENT_DIM),
    ).text(font, 12, 5, "FreshOS"@, rgb(ACCENT), rgb(MENU_BG)).text(
        font,
        90,
        5,
        "|"@,
        rgb(DIM),
        rgb(MENU_BG),
    ).text(font, 100, 5, "aarch64"@, rgb(DIM), rgb(MENU_BG))
}

pub fn build_menu_bar_cache(font: &AaFont, sw: usize, is_bgr: bool) -> (fb: Framebuffer)
    requires
        font.wf(),
        sw * (MENU_H + 1) <= usize::MAX,
    ensures
        fb.wf(),
        fb@ == menu_base(*font, sw as int, is_bgr),
{
    proof {
        reveal_strlit("FreshOS");
        reveal_strlit("|");
        reveal_strlit("aarch64");
    }
    let mut fb: Framebuffer = desktop::allocate_framebuffer(sw, MENU_H + 1, is_bgr);
    fb.draw_rect(0, 0, sw, MENU_H, rgb(MENU_BG));
    fb.draw_rect(0, MENU_H, sw, 1, rgb(ACCENT_DIM));
    put(&mut fb, font, 12, 5, "FreshOS", rgb(ACCENT), rgb(MENU_BG));
    put(&mut fb, font, 90, 5, "|", rgb(DIM), rgb(MENU_BG));
    put(&mut fb, font, 100, 5, "aarch64", rgb(DIM), rgb(MENU_BG));
    fb
}

/// The number of tasks, in words. Numbers are cut to four digits.
pub open spec fn tasks_text(tasks: u64) -> Seq<char> {
    desktop::number(tasks, 4) + " tasks"@
}

/// Where the clock starts.
pub open spec fn clock_x(font: AaFont, sw: int) -> int {
    sw - 8 * font.width - 12
}

/// Where the latency starts, or would if it were shown.
pub open spec fn latency_x(font: AaFont, sw: int, us: u64) -> int {
    if us > 0 {
        clock_x(font, sw) - 12 - (desktop::latency(us).len() * font.width + 8)
    } else {
        clock_x(font, sw) - 12 + 4
    }
}

/// Where the number of tasks starts.
pub open spec fn tasks_x(font: AaFont, sw: int, us: u64, tasks: u64) -> int {
    latency_x(font, sw, us) - 4 - (tasks_text(tasks).len() * font.width + 8)
}

/// The menu bar with the clock, the latency where there is one, and the number
/// of tasks.
pub open spec fn menu_bar(
    font: AaFont,
    p: Picture,
    cache: Picture,
    sw: int,
    ns: u64,
    us: u64,
    tasks: u64,
) -> Picture {
    let clock = p.copied(cache, 0, 0, cache.width, cache.height, 0, 0).text(
        font,
        clock_x(font, sw),
        5,
        desktop::hms(ns),
        rgb(TEXT),
        rgb(MENU_BG),
    );
    let shown = if us > 0 {
        clock.text(
            font,
            latency_x(font, sw, us),
            5,
            desktop::latency(us),
            desktop::latency_color(us),
            rgb(MENU_BG),
        )
    } else {
        clock
    };
    shown.text(
        font,
        tasks_x(font, sw, us, tasks),
        5,
        tasks_text(tasks),
        rgb(SUBTLE),
        rgb(MENU_BG),
    )
}

pub fn draw_menu_bar(
    fb: &mut Framebuffer,
    font: &AaFont,
    cache: &Framebuffer,
    sw: usize,
    ns: u64,
    latency_us: u64,
    task_count: u64,
)
    requires
        old(fb).wf(),
        cache.wf(),
        font.wf(),
        latency_us < LATENCY_LIMIT,
        desktop::roomy(sw as int),
        0 <= tasks_x(*font, sw as int, latency_us, task_count),
    ensures
        final(fb).wf(),
        final(fb)@ == menu_bar(*font, old(fb)@, cache@, sw as int, ns, latency_us, task_count),
{
    proof {
        reveal_strlit(" tasks");
        desktop::lemma_latency_len(latency_us);
        text::lemma_u64_digits(task_count);
        let n = tasks_text(task_count).len() as int;
        let l = desktop::latency(latency_us).len() as int;
        vstd::arithmetic::mul::lemma_mul_upper_bound(n, 10, font.width as int, 64);
        vstd::arithmetic::mul::lemma_mul_upper_bound(l, 10, font.width as int, 64);
        assert(0 <= n * font.width && 0 <= l * font.width) by (nonlinear_arith)
            requires
                0 <= n,
                0 <= l,
                0 <= font.width,
        ;
    }
    fb.blit(cache, 0, 0);
    let clock: Vec<char> = desktop::fmt_hms(ns);
    let clock_x: usize = sw - 8 * font.width - 12;
    put_line(fb, font, clock_x, 5, &clock, rgb(TEXT), rgb(MENU_BG));
    let mut sx: usize = clock_x - 12;
    if latency_us > 0 {
        let shown: Vec<char> = desktop::fmt_latency(latency_us);
        sx = sx - (shown.len() * font.width + 8);
        put_line(fb, font, sx, 5, &shown, desktop::color_of_latency(latency_us), rgb(MENU_BG));
        sx = sx - 4;
    }
    let mut tasks: Vec<char> = desktop::fmt_u64(task_count, 4);
    text::push_str(&mut tasks, " tasks");
    sx = sx - (tasks.len() * font.width + 8);
    put_line(fb, font, sx, 5, &tasks, rgb(SUBTLE), rgb(MENU_BG));
}

/// A button of the taskbar, `shift` the distance of its label from the middle.
pub open spec fn pill(
    font: AaFont,
    p: Picture,
    px: int,
    py: int,
    active: bool,
    accent: u32,
    fill: u32,
    label: Seq<char>,
    shift: int,
) -> Picture {
    let border = if active {
        accent
    } else {
        DIM
    };
    let inside = if active {
        fill
    } else {
        PILL_INACTIVE
    };
    let words = if active {
        accent
    } else {
        SUBTLE
    };
    let body = p.rect(px, py, PILL_W as int, PILL_H as int, rgb(border)).rect(
        px + 1,
        py + 1,
        PILL_W - 2,
        PILL_H - 2,
        rgb(inside),
    );
    let marked = if active {
        body.rect(px + PILL_W as int / 2 - 2, py + PILL_H - 4, 4, 2, rgb(accent))
    } else {
        body
    };
    marked.text(font, px + PILL_W as int / 2 - shift, py + 4, label, rgb(words), rgb(inside))
}

fn draw_pill(
    fb: &mut Framebuffer,
    font: &AaFont,
    px: usize,
    py: usize,
    active: bool,
    accent: u32,
    fill: u32,
    label: &str,
    shift: usize,
)
    requires
        old(fb).wf(),
        font.wf(),
        px + 60 <= usize::MAX - 8192,
        py + 28 <= usize::MAX - 8192,
        shift <= 50,
        label@.len() <= 100,
    ensures
        final(fb).wf(),
        final(fb)@ == pill(
            *font,
            old(fb)@,
            px as int,
            py as int,
            active,
            accent,
            fill,
            label@,
            shift as int,
        ),
{
    let border: Color = if active { rgb(accent) } else { rgb(DIM) };
    let inside: Color = if active { rgb(fill) } else { rgb(PILL_INACTIVE) };
    let words: Color = if active { rgb(accent) } else { rgb(SUBTLE) };
    fb.draw_rect(px, py, PILL_W, PILL_H, border);
    fb.draw_rect(px + 1, py + 1, PILL_W - 2, PILL_H - 2, inside);
    if active {
        fb.draw_rect(px + PILL_W / 2 - 2, py + PILL_H - 4, 4, 2, rgb(accent));
    }
    put(fb, font, px + PILL_W / 2 - shift, py + 4, label, words, inside);
}

/// The taskbar, with the button of the active workspace marked.
pub open spec fn taskbar(font: AaFont, p: Picture, sw: int, sh: int, active_ws: int) -> Picture {
    let y = sh - TBAR_H;
    let px = (sw - (PILL_W * 2 + PILL_GAP)) / 2;
    let py = y + (TBAR_H - PILL_H) as int / 2;
    let bar = p.rect(0, y, sw, TBAR_H as int, rgb(TBAR_BG)).rect(0, y, sw, 1, rgb(ACCENT_DIM));
    let shell = pill(font, bar, px, py, active_ws == 0, GREEN, 0x1A2E1A, "Shell"@, 25);
    pill(
        font,
        shell,
        px + PILL_W + PILL_GAP,
        py,
        active_ws == 1,
        ORANGE,
        0x2E221A,
        "Dashboard"@,
        43,
    )
}

pub fn draw_taskbar(fb: &mut Framebuffer, font: &AaFont, sw: usize, sh: usize, active_ws: usize)
    requires
        old(fb).wf(),
        font.wf(),
        PILL_W * 2 + PILL_GAP <= sw,
        TBAR_H <= sh,
        desktop::roomy(sw as int),
        desktop::roomy(sh as int),
    ensures
        final(fb).wf(),
        final(fb)@ == taskbar(*font, old(fb)@, sw as int, sh as int, active_ws as int),
{
    proof {
        reveal_strlit("Shell");
        reveal_strlit("Dashboard");
    }
    let tbar_y: usize = sh - TBAR_H;
    fb.draw_rect(0, tbar_y, sw, TBAR_H, rgb(TBAR_BG));
    fb.draw_rect(0, tbar_y, sw, 1, rgb(ACCENT_DIM));
    let px: usize = (sw - (PILL_W * 2 + PILL_GAP)) / 2;
    let py: usize = tbar_y + (TBAR_H - PILL_H) / 2;
    draw_pill(fb, font, px, py, active_ws == 0, GREEN, 0x1A2E1A, "Shell", 25);
    draw_pill(
        fb,
        font,
        px + PILL_W + PILL_GAP,
        py,
        active_ws == 1,
        ORANGE,
        0x2E221A,
        "Dashboard",
        43,
    );
}

/// A window's borders and title bar, around the `ww` by `wh` content at
/// `(wx, wy)`.
pub open spec fn window_frame(
    font: AaFont,
    p: Picture,
    wx: int,
    wy: int,
    ww: int,
    wh: int,
    title: Seq<char>,
    accent: Color,
    active: bool,
) -> Picture {
    let border = if active {
        accent
    } else {
        rgb(DIM)
    };
    let bar = if active {
        rgb(BAR_ACTIVE)
    } else {
        rgb(BAR_INACTIVE)
    };
    let words = if active {
        rgb(TEXT)
    } else {
        rgb(SUBTLE)
    };
    let bw = WIN_BORDER as int;
    let ty = desktop::less(wy, WIN_TITLE_H as int);
    let left = desktop::less(wx, bw);
    let edges = p.rect(left, desktop::less(ty, bw), ww + bw * 2, bw, border).rect(
        left,
        wy + wh,
        ww + bw * 2,
        bw,
        border,
    ).rect(left, ty, bw, wh + WIN_TITLE_H, border).rect(
        wx + ww,
        ty,
        bw,
        wh + WIN_TITLE_H,
        border,
    );
    let titled = edges.rect(wx, ty, ww, WIN_TITLE_H as int, bar).text(
        font,
        wx + 10,
        ty + 6,
        title,
        words,
        bar,
    );
    let dotted = if active {
        titled.rect(wx + 10 + title.len() * font.width + 8, ty + 10, 4, 4, accent)
    } else {
        titled
    };
    dotted.rect(wx, ty + WIN_TITLE_H - 1, ww, 1, border)
}

pub fn draw_window_frame(
    fb: &mut Framebuffer,
    font: &AaFont,
    wx: usize,
    wy: usize,
    ww: usize,
    wh: usize,
    title: &str,
    accent: Color,
    is_active: bool,
)
    requires
        old(fb).wf(),
        font.wf(),
        desktop::roomy(wx + ww + 100),
        desktop::roomy(wy + wh + 100),
        title@.len() <= 100,
    ensures
        final(fb).wf(),
        final(fb)@ == window_frame(
            *font,
            old(fb)@,
            wx as int,
            wy as int,
            ww as int,
            wh as int,
            title@,
            accent,
            is_active,
        ),
{
    proof {
        vstd::arithmetic::mul::lemma_mul_upper_bound(
            title@.len() as int,
            100,
            font.width as int,
            64,
        );
        assert(0 <= title@.len() * font.width) by (nonlinear_arith);
    }
    let border_c: Color = if is_active { accent } else { rgb(DIM) };
    let title_y: usize = wy.saturating_sub(WIN_TITLE_H);
    let bw: usize = WIN_BORDER;
    fb.draw_rect(wx.saturating_sub(bw), title_y.saturating_sub(bw), ww + bw * 2, bw, border_c);
    fb.draw_rect(wx.saturating_sub(bw), wy + wh, ww + bw * 2, bw, border_c);
    fb.draw_rect(wx.saturating_sub(bw), title_y, bw, wh + WIN_TITLE_H, border_c);
    fb.draw_rect(wx + ww, title_y, bw, wh + WIN_TITLE_H, border_c);
    let bar_c: Color = if is_active { rgb(BAR_ACTIVE) } else { rgb(BAR_INACTIVE) };
    fb.draw_rect(wx, title_y, ww, WIN_TITLE_H, bar_c);
    let text_c: Color = if is_active { rgb(TEXT) } else { rgb(SUBTLE) };
    put(fb, font, wx + 10, title_y + 6, title, text_c, bar_c);
    if is_active {
        let dot_x: usize = wx + 10 + text::length(title) * font.width + 8;
        fb.draw_rect(dot_x, title_y + 10, 4, 4, accent);
    }
    fb.draw_rect(wx, title_y + WIN_TITLE_H - 1, ww, 1, border_c);
}

/// A frame around an empty content area.
pub open spec fn frame_base(
    font: AaFont,
    title: Seq<char>,
    accent: Color,
    active: bool,
    bgr: bool,
) -> Picture {
    let wy = WIN_TITLE_H + WIN_BORDER;
    let outer = desktop::window_outer(WIN_BORDER as int, wy);
    window_frame(
        font,
        desktop::blank(outer.w as int, outer.h as int, bgr),
        WIN_BORDER as int,
        wy,
        SURF_W as int,
        SURF_H as int,
        title,
        accent,
        active,
    )
}

pub fn build_window_frame_cache(
    font: &AaFont,
    title: &str,
    accent: Color,
    is_active: bool,
    is_bgr: bool,
) -> (fb: Framebuffer)
    requires
        font.wf(),
        title@.len() <= 100,
    ensures
        fb.wf(),
        fb@ == frame_base(*font, title@, accent, is_active, is_bgr),
{
    let outer: desktop::Rect = desktop::outer_rect_for_window(WIN_BORDER, WIN_TITLE_H + WIN_BORDER);
    assert(outer.w * outer.h == 624 * 432) by (nonlinear_arith)
        requires
            outer.w == 624,
            outer.h == 432,
    ;
    let mut fb: Framebuffer = desktop::allocate_framebuffer(outer.w, outer.h, is_bgr);
    draw_window_frame(
        &mut fb,
        font,
        WIN_BORDER,
        WIN_TITLE_H + WIN_BORDER,
        SURF_W,
        SURF_H,
        title,
        accent,
        is_active,
    );
    fb
}

/// The window's frame and then its content, in place.
pub open spec fn window(p: Picture, frame: Picture, surface: Picture, wx: int, wy: int) -> Picture {
    let outer = desktop::window_outer(wx, wy);
    p.copied(frame, 0, 0, frame.width, frame.height, outer.x as int, outer.y as int).copied(
        surface,
        0,
        0,
        surface.width,
        surface.height,
        wx,
        wy,
    )
}

pub fn blit_full_window(
    dst: &mut Framebuffer,
    frame_cache: &Framebuffer,
    surface: &Framebuffer,
    wx: usize,
    wy: usize,
)
    requires
        old(dst).wf(),
        frame_cache.wf(),
        surface.wf(),
    ensures
        final(dst).wf(),
        final(dst)@ == window(old(dst)@, frame_cache@, surface@, wx as int, wy as int),
{
    let outer: desktop::Rect = desktop::outer_rect_for_window(wx, wy);
    dst.blit(frame_cache, outer.x, outer.y);
    dst.blit(surface, wx, wy);
}

/// The labels of the statistics panel.
pub open spec fn stats_base(font: AaFont, bgr: bool) -> Picture {
    let (w, h) = (STATS_PANEL_W as int, STATS_PANEL_H as int);
    let (fg, bg) = (rgb(SUBTLE), rgb(PANEL_BG));
    desktop::blank(w, h, bgr).rect(0, 0, w, h, bg).rect(0, 0, w, 1, rgb(ACCENT_DIM)).rect(
        0,
        h - 1,
        w,
        1,
        rgb(DIM),
    ).text(font, 10, 8, "System"@, rgb(ACCENT), bg).text(font, 10, 26, "Uptime"@, fg, bg).text(
        font,
        10,
        42,
        "Tasks"@,
        fg,
        bg,
    ).text(font, 10, 58, "Chans"@, fg, bg).text(font, 10, 74, "Frame"@, fg, bg).text(
        font,
        10,
        90,
        "Present"@,
        fg,
        bg,
    ).text(font, 10, 106, "IPC RTT"@, fg, bg).text(font, 10, 122, "Wake"@, fg, bg).text(
        font,
        10,
        142,
        "Photon"@,
        fg,
        bg,
    )
}

pub fn build_stats_overlay_cache(font: &AaFont, is_bgr: bool) -> (fb: Framebuffer)
    requires
        font.wf(),
    ensures
        fb.wf(),
        fb@ == stats_base(*font, is_bgr),
{
    proof {
        reveal_strlit("System");
        reveal_strlit("Uptime");
        reveal_strlit("Tasks");
        reveal_strlit("Chans");
        reveal_strlit("Frame");
        reveal_strlit("Present");
        reveal_strlit("IPC RTT");
        reveal_strlit("Wake");
        reveal_strlit("Photon");
    }
    let (fg, bg): (Color, Color) = (rgb(SUBTLE), rgb(PANEL_BG));
    let mut fb: Framebuffer = desktop::allocate_framebuffer(STATS_PANEL_W, STATS_PANEL_H, is_bgr);
    fb.draw_rect(0, 0, STATS_PANEL_W, STATS_PANEL_H, bg);
    fb.draw_rect(0, 0, STATS_PANEL_W, 1, rgb(ACCENT_DIM));
    fb.draw_rect(0, STATS_PANEL_H - 1, STATS_PANEL_W, 1, rgb(DIM));
    let lx: usize = 10;
    let mut y: usize = 8;
    put(&mut fb, font, lx, y, "System", rgb(ACCENT), bg);
    y = y + 18;
    put(&mut fb, font, lx, y, "Uptime", fg, bg);
    y = y + 16;
    put(&mut fb, font, lx, y, "Tasks", fg, bg);
    y = y + 16;
    put(&mut fb, font, lx, y, "Chans", fg, bg);
    y = y + 16;
    put(&mut fb, font, lx, y, "Frame", fg, bg);
    y = y + 16;
    put(&mut fb, font, lx, y, "Present", fg, bg);
    y = y + 16;
    put(&mut fb, font, lx, y, "IPC RTT", fg, bg);
    y = y + 16;
    put(&mut fb, font, lx, y, "Wake", fg, bg);
    y = y + 20;
    put(&mut fb, font, lx, y, "Photon", fg, bg);
    fb
}

pub const BARS: usize = 16;

pub const BAR_H: usize = 30;

/// The width of a bar of the histogram, with the gap after it.
pub const BAR_W: usize = 11;

/// The largest of the first `n` values, and 1 at least.
pub open spec fn tallest(hist: Seq<u64>, n: int) -> u64
    decreases n,
{
    if n <= 0 {
        1
    } else if hist[n - 1] > tallest(hist, n - 1) {
        hist[n - 1]
    } else {
        tallest(hist, n - 1)
    }
}

/// The height of a bar: its share of the tallest, and 1 at least where there is
/// anything to show.
pub open spec fn bar_height(val: u64, max: u64) -> int {
    let h = val * BAR_H / max as int;
    if val == 0 {
        0
    } else if h < 1 {
        1
    } else {
        h
    }
}

/// The first `n` bars of the histogram, from the oldest value on.
pub open spec fn histogram(
    p: Picture,
    x: int,
    y: int,
    hist: Seq<u64>,
    hist_idx: int,
    n: int,
) -> Picture
    decreases n,
{
    if n <= 0 {
        p
    } else {
        let val = hist[(hist_idx + n - 1) % (BARS as int)];
        let h = bar_height(val, tallest(hist, BARS as int));
        histogram(p, x, y, hist, hist_idx, n - 1).rect(
            x + (n - 1) * BAR_W,
            y + BAR_H - h,
            BAR_W - 1,
            h,
            desktop::latency_color(val),
        )
    }
}

proof fn lemma_tallest(hist: Seq<u64>, n: int)
    requires
        0 <= n <= hist.len(),
    ensures
        tallest(hist, n) >= 1,
        forall|i: int| 0 <= i < n ==> #[trigger] hist[i] <= tallest(hist, n),
    decreases n,
{
    if n > 0 {
        lemma_tallest(hist, n - 1);
    }
}

pub fn draw_stats_histogram(
    fb: &mut Framebuffer,
    x: usize,
    y: usize,
    latency_hist: &[u64; 16],
    hist_idx: usize,
)
    requires
        old(fb).wf(),
        desktop::roomy(x as int),
        desktop::roomy(y as int),
        hist_idx < BARS,
        forall|i: int| 0 <= i < BARS ==> #[trigger] latency_hist@[i] * BAR_H <= u64::MAX,
    ensures
        final(fb).wf(),
        final(fb)@ == histogram(
            old(fb)@,
            x as int,
            y as int,
            latency_hist@,
            hist_idx as int,
            BARS as int,
        ),
{
    let mut max_val: u64 = 1;
    let mut i: usize = 0;
    while i < BARS
        invariant
            i <= BARS,
            max_val == tallest(latency_hist@, i as int),
        decreases BARS - i,
    {
        if latency_hist[i] > max_val {
            max_val = latency_hist[i];
        }
        i = i + 1;
    }
    proof {
        lemma_tallest(latency_hist@, BARS as int);
    }
    i = 0;
    while i < BARS
        invariant
            i <= BARS,
            fb.wf(),
            hist_idx < BARS,
            desktop::roomy(x as int),
            desktop::roomy(y as int),
            max_val == tallest(latency_hist@, BARS as int),
            max_val >= 1,
            forall|j: int| 0 <= j < BARS ==> #[trigger] latency_hist@[j] <= max_val,
            forall|j: int| 0 <= j < BARS ==> #[trigger] latency_hist@[j] * BAR_H <= u64::MAX,
            fb@ == histogram(
                old(fb)@,
                x as int,
                y as int,
                latency_hist@,
                hist_idx as int,
                i as int,
            ),
        decreases BARS - i,
    {
        let idx: usize = (hist_idx + i) % BARS;
        let val: u64 = latency_hist[idx];
        assert(latency_hist@[idx as int] == val);
        proof {
            assert(val * 30 / max_val as int <= 30) by (nonlinear_arith)
                requires
                    0 <= val <= max_val,
                    max_val >= 1,
            ;
        }
        let h: usize = if val > 0 {
            let share: u64 = val * 30 / max_val;
            if share < 1 {
                1
            } else {
                share as usize
            }
        } else {
            0
        };
        let bx: usize = x + i * BAR_W;
        let by: usize = y + BAR_H - h;
        fb.draw_rect(bx, by, BAR_W - 1, h, desktop::color_of_latency(val));
        i = i + 1;
    }
}

/// Where the statistics panel is.
pub open spec fn panel_x(sw: int) -> int {
    sw - STATS_PANEL_W - 16
}

pub open spec fn panel_y() -> int {
    MENU_H + 12
}

/// The statistics panel with its values.
pub open spec fn stats_overlay(
    font: AaFont,
    p: Picture,
    cache: Picture,
    sw: int,
    ns: u64,
    m: Snapshot,
    hist: Seq<u64>,
    hist_idx: int,
    tasks: u64,
    channels: u64,
) -> Picture {
    let (x, y) = (panel_x(sw) + 90, panel_y() + 8);
    let (fg, bg) = (rgb(TEXT), rgb(PANEL_BG));
    let count = desktop::number(tasks, 16);
    let values = p.copied(cache, 0, 0, cache.width, cache.height, panel_x(sw), panel_y()).text(
        font,
        x,
        y + 18,
        desktop::hms(ns),
        fg,
        bg,
    ).text(font, x, y + 34, count, fg, bg).text(
        font,
        x + count.len() * font.width + 6,
        y + 34,
        "@ 1 kHz"@,
        fg,
        bg,
    ).text(font, x, y + 50, desktop::number(channels, 16), fg, bg).text(
        font,
        x,
        y + 66,
        desktop::latency(m.frame_us.latest),
        fg,
        bg,
    ).text(font, x, y + 82, desktop::latency(m.present_us.latest), fg, bg).text(
        font,
        x,
        y + 98,
        desktop::latency(m.ipc_rtt_us.latest),
        fg,
        bg,
    ).text(font, x, y + 114, desktop::latency(m.sched_wake_us.latest), fg, bg);
    histogram(values, x - 80, y + 148, hist, hist_idx, BARS as int)
}

fn draw_metric_value(
    fb: &mut Framebuffer,
    font: &AaFont,
    x: usize,
    y: usize,
    value_us: u64,
    bg: Color,
)
    requires
        old(fb).wf(),
        font.wf(),
        value_us < LATENCY_LIMIT,
        desktop::roomy(x as int),
        desktop::roomy(y as int),
    ensures
        final(fb).wf(),
        final(fb)@ == old(fb)@.text(
            *font,
            x as int,
            y as int,
            desktop::latency(value_us),
            rgb(TEXT),
            bg,
        ),
{
    let shown: Vec<char> = desktop::fmt_latency(value_us);
    put_line(fb, font, x, y, &shown, rgb(TEXT), bg);
}

pub fn draw_stats_overlay(
    fb: &mut Framebuffer,
    font: &AaFont,
    cache: &Framebuffer,
    sw: usize,
    ns: u64,
    metrics: Snapshot,
    latency_hist: &[u64; 16],
    hist_idx: usize,
    tasks_now: u64,
    channels_now: u64,
)
    requires
        old(fb).wf(),
        cache.wf(),
        font.wf(),
        STATS_PANEL_W + 16 <= sw,
        sw + 4096 <= usize::MAX - 8192,
        metrics.frame_us.latest < LATENCY_LIMIT,
        metrics.present_us.latest < LATENCY_LIMIT,
        metrics.ipc_rtt_us.latest < LATENCY_LIMIT,
        metrics.sched_wake_us.latest < LATENCY_LIMIT,
        hist_idx < BARS,
        forall|i: int| 0 <= i < BARS ==> #[trigger] latency_hist@[i] * BAR_H <= u64::MAX,
    ensures
        final(fb).wf(),
        final(fb)@ == stats_overlay(
            *font,
            old(fb)@,
            cache@,
            sw as int,
            ns,
            metrics,
            latency_hist@,
            hist_idx as int,
            tasks_now,
            channels_now,
        ),
{
    proof {
        reveal_strlit("@ 1 kHz");
    }
    let panel_x: usize = sw - STATS_PANEL_W - 16;
    let panel_y: usize = MENU_H + 12;
    fb.blit(cache, panel_x, panel_y);
    let lx: usize = panel_x + 10;
    let (fg, bg): (Color, Color) = (rgb(TEXT), rgb(PANEL_BG));
    let mut y: usize = panel_y + 8 + 18;
    let clock: Vec<char> = desktop::fmt_hms(ns);
    put_line(fb, font, lx + 80, y, &clock, fg, bg);
    y = y + 16;
    let tasks: Vec<char> = desktop::fmt_u64(tasks_now, 16);
    put_line(fb, font, lx + 80, y, &tasks, fg, bg);
    proof {
        vstd::arithmetic::mul::lemma_mul_upper_bound(
            tasks@.len() as int,
            16,
            font.width as int,
            64,
        );
        assert(0 <= tasks@.len() * font.width) by (nonlinear_arith);
    }
    put(fb, font, lx + 80 + tasks.len() * font.width + 6, y, "@ 1 kHz", fg, bg);
    y = y + 16;
    let channels: Vec<char> = desktop::fmt_u64(channels_now, 16);
    put_line(fb, font, lx + 80, y, &channels, fg, bg);
    y = y + 16;
    draw_metric_value(fb, font, lx + 80, y, metrics.frame_us.latest, bg);
    y = y + 16;
    draw_metric_value(fb, font, lx + 80, y, metrics.present_us.latest, bg);
    y = y + 16;
    draw_metric_value(fb, font, lx + 80, y, metrics.ipc_rtt_us.latest, bg);
    y = y + 16;
    draw_metric_value(fb, font, lx + 80, y, metrics.sched_wake_us.latest, bg);
    y = y + 34;
    draw_stats_histogram(fb, lx, y, latency_hist, hist_idx);
}

/// A row of the disk icon, a hexadecimal digit for each cell.
pub open spec fn spec_icon_row(row: u64) -> u64 {
    if row == 0 || row == 15 {
        0x0011_1111_1111_1100
    } else if row == 1 {
        0x0133_3333_3333_3310
    } else if row == 14 {
        0x0133_1333_3133_3310
    } else if 3 <= row <= 5 {
        0x1324_4444_4444_4231
    } else if row == 11 {
        0x1322_1111_1122_2231
    } else if row == 12 || row == 13 {
        0x1322_1333_3122_2231
    } else {
        0x1322_2222_2222_2231
    }
}

#[verifier::when_used_as_spec(spec_icon_row)]
fn icon_row(row: u64) -> (r: u64)
    ensures
        r == spec_icon_row(row),
{
    if row == 0 || row == 15 {
        0x0011_1111_1111_1100
    } else if row == 1 {
        0x0133_3333_3333_3310
    } else if row == 14 {
        0x0133_1333_3133_3310
    } else if 3 <= row && row <= 5 {
        0x1324_4444_4444_4231
    } else if row == 11 {
        0x1322_1111_1122_2231
    } else if row == 12 || row == 13 {
        0x1322_1333_3122_2231
    } else {
        0x1322_2222_2222_2231
    }
}

/// The cell in this column of this row of the disk icon.
pub open spec fn icon_cell(row: u64, col: u64) -> u64 {
    spec_icon_row(row) >> ((4 * (15 - col)) as u64) & 15
}

/// The colour of a cell; none where the icon is transparent.
pub open spec fn icon_color(cell: u64, accent: Color) -> Option<Color> {
    if cell == 1 {
        Some(rgb(0x202530))
    } else if cell == 2 {
        Some(framebuffer::blended(accent, rgb(DESKTOP_BG), 80))
    } else if cell == 3 {
        Some(framebuffer::blended(rgb(0xFFFFFF), accent, 40))
    } else if cell == 4 {
        Some(rgb(0x181C24))
    } else {
        None
    }
}

/// The first `n` cells of the disk icon, row by row, each a block of 2 by 2.
pub open spec fn icon(p: Picture, ix: int, iy: int, accent: Color, n: int) -> Picture
    decreases n,
{
    if n <= 0 {
        p
    } else {
        let before = icon(p, ix, iy, accent, n - 1);
        let (row, col) = ((n - 1) / 16, (n - 1) % 16);
        match icon_color(icon_cell(row as u64, col as u64), accent) {
            Some(c) => before.rect(ix + col * 2, iy + row * 2, 2, 2, c),
            None => before,
        }
    }
}

pub fn draw_icon(fb: &mut Framebuffer, ix: usize, iy: usize, accent: Color)
    requires
        old(fb).wf(),
        desktop::roomy(ix as int),
        desktop::roomy(iy as int),
    ensures
        final(fb).wf(),
        final(fb)@ == icon(old(fb)@, ix as int, iy as int, accent, 256),
{
    let mut n: usize = 0;
    while n < 256
        invariant
            n <= 256,
            fb.wf(),
            desktop::roomy(ix as int),
            desktop::roomy(iy as int),
            fb@ == icon(old(fb)@, ix as int, iy as int, accent, n as int),
        decreases 256 - n,
    {
        let row: usize = n / 16;
        let col: usize = n % 16;
        let cell: u64 = (icon_row(row as u64) >> (4 * (15 - col as u64))) & 15;
        let c: Option<Color> = match cell {
            1 => Some(rgb(0x202530)),
            2 => Some(framebuffer::blend(accent, rgb(DESKTOP_BG), 80)),
            3 => Some(framebuffer::blend(rgb(0xFFFFFF), accent, 40)),
            4 => Some(rgb(0x181C24)),
            _ => None,
        };
        assert(c == icon_color(icon_cell(row as u64, col as u64), accent));
        if let Some(c) = c {
            fb.draw_rect(ix + col * 2, iy + row * 2, 2, 2, c);
        }
        n = n + 1;
    }
}

/// The icons of the desktop and their names.
pub open spec fn desktop_icons(font: AaFont, p: Picture) -> Picture {
    let (fg, bg) = (rgb(SUBTLE), rgb(DESKTOP_BG));
    icon(
        icon(p, 30, 50, rgb(ACCENT), 256).text(font, 26, 86, "System"@, fg, bg),
        30,
        120,
        rgb(ORANGE),
        256,
    ).text(font, 26, 156, "Disk 0"@, fg, bg)
}

pub fn draw_desktop_icons(fb: &mut Framebuffer, font: &AaFont)
    requires
        old(fb).wf(),
        font.wf(),
    ensures
        final(fb).wf(),
        final(fb)@ == desktop_icons(*font, old(fb)@),
{
    proof {
        reveal_strlit("System");
        reveal_strlit("Disk 0");
    }
    let ix: usize = 30;
    draw_icon(fb, ix, 50, rgb(ACCENT));
    put(fb, font, ix - 4, 86, "System", rgb(SUBTLE), rgb(DESKTOP_BG));
    draw_icon(fb, ix, 120, rgb(ORANGE));
    put(fb, font, ix - 4, 156, "Disk 0", rgb(SUBTLE), rgb(DESKTOP_BG));
}

/// Text that ends before a line begins leaves it readable.
proof fn lemma_text_before(
    p: Picture,
    font: AaFont,
    x: int,
    y: int,
    rows: int,
    s: Seq<char>,
    fg: Color,
    bg: Color,
    x2: int,
    y2: int,
    s2: Seq<char>,
    fg2: Color,
    bg2: Color,
)
    requires
        font.wf(),
        dashboard::whole(p),
        dashboard::shows(p, font, x, y, rows, s, fg, bg),
        x2 + s2.len() * font.width <= x,
    ensures
        dashboard::shows(p.text(font, x2, y2, s2, fg2, bg2), font, x, y, rows, s, fg, bg),
        dashboard::whole(p.text(font, x2, y2, s2, fg2, bg2)),
{
    let q = p.text(font, x2, y2, s2, fg2, bg2);
    assert forall|n: int, i: int, j: int|
        #![trigger font.alpha(s[n], i, j)]
        0 <= n < s.len() && 0 <= i < font.width && 0 <= j < rows && q.visible(
            x + n * font.width + i,
            y + j,
        ) && font.alpha(s[n], i, j) != 0 implies q.color(x + n * font.width + i, y + j)
        == framebuffer::blended(fg, bg, font.alpha(s[n], i, j)) by {
        assert(0 <= n * font.width) by (nonlinear_arith)
            requires
                0 <= n,
                0 <= font.width,
        ;
        framebuffer::law_text_is_local(
            p,
            font,
            x2,
            y2,
            s2,
            fg2,
            bg2,
            x + n * font.width + i,
            y + j,
        );
    }
}

/// The menu bar tells the time at its right end, left of it the latency, in its
/// colour, where one was measured, and left of that the number of tasks.
#[verifier::spinoff_prover]
pub proof fn law_menu_bar_tells(
    font: AaFont,
    p: Picture,
    cache: Picture,
    sw: int,
    ns: u64,
    us: u64,
    tasks: u64,
)
    requires
        font.wf(),
        dashboard::whole(p),
    ensures
        ({
            let q = menu_bar(font, p, cache, sw, ns, us, tasks);
            let (w, h) = (font.width as int, font.height as int);
            let bg = rgb(MENU_BG);
            let time = sw - 8 * w - 12;
            let late = time - 12 - (desktop::latency(us).len() * w + 8);
            let words = desktop::number(tasks, 4) + " tasks"@;
            let left = if us > 0 {
                late - 4
            } else {
                time - 12
            };
            &&& dashboard::shows(q, font, time, 5, h, desktop::hms(ns), rgb(TEXT), bg)
            &&& us > 0 ==> dashboard::shows(
                q,
                font,
                late,
                5,
                h,
                desktop::latency(us),
                desktop::latency_color(us),
                bg,
            )
            &&& dashboard::shows(
                q,
                font,
                left - (words.len() * w + 8),
                5,
                h,
                words,
                rgb(SUBTLE),
                bg,
            )
        }),
{
    let (w, h) = (font.width as int, font.height as int);
    let bg = rgb(MENU_BG);
    let time = clock_x(font, sw);
    let late = latency_x(font, sw, us);
    let clock = desktop::hms(ns);
    let lat = desktop::latency(us);
    let words = tasks_text(tasks);
    let base = p.copied(cache, 0, 0, cache.width, cache.height, 0, 0);
    framebuffer::law_painting_keeps_the_form(
        p,
        framebuffer::copy_shape(cache, 0, 0, cache.width, cache.height, 0, 0),
    );
    let a = base.text(font, time, 5, clock, rgb(TEXT), bg);
    dashboard::lemma_text_shows(base, font, time, 5, clock, rgb(TEXT), bg);
    let lc = desktop::latency_color(us);
    let b = if us > 0 {
        a.text(font, late, 5, lat, lc, bg)
    } else {
        a
    };
    if us > 0 {
        lemma_text_before(a, font, time, 5, h, clock, rgb(TEXT), bg, late, 5, lat, lc, bg);
        dashboard::lemma_text_shows(a, font, late, 5, lat, lc, bg);
    }
    let tx = tasks_x(font, sw, us, tasks);
    let c = b.text(font, tx, 5, words, rgb(SUBTLE), bg);
    assert(0 <= lat.len() * w) by (nonlinear_arith)
        requires
            0 <= w,
    ;
    lemma_text_before(
        b,
        font,
        time,
        5,
        h,
        clock,
        rgb(TEXT),
        bg,
        tx,
        5,
        words,
        rgb(SUBTLE),
        bg,
    );
    if us > 0 {
        lemma_text_before(b, font, late, 5, h, lat, lc, bg, tx, 5, words, rgb(SUBTLE), bg);
    }
    dashboard::lemma_text_shows(b, font, tx, 5, words, rgb(SUBTLE), bg);
    assert(c == menu_bar(font, p, cache, sw, ns, us, tasks));
}

/// A button's corner has the colour of its border, and nothing left of the button
/// changes.
proof fn lemma_pill(
    font: AaFont,
    p: Picture,
    px: int,
    py: int,
    active: bool,
    accent: u32,
    fill: u32,
    label: Seq<char>,
    shift: int,
    qx: int,
    qy: int,
)
    requires
        font.wf(),
        dashboard::whole(p),
        p.visible(qx, qy),
        shift < 50,
    ensures
        ({
            let q = pill(font, p, px, py, active, accent, fill, label, shift);
            &&& dashboard::whole(q)
            &&& q.same_form(p)
            &&& qx < px ==> q.at(qx, qy) == p.at(qx, qy)
            &&& qx == px && qy == py ==> q.color(qx, qy) == if active {
                rgb(accent)
            } else {
                rgb(DIM)
            }
        }),
{
    let border = if active {
        accent
    } else {
        DIM
    };
    let inside = if active {
        fill
    } else {
        PILL_INACTIVE
    };
    let words = if active {
        accent
    } else {
        SUBTLE
    };
    let a = p.rect(px, py, 100, 24, rgb(border));
    let b = a.rect(px + 1, py + 1, 98, 22, rgb(inside));
    let c = if active {
        b.rect(px + 48, py + 20, 4, 2, rgb(accent))
    } else {
        b
    };
    framebuffer::law_rect(p, px, py, 100, 24, rgb(border), qx, qy);
    framebuffer::law_rect(a, px + 1, py + 1, 98, 22, rgb(inside), qx, qy);
    framebuffer::law_rect(b, px + 48, py + 20, 4, 2, rgb(accent), qx, qy);
    if qx <= px {
        framebuffer::law_text_is_local(
            c,
            font,
            px + 50 - shift,
            py + 4,
            label,
            rgb(words),
            rgb(inside),
            qx,
            qy,
        );
    }
}

/// The taskbar marks the workspace in front: the shell's button has a green border
/// where the shell is in front, the dashboard's an orange one where the dashboard is,
/// and the other button is dim.
#[verifier::rlimit(50)]
pub proof fn law_taskbar_marks_the_front(
    font: AaFont,
    p: Picture,
    sw: int,
    sh: int,
    active_ws: int,
)
    requires
        font.wf(),
        dashboard::whole(p),
        212 <= sw <= p.width,
        36 <= sh <= p.height,
    ensures
        ({
            let q = taskbar(font, p, sw, sh, active_ws);
            let (x, y) = ((sw - 212) / 2, sh - 30);
            let green = Color { r: 0x3F, g: 0xB9, b: 0x50 };
            let orange = Color { r: 0xFF, g: 0xA6, b: 0x58 };
            &&& active_ws == 0 ==> q.color(x, y) == green && q.color(x + 112, y) == rgb(DIM)
            &&& active_ws == 1 ==> q.color(x, y) == rgb(DIM) && q.color(x + 112, y) == orange
        }),
{
    let (x, y) = ((sw - 212) / 2, sh - 30);
    let bar = p.rect(0, sh - 36, sw, 36, rgb(TBAR_BG)).rect(0, sh - 36, sw, 1, rgb(ACCENT_DIM));
    assert(dashboard::whole(bar));
    let (s, d) = (active_ws == 0, active_ws == 1);
    lemma_two_pills(font, bar, x, y, s, d);
    let shell = pill(font, bar, x, y, s, GREEN, 0x1A2E1A, "Shell"@, 25);
    assert(pill(font, shell, x + 112, y, d, ORANGE, 0x2E221A, "Dashboard"@, 43) == taskbar(
        font,
        p,
        sw,
        sh,
        active_ws,
    ));
    assert(rgb(GREEN) == (Color { r: 0x3F, g: 0xB9, b: 0x50 }));
    assert(rgb(ORANGE) == (Color { r: 0xFF, g: 0xA6, b: 0x58 }));
}

proof fn lemma_two_pills(font: AaFont, bar: Picture, x: int, y: int, s: bool, d: bool)
    requires
        font.wf(),
        dashboard::whole(bar),
        bar.visible(x, y),
        bar.visible(x + 112, y),
    ensures
        ({
            let shell = pill(font, bar, x, y, s, GREEN, 0x1A2E1A, "Shell"@, 25);
            let q = pill(font, shell, x + 112, y, d, ORANGE, 0x2E221A, "Dashboard"@, 43);
            &&& q.color(x, y) == if s {
                rgb(GREEN)
            } else {
                rgb(DIM)
            }
            &&& q.color(x + 112, y) == if d {
                rgb(ORANGE)
            } else {
                rgb(DIM)
            }
        }),
{
    let shell = pill(font, bar, x, y, s, GREEN, 0x1A2E1A, "Shell"@, 25);
    let q = pill(font, shell, x + 112, y, d, ORANGE, 0x2E221A, "Dashboard"@, 43);
    lemma_pill(font, bar, x, y, s, GREEN, 0x1A2E1A, "Shell"@, 25, x, y);
    lemma_pill(font, shell, x + 112, y, d, ORANGE, 0x2E221A, "Dashboard"@, 43, x, y);
    lemma_pill(font, shell, x + 112, y, d, ORANGE, 0x2E221A, "Dashboard"@, 43, x + 112, y);
    assert(q.color(x, y) == shell.color(x, y));
}

/// The tallest value is the largest of them, and 1 at least.
pub proof fn law_tallest(hist: Seq<u64>, n: int, i: int)
    requires
        0 <= i < n <= hist.len(),
    ensures
        hist[i] <= tallest(hist, n),
        tallest(hist, n) >= 1,
        tallest(hist, n) == 1 || exists|j: int|
            0 <= j < n && #[trigger] hist[j] == tallest(hist, n),
    decreases n,
{
    lemma_tallest(hist, n);
    if hist[n - 1] > tallest(hist, n - 1) {
        assert(hist[n - 1] == tallest(hist, n));
    } else if n > 1 {
        law_tallest(hist, n - 1, 0);
        if tallest(hist, n - 1) != 1 {
            let j = choose|j: int| 0 <= j < n - 1 && #[trigger] hist[j] == tallest(hist, n - 1);
            assert(hist[j] == tallest(hist, n));
        }
    }
}

/// The tallest bar has the whole height, one that is not zero has at least one row,
/// none is higher than the height, and a larger value has no lower bar.
pub proof fn law_bar_height(val: u64, more: u64, max: u64)
    requires
        val <= more <= max,
        max > 0,
    ensures
        val == 0 <==> bar_height(val, max) == 0,
        0 <= bar_height(val, max) <= bar_height(more, max) <= BAR_H,
        bar_height(max, max) == BAR_H,
{
    let m = max as int;
    vstd::arithmetic::div_mod::lemma_div_is_ordered(val * BAR_H, more * BAR_H, m);
    vstd::arithmetic::div_mod::lemma_div_is_ordered(more * BAR_H, m * BAR_H, m);
    vstd::arithmetic::div_mod::lemma_div_is_ordered(0, val * BAR_H, m);
    vstd::arithmetic::div_mod::lemma_div_multiples_vanish(BAR_H as int, m);
    assert(m * BAR_H == BAR_H * m) by (nonlinear_arith);
}

/// The histogram shows its values from the oldest on, each in a bar of its own with
/// the colour of its latency.
pub proof fn law_histogram(
    p: Picture,
    x: int,
    y: int,
    hist: Seq<u64>,
    hist_idx: int,
    n: int,
    i: int,
)
    requires
        dashboard::whole(p),
        hist.len() == 16,
        0 <= hist_idx < 16,
        0 <= i < n <= 16,
        p.visible(x + 11 * i, y + BAR_H - 1),
        hist[(hist_idx + i) % 16] > 0,
    ensures
        histogram(p, x, y, hist, hist_idx, n).color(x + 11 * i, y + BAR_H - 1)
            == desktop::latency_color(hist[(hist_idx + i) % 16]),
        dashboard::whole(histogram(p, x, y, hist, hist_idx, n)),
        histogram(p, x, y, hist, hist_idx, n).same_form(p),
    decreases n,
{
    let (px, py) = (x + 11 * i, y + BAR_H - 1);
    let q = histogram(p, x, y, hist, hist_idx, n - 1);
    lemma_histogram_form(p, x, y, hist, hist_idx, n - 1);
    if i < n - 1 {
        law_histogram(p, x, y, hist, hist_idx, n - 1, i);
    }
    let val = hist[(hist_idx + n - 1) % 16];
    let max = tallest(hist, 16);
    law_tallest(hist, 16, (hist_idx + n - 1) % 16);
    law_bar_height(val, val, max);
    let h = bar_height(val, max);
    framebuffer::law_rect(
        q,
        x + (n - 1) * 11,
        y + BAR_H - h,
        10,
        h,
        desktop::latency_color(val),
        px,
        py,
    );
}

proof fn lemma_histogram_form(p: Picture, x: int, y: int, hist: Seq<u64>, hist_idx: int, n: int)
    requires
        dashboard::whole(p),
    ensures
        dashboard::whole(histogram(p, x, y, hist, hist_idx, n)),
        histogram(p, x, y, hist, hist_idx, n).same_form(p),
    decreases n,
{
    if n > 0 {
        lemma_histogram_form(p, x, y, hist, hist_idx, n - 1);
    }
}

/// The corner of a window's frame has the colour of its workspace where the window is
/// in front, and is dim where it is not.
pub proof fn law_window_border(
    font: AaFont,
    p: Picture,
    wx: int,
    wy: int,
    ww: int,
    wh: int,
    title: Seq<char>,
    accent: Color,
    active: bool,
)
    requires
        dashboard::whole(p),
        2 <= wx,
        30 <= wy,
        0 <= ww,
        0 <= wh,
        p.visible(wx - 2, wy - 30),
    ensures
        window_frame(font, p, wx, wy, ww, wh, title, accent, active).color(wx - 2, wy - 30) == if active {
            accent
        } else {
            rgb(DIM)
        },
{
    let border = if active {
        accent
    } else {
        rgb(DIM)
    };
    let bar = if active {
        rgb(BAR_ACTIVE)
    } else {
        rgb(BAR_INACTIVE)
    };
    let words = if active {
        rgb(TEXT)
    } else {
        rgb(SUBTLE)
    };
    let (x, y) = (wx - 2, wy - 30);
    let ty = wy - 28;
    let a = p.rect(wx - 2, wy - 30, ww + 4, 2, border);
    let b = a.rect(wx - 2, wy + wh, ww + 4, 2, border);
    let c = b.rect(wx - 2, ty, 2, wh + 28, border);
    let d = c.rect(wx + ww, ty, 2, wh + 28, border);
    let e = d.rect(wx, ty, ww, 28, bar);
    let f = e.text(font, wx + 10, ty + 6, title, words, bar);
    let dot = wx + 10 + title.len() * font.width + 8;
    let g = if active {
        f.rect(dot, ty + 10, 4, 4, accent)
    } else {
        f
    };
    framebuffer::law_rect(p, wx - 2, wy - 30, ww + 4, 2, border, x, y);
    framebuffer::law_rect(a, wx - 2, wy + wh, ww + 4, 2, border, x, y);
    framebuffer::law_rect(b, wx - 2, ty, 2, wh + 28, border, x, y);
    framebuffer::law_rect(c, wx + ww, ty, 2, wh + 28, border, x, y);
    framebuffer::law_rect(d, wx, ty, ww, 28, bar, x, y);
    framebuffer::law_text_is_local(e, font, wx + 10, ty + 6, title, words, bar, x, y);
    framebuffer::law_rect(f, dot, ty + 10, 4, 4, accent, x, y);
    framebuffer::law_rect(g, wx, ty + 27, ww, 1, border, x, y);
}

proof fn lemma_histogram_below(
    p: Picture,
    x: int,
    y: int,
    hist: Seq<u64>,
    hist_idx: int,
    n: int,
)
    requires
        dashboard::whole(p),
        hist.len() == 16,
        0 <= hist_idx < 16,
        n <= 16,
    ensures
        dashboard::same_above(p, histogram(p, x, y, hist, hist_idx, n), y),
    decreases n,
{
    if n > 0 {
        let q = histogram(p, x, y, hist, hist_idx, n - 1);
        lemma_histogram_below(p, x, y, hist, hist_idx, n - 1);
        lemma_histogram_form(p, x, y, hist, hist_idx, n - 1);
        let val = hist[(hist_idx + n - 1) % 16];
        law_tallest(hist, 16, (hist_idx + n - 1) % 16);
        law_bar_height(val, val, tallest(hist, 16));
        let h = bar_height(val, tallest(hist, 16));
        let c = desktop::latency_color(val);
        let z = q.rect(x + (n - 1) * 11, y + 30 - h, 10, h, c);
        dashboard::lemma_rect_below(q, x + (n - 1) * 11, y + 30 - h, 10, h, c);
        dashboard::lemma_above_less(q, z, y + 30 - h, y);
        dashboard::lemma_above_further(p, q, z, y, y);
    }
}

/// A line of the panel that is followed only by what is at least sixteen rows further
/// down can be read.
proof fn lemma_panel_line(
    p: Picture,
    q: Picture,
    font: AaFont,
    x: int,
    y: int,
    s: Seq<char>,
    fg: Color,
    bg: Color,
)
    requires
        font.wf(),
        dashboard::whole(p),
        dashboard::same_above(p.text(font, x, y, s, fg, bg), q, y + 16),
    ensures
        dashboard::shows(
            q,
            font,
            x,
            y,
            dashboard::at_most(font.height as int, 16),
            s,
            fg,
            bg,
        ),
{
    let rows = dashboard::at_most(font.height as int, 16);
    let t = p.text(font, x, y, s, fg, bg);
    dashboard::lemma_text_shows(p, font, x, y, s, fg, bg);
    dashboard::lemma_shows_fewer(t, font, x, y, font.height as int, rows, s, fg, bg);
    dashboard::lemma_above_less(t, q, y + 16, y + rows);
    dashboard::lemma_shows_above(t, q, font, x, y, rows, s, fg, bg);
}

/// The panel tells the uptime, the channels, and the latest frame, presentation, round
/// trip and wake-up, each on its own line.
#[verifier::spinoff_prover]
#[verifier::rlimit(60)]
pub proof fn law_panel_tells(
    font: AaFont,
    p: Picture,
    cache: Picture,
    sw: int,
    ns: u64,
    m: Snapshot,
    hist: Seq<u64>,
    hist_idx: int,
    tasks: u64,
    channels: u64,
)
    requires
        font.wf(),
        dashboard::whole(p),
        hist.len() == 16,
        0 <= hist_idx < 16,
    ensures
        ({
            let q = stats_overlay(font, p, cache, sw, ns, m, hist, hist_idx, tasks, channels);
            let x = sw - 126;
            let rows = dashboard::at_most(font.height as int, 16);
            let (fg, bg) = (rgb(TEXT), rgb(PANEL_BG));
            let frame = desktop::latency(m.frame_us.latest);
            let present = desktop::latency(m.present_us.latest);
            let rtt = desktop::latency(m.ipc_rtt_us.latest);
            let wake = desktop::latency(m.sched_wake_us.latest);
            &&& dashboard::shows(q, font, x, 64, rows, desktop::hms(ns), fg, bg)
            &&& dashboard::shows(q, font, x, 96, rows, desktop::number(channels, 16), fg, bg)
            &&& dashboard::shows(q, font, x, 112, rows, frame, fg, bg)
            &&& dashboard::shows(q, font, x, 128, rows, present, fg, bg)
            &&& dashboard::shows(q, font, x, 144, rows, rtt, fg, bg)
            &&& dashboard::shows(q, font, x, 160, rows, wake, fg, bg)
        }),
{
    let x = sw - 126;
    let (fg, bg) = (rgb(TEXT), rgb(PANEL_BG));
    let count = desktop::number(tasks, 16);
    let chans = desktop::number(channels, 16);
    let frame = desktop::latency(m.frame_us.latest);
    let present = desktop::latency(m.present_us.latest);
    let rtt = desktop::latency(m.ipc_rtt_us.latest);
    let wake = desktop::latency(m.sched_wake_us.latest);
    let clock = desktop::hms(ns);
    let x2 = x + count.len() * font.width + 6;
    let b = p.copied(cache, 0, 0, cache.width, cache.height, panel_x(sw), panel_y());
    framebuffer::law_painting_keeps_the_form(
        p,
        framebuffer::copy_shape(cache, 0, 0, cache.width, cache.height, panel_x(sw), panel_y()),
    );
    let t1 = b.text(font, x, 64, clock, fg, bg);
    let t2 = t1.text(font, x, 80, count, fg, bg);
    let t3 = t2.text(font, x2, 80, "@ 1 kHz"@, fg, bg);
    let t4 = t3.text(font, x, 96, chans, fg, bg);
    let t5 = t4.text(font, x, 112, frame, fg, bg);
    let t6 = t5.text(font, x, 128, present, fg, bg);
    let t7 = t6.text(font, x, 144, rtt, fg, bg);
    let t8 = t7.text(font, x, 160, wake, fg, bg);
    let q = histogram(t8, x - 80, 194, hist, hist_idx, 16);
    dashboard::lemma_text_below(b, font, x, 64, clock, fg, bg, 64);
    dashboard::lemma_text_below(t1, font, x, 80, count, fg, bg, 80);
    dashboard::lemma_text_below(t2, font, x2, 80, "@ 1 kHz"@, fg, bg, 80);
    dashboard::lemma_text_below(t3, font, x, 96, chans, fg, bg, 96);
    dashboard::lemma_text_below(t4, font, x, 112, frame, fg, bg, 112);
    dashboard::lemma_text_below(t5, font, x, 128, present, fg, bg, 128);
    dashboard::lemma_text_below(t6, font, x, 144, rtt, fg, bg, 144);
    dashboard::lemma_text_below(t7, font, x, 160, wake, fg, bg, 160);
    lemma_histogram_below(t8, x - 80, 194, hist, hist_idx, 16);
    dashboard::lemma_above_further(t7, t8, q, 160, 194);
    dashboard::lemma_above_further(t6, t7, q, 144, 160);
    dashboard::lemma_above_further(t5, t6, q, 128, 144);
    dashboard::lemma_above_further(t4, t5, q, 112, 128);
    dashboard::lemma_above_further(t3, t4, q, 96, 112);
    dashboard::lemma_above_further(t2, t3, q, 80, 96);
    dashboard::lemma_above_further(t1, t2, q, 80, 80);
    dashboard::lemma_above_less(t8, q, 194, 176);
    lemma_panel_line(b, q, font, x, 64, clock, fg, bg);
    lemma_panel_line(t3, q, font, x, 96, chans, fg, bg);
    lemma_panel_line(t4, q, font, x, 112, frame, fg, bg);
    lemma_panel_line(t5, q, font, x, 128, present, fg, bg);
    lemma_panel_line(t6, q, font, x, 144, rtt, fg, bg);
    lemma_panel_line(t7, q, font, x, 160, wake, fg, bg);
    assert(q == stats_overlay(font, p, cache, sw, ns, m, hist, hist_idx, tasks, channels));
}

} // verus!
