//! What the tasks of the desktop share: colours, layout, rectangles and short
//! texts.
use vstd::prelude::*;

use crate::font::AaFont;
use crate::framebuffer::{Color, Framebuffer, Picture};
use crate::metrics::DamageRect;
use crate::text;

verus! {

pub const TEXT: u32 = 0xE6EDF3;

pub const SUBTLE: u32 = 0x8B949E;

pub const GREEN: u32 = 0x3FB950;

pub const DIM: u32 = 0x30363D;

pub const SEP: u32 = 0x21262D;

pub const ORANGE: u32 = 0xFFA658;

pub const RED: u32 = 0xFF4444;

pub const ACCENT: u32 = 0x609BFF;

pub const ACCENT_DIM: u32 = 0x305080;

pub const MENU_BG: u32 = 0x10141C;

pub const TBAR_BG: u32 = 0x10141C;

pub const DESKTOP_BG: u32 = 0x0C1020;

pub const SHELL_BG: u32 = 0x0A0E14;

pub const DASH_BG: u32 = 0x0A0E14;

pub const PANEL_BG: u32 = 0x080C14;

pub const HEADER_BG: u32 = 0x0D1218;

pub const SURF_W: usize = 620;

pub const SURF_H: usize = 400;

pub const MENU_H: usize = 26;

pub const TBAR_H: usize = 36;

pub const WIN_TITLE_H: usize = 28;

pub const WIN_BORDER: usize = 2;

pub const STATS_PANEL_W: usize = 200;

pub const STATS_PANEL_H: usize = 184;

pub const UI_REFRESH_NS: u64 = 250_000_000;

pub const CH_KBD_EVENTS: u32 = 0;

pub const CH_SHELL_KEYS: u32 = 1;

pub const CH_IPC_PROBE_PING: u32 = 2;

pub const CH_IPC_PROBE_PONG: u32 = 3;

/// A number of microseconds that `fmt_latency` can show is below this.
pub const LATENCY_LIMIT: u64 = 1_000_000_000;

pub open spec fn spec_rgb(v: u32) -> Color {
    Color { r: (v / 65536 % 256) as u8, g: (v / 256 % 256) as u8, b: (v % 256) as u8 }
}

/// The colour written as 0xRRGGBB.
#[verifier::when_used_as_spec(spec_rgb)]
pub fn rgb(v: u32) -> (c: Color)
    ensures
        c == spec_rgb(v),
{
    Color::new((v / 65536 % 256) as u8, (v / 256 % 256) as u8, (v % 256) as u8)
}

/// `hh:mm:ss`, the hours cut to two digits.
pub open spec fn hms(ns: u64) -> Seq<char> {
    let s = ns as int / 1_000_000_000;
    let m = s / 60;
    let h = m / 60;
    seq![
        text::digit(h / 10 % 10),
        text::digit(h % 10),
        ':',
        text::digit(m % 60 / 10),
        text::digit(m % 60 % 10),
        ':',
        text::digit(s % 60 / 10),
        text::digit(s % 60 % 10),
    ]
}

pub fn fmt_hms(ns: u64) -> (r: Vec<char>)
    ensures
        r@ == hms(ns),
{
    let s: u64 = ns / 1_000_000_000;
    let m: u64 = s / 60;
    let h: u64 = m / 60;
    let r: Vec<char> = vec![
        text::digit_char((h / 10 % 10) as u8),
        text::digit_char((h % 10) as u8),
        ':',
        text::digit_char((m % 60 / 10) as u8),
        text::digit_char((m % 60 % 10) as u8),
        ':',
        text::digit_char((s % 60 / 10) as u8),
        text::digit_char((s % 60 % 10) as u8),
    ];
    assert(r@ =~= hms(ns));
    r
}

/// The number `n` in decimal, cut to `max` digits.
pub open spec fn number(n: u64, max: int) -> Seq<char> {
    let all = text::decimal(n as nat);
    if all.len() > max {
        all.take(max)
    } else {
        all
    }
}

pub fn fmt_u64(n: u64, max: usize) -> (r: Vec<char>)
    requires
        max >= 1,
    ensures
        r@ == number(n, max as int),
        1 <= r@.len() <= 20,
        r@.len() <= max,
{
    let mut r: Vec<char> = Vec::new();
    text::push_u64(&mut r, n);
    assert(r@ =~= text::decimal(n as nat));
    proof {
        text::lemma_u64_digits(n);
    }
    r.truncate(max);
    r
}

/// A time in microseconds, or in milliseconds with one decimal from a
/// millisecond on.
pub open spec fn latency(us: u64) -> Seq<char> {
    if us >= 1000 {
        text::decimal((us / 1000) as nat).push('.').push(
            text::digit((us % 1000 / 100) as int),
        ) + "ms"@
    } else {
        text::decimal(us as nat) + "us"@
    }
}

pub proof fn lemma_latency_len(us: u64)
    requires
        us < LATENCY_LIMIT,
    ensures
        1 <= latency(us).len() <= 10,
{
    reveal_strlit("ms");
    reveal_strlit("us");
    reveal_with_fuel(vstd::arithmetic::power::pow, 7);
    if us >= 1000 {
        text::lemma_decimal_len((us / 1000) as nat, 6);
    } else {
        text::lemma_decimal_len(us as nat, 3);
    }
}

pub fn fmt_latency(us: u64) -> (r: Vec<char>)
    requires
        us < LATENCY_LIMIT,
    ensures
        r@ == latency(us),
        1 <= r@.len() <= 10,
{
    let mut r: Vec<char> = Vec::new();
    proof {
        lemma_latency_len(us);
    }
    if us >= 1000 {
        text::push_u64(&mut r, us / 1000);
        assert(r@ =~= text::decimal((us / 1000) as nat));
        r.push('.');
        r.push(text::digit_char((us % 1000 / 100) as u8));
        text::push_str(&mut r, "ms");
    } else {
        text::push_u64(&mut r, us);
        assert(r@ =~= text::decimal(us as nat));
        text::push_str(&mut r, "us");
    }
    r
}

/// The coarse step of a latency below which the menu bar is not redrawn.
pub open spec fn bucket(us: u64) -> u64 {
    if us >= 10_000 {
        us / 1_000
    } else if us >= 1_000 {
        us / 100
    } else {
        us / 50
    }
}

pub fn hud_metric_bucket(us: u64) -> (r: u64)
    ensures
        r == bucket(us),
{
    if us >= 10_000 {
        us / 1_000
    } else if us >= 1_000 {
        us / 100
    } else {
        us / 50
    }
}

/// The colour that shows whether a latency is good.
pub open spec fn latency_color(us: u64) -> Color {
    if us < 2000 {
        rgb(GREEN)
    } else if us < 5000 {
        rgb(ORANGE)
    } else {
        rgb(RED)
    }
}

pub fn color_of_latency(us: u64) -> (c: Color)
    ensures
        c == latency_color(us),
{
    if us < 2000 {
        rgb(GREEN)
    } else if us < 5000 {
        rgb(ORANGE)
    } else {
        rgb(RED)
    }
}

#[derive(Clone, Copy, Debug, PartialEq, Eq, Structural)]
pub struct Rect {
    pub x: usize,
    pub y: usize,
    pub w: usize,
    pub h: usize,
}

impl Rect {
    /// Its right and lower edges are numbers.
    pub open spec fn wf(self) -> bool {
        self.x + self.w <= usize::MAX && self.y + self.h <= usize::MAX
    }

    /// The position lies in the rectangle.
    pub open spec fn covers(self, px: int, py: int) -> bool {
        self.x <= px < self.x + self.w && self.y <= py < self.y + self.h
    }

    fn right(self) -> (r: usize)
        requires
            self.wf(),
        ensures
            r == self.x + self.w,
    {
        self.x + self.w
    }

    fn bottom(self) -> (r: usize)
        requires
            self.wf(),
        ensures
            r == self.y + self.h,
    {
        self.y + self.h
    }
}

pub open spec fn smaller(a: usize, b: usize) -> usize {
    if a < b {
        a
    } else {
        b
    }
}

pub open spec fn larger(a: int, b: int) -> int {
    if a > b {
        a
    } else {
        b
    }
}

/// The smallest rectangle over both.
pub open spec fn union(a: Rect, b: Rect) -> Rect {
    let x = smaller(a.x, b.x);
    let y = smaller(a.y, b.y);
    Rect {
        x,
        y,
        w: (larger(a.x + a.w, b.x + b.w) - x) as usize,
        h: (larger(a.y + a.h, b.y + b.h) - y) as usize,
    }
}

pub fn rect_union(a: Rect, b: Rect) -> (r: Rect)
    requires
        a.wf(),
        b.wf(),
    ensures
        r == union(a, b),
        r.wf(),
{
    let x: usize = if a.x < b.x { a.x } else { b.x };
    let y: usize = if a.y < b.y { a.y } else { b.y };
    let right: usize = if a.right() > b.right() { a.right() } else { b.right() };
    let bottom: usize = if a.bottom() > b.bottom() { a.bottom() } else { b.bottom() };
    Rect { x, y, w: right.saturating_sub(x), h: bottom.saturating_sub(y) }
}

/// Every position of either rectangle lies in their union.
pub proof fn law_union_covers(a: Rect, b: Rect, px: int, py: int)
    requires
        a.wf(),
        b.wf(),
        a.covers(px, py) || b.covers(px, py),
    ensures
        union(a, b).covers(px, py),
{
}

/// The positions in both rectangles, if there are any.
pub fn rect_intersection(a: Rect, b: Rect) -> (r: Option<Rect>)
    requires
        a.wf(),
        b.wf(),
    ensures
        match r {
            None => forall|px: int, py: int| !(#[trigger] a.covers(px, py) && b.covers(px, py)),
            Some(i) => i.w > 0 && i.h > 0 && i.wf() && forall|px: int, py: int| #[trigger]
                i.covers(px, py) <==> a.covers(px, py) && b.covers(px, py),
        },
{
    let x: usize = if a.x > b.x { a.x } else { b.x };
    let y: usize = if a.y > b.y { a.y } else { b.y };
    let right: usize = if a.right() < b.right() { a.right() } else { b.right() };
    let bottom: usize = if a.bottom() < b.bottom() { a.bottom() } else { b.bottom() };
    if right <= x || bottom <= y {
        None
    } else {
        Some(Rect { x, y, w: right - x, h: bottom - y })
    }
}

/// Damage that takes in one more rectangle.
pub open spec fn extended(damage: Option<Rect>, rect: Rect) -> Option<Rect> {
    Some(
        match damage {
            Some(existing) => union(existing, rect),
            None => rect,
        },
    )
}

pub open spec fn damage_wf(damage: Option<Rect>) -> bool {
    damage matches Some(r) ==> r.wf()
}

pub fn extend_damage(slot: &mut Option<Rect>, rect: Rect)
    requires
        damage_wf(*old(slot)),
        rect.wf(),
    ensures
        *final(slot) == extended(*old(slot), rect),
        damage_wf(*final(slot)),
{
    let merged: Rect = match *slot {
        Some(existing) => rect_union(existing, rect),
        None => rect,
    };
    *slot = Some(merged);
}

pub open spec fn less(a: int, b: int) -> int {
    if a > b {
        a - b
    } else {
        0
    }
}

/// A window with its border and title bar.
pub open spec fn window_outer(wx: int, wy: int) -> Rect {
    Rect {
        x: less(wx, WIN_BORDER as int) as usize,
        y: less(wy, WIN_TITLE_H + WIN_BORDER) as usize,
        w: (SURF_W + WIN_BORDER * 2) as usize,
        h: (SURF_H + WIN_TITLE_H + WIN_BORDER * 2) as usize,
    }
}

pub fn outer_rect_for_window(wx: usize, wy: usize) -> (r: Rect)
    ensures
        r == window_outer(wx as int, wy as int),
{
    Rect {
        x: wx.saturating_sub(WIN_BORDER),
        y: wy.saturating_sub(WIN_TITLE_H + WIN_BORDER),
        w: SURF_W + WIN_BORDER * 2,
        h: SURF_H + WIN_TITLE_H + WIN_BORDER * 2,
    }
}

/// A black picture.
pub open spec fn blank(width: int, height: int, bgr: bool) -> Picture {
    Picture { width, height, stride: width, bgr, cells: Seq::new((width * height) as nat, |i: int| 0u32) }
}

pub fn allocate_framebuffer(width: usize, height: usize, is_bgr: bool) -> (fb: Framebuffer)
    requires
        width * height <= usize::MAX,
    ensures
        fb.wf(),
        fb@ == blank(width as int, height as int, is_bgr),
{
    let pixels: Vec<u32> = vec![0; width * height];
    let fb: Framebuffer = Framebuffer::new(pixels, width, height, width, is_bgr);
    assert(fb@.cells =~= blank(width as int, height as int, is_bgr).cells);
    fb
}

/// Recorded damage as a rectangle, if there is any.
pub fn metrics_damage_rect_to_rect(damage: DamageRect) -> (r: Option<Rect>)
    ensures
        r == if damage.is_empty() {
            None::<Rect>
        } else {
            Some(
                Rect {
                    x: damage.x as usize,
                    y: damage.y as usize,
                    w: damage.w as usize,
                    h: damage.h as usize,
                },
            )
        },
{
    if damage.w == 0 || damage.h == 0 {
        None
    } else {
        Some(
            Rect {
                x: damage.x as usize,
                y: damage.y as usize,
                w: damage.w as usize,
                h: damage.h as usize,
            },
        )
    }
}

/// A coordinate with room for what is drawn right of it or below.
pub open spec fn roomy(x: int) -> bool {
    0 <= x <= usize::MAX - 8192
}

/// Draws a short text.
pub fn put(fb: &mut Framebuffer, font: &AaFont, x: usize, y: usize, s: &str, fg: Color, bg: Color)
    requires
        old(fb).wf(),
        font.wf(),
        roomy(x as int),
        roomy(y as int),
        s@.len() <= 100,
    ensures
        final(fb).wf(),
        final(fb)@ == old(fb)@.text(*font, x as int, y as int, s@, fg, bg),
{
    proof {
        vstd::arithmetic::mul::lemma_mul_upper_bound(
            s@.len() as int,
            100,
            font.width as int,
            64,
        );
    }
    fb.draw_aa_string(font, x, y, s, fg, bg);
}

/// Draws a short line of characters.
pub fn put_line(
    fb: &mut Framebuffer,
    font: &AaFont,
    x: usize,
    y: usize,
    s: &Vec<char>,
    fg: Color,
    bg: Color,
)
    requires
        old(fb).wf(),
        font.wf(),
        roomy(x as int),
        roomy(y as int),
        s@.len() <= 100,
    ensures
        final(fb).wf(),
        final(fb)@ == old(fb)@.text(*font, x as int, y as int, s@, fg, bg),
{
    proof {
        vstd::arithmetic::mul::lemma_mul_upper_bound(
            s@.len() as int,
            100,
            font.width as int,
            64,
        );
    }
    fb.draw_aa_line(font, x, y, s, fg, bg);
}

/// A time of day reads back: two digits each of hours, minutes and seconds, with
/// fewer than sixty minutes and sixty seconds.
pub proof fn law_hms(ns: u64)
    requires
        ns / 1_000_000_000 < 360_000,
    ensures
        ({
            let t = hms(ns);
            let h = text::spelled_number(t.subrange(0, 2));
            let m = text::spelled_number(t.subrange(3, 5));
            let s = text::spelled_number(t.subrange(6, 8));
            &&& t.len() == 8
            &&& t[2] == ':' && t[5] == ':'
            &&& m < 60 && s < 60
            &&& 3600 * h + 60 * m + s == ns / 1_000_000_000
        }),
{
    let t = hms(ns);
    let s = ns as int / 1_000_000_000;
    let m = s / 60;
    let h = m / 60;
    assert(h < 100);
    lemma_two_digits(t.subrange(0, 2), h);
    lemma_two_digits(t.subrange(3, 5), m % 60);
    lemma_two_digits(t.subrange(6, 8), s % 60);
}

proof fn lemma_two_digits(t: Seq<char>, n: int)
    requires
        0 <= n < 100,
        t.len() == 2,
        t[0] == text::digit(n / 10),
        t[1] == text::digit(n % 10),
    ensures
        text::spelled_number(t) == n,
{
    text::lemma_digit(n / 10);
    text::lemma_digit(n % 10);
    reveal_with_fuel(text::spelled_number, 3);
    assert(t.drop_last().len() == 1);
    assert(t.drop_last().last() == t[0]);
    assert(t.drop_last().drop_last().len() == 0);
}

/// A number that has room is shown whole, and one that has none is cut at its end.
pub proof fn law_number(n: u64, max: int)
    requires
        max >= 1,
    ensures
        text::decimal(n as nat).len() <= max ==> text::spelled_number(number(n, max)) == n,
        number(n, max).len() <= max,
        number(n, max).is_prefix_of(text::decimal(n as nat)),
{
    text::law_decimal(n as nat);
    let all = text::decimal(n as nat);
    if all.len() > max {
        assert(all.take(max) =~= all.subrange(0, max));
    } else {
        assert(all =~= all.subrange(0, all.len() as int));
    }
}

/// A latency below a millisecond is a whole number of microseconds; from there on
/// it is milliseconds with one decimal, rounded down.
pub proof fn law_latency(us: u64)
    ensures
        ({
            let t = latency(us);
            let n = t.len() as int;
            &&& n >= 3
            &&& t[n - 1] == 's'
            &&& us < 1000 ==> t[n - 2] == 'u' && text::spelled_number(t.subrange(0, n - 2)) == us
            &&& us >= 1000 ==> {
                &&& n >= 5
                &&& t[n - 2] == 'm'
                &&& t[n - 4] == '.'
                &&& 10 * text::spelled_number(t.subrange(0, n - 4)) + (t[n - 3] as int - '0' as int)
                    == us / 100
            }
        }),
{
    reveal_strlit("ms");
    reveal_strlit("us");
    let t = latency(us);
    let n = t.len() as int;
    if us >= 1000 {
        let whole = text::decimal((us / 1000) as nat);
        text::law_decimal((us / 1000) as nat);
        text::lemma_digit((us % 1000 / 100) as int);
        assert(t.subrange(0, n - 4) =~= whole);
    } else {
        text::law_decimal(us as nat);
        assert(t.subrange(0, n - 2) =~= text::decimal(us as nat));
    }
}

/// A latency below two milliseconds is shown in green, below five in orange, and
/// from there on in red.
pub proof fn law_latency_color(us: u64)
    ensures
        us < 2_000 ==> latency_color(us) == (Color { r: 0x3F, g: 0xB9, b: 0x50 }),
        2_000 <= us < 5_000 ==> latency_color(us) == (Color { r: 0xFF, g: 0xA6, b: 0x58 }),
        5_000 <= us ==> latency_color(us) == (Color { r: 0xFF, g: 0x44, b: 0x44 }),
{
}

/// The three bytes of a colour, red first.
pub proof fn law_rgb(r: u8, g: u8, b: u8, v: u32)
    requires
        v == r * 0x1_0000 + g * 0x100 + b,
    ensures
        rgb(v) == (Color { r, g, b }),
{
    assert(v as int / 65536 == r);
    assert(v as int / 256 % 256 == g);
    assert(v as int % 256 == b);
}

/// The union of two rectangles is the smallest that covers both.
pub proof fn law_union_is_tight(a: Rect, b: Rect, c: Rect)
    requires
        a.wf(),
        b.wf(),
        c.x <= a.x && c.y <= a.y && a.x + a.w <= c.x + c.w && a.y + a.h <= c.y + c.h,
        c.x <= b.x && c.y <= b.y && b.x + b.w <= c.x + c.w && b.y + b.h <= c.y + c.h,
    ensures
        ({
            let u = union(a, b);
            &&& c.x <= u.x && c.y <= u.y && u.x + u.w <= c.x + c.w && u.y + u.h <= c.y + c.h
            &&& u.x <= a.x && u.y <= a.y && a.x + a.w <= u.x + u.w && a.y + a.h <= u.y + u.h
            &&& u.x <= b.x && u.y <= b.y && b.x + b.w <= u.x + u.w && b.y + b.h <= u.y + u.h
        }),
        extended(None, a) == Some(a),
        extended(Some(a), b) == Some(union(a, b)),
{
}

/// A window's frame: two pixels of border all round and a title bar of 28 above.
pub proof fn law_window_frame(wx: int, wy: int)
    requires
        2 <= wx <= 100_000,
        30 <= wy <= 100_000,
    ensures
        window_outer(wx, wy) == (Rect {
            x: (wx - 2) as usize,
            y: (wy - 30) as usize,
            w: 624,
            h: 432,
        }),
{
}

/// The menu bar is drawn anew only for a step in a latency that can be seen: fifty
/// microseconds below a millisecond, a hundred below ten, and a millisecond above.
pub proof fn law_bucket(a: u64, b: u64)
    ensures
        a < 1_000 && b < 1_000 ==> (bucket(a) == bucket(b) <==> a / 50 == b / 50),
        1_000 <= a < 10_000 && 1_000 <= b < 10_000 ==> (bucket(a) == bucket(b) <==> a / 100 == b
            / 100),
        a >= 10_000 && b >= 10_000 ==> (bucket(a) == bucket(b) <==> a / 1_000 == b / 1_000),
{
}

} // verus!
