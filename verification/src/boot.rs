//! What happens before the first task: the display, the map of memory and the
//! boot screen.
use vstd::prelude::*;
use vstd::utf8::encode_utf8;

use crate::dashboard;
use crate::desktop::{put, put_line, rgb, DIM, SUBTLE, TEXT};
use crate::font::AaFont;
use crate::frame_alloc::MemRegion;
use crate::framebuffer;
use crate::framebuffer::{Color, Framebuffer, Picture};
use crate::text;

verus! {

/// At most this many regions of memory are kept.
pub const MAX_REGIONS: usize = 128;

/// The largest display mode that is used.
pub const MAX_WIDTH: usize = 1920;

pub const MAX_HEIGHT: usize = 1200;

pub const BG: u32 = 0x0D1117;

pub const TITLE: u32 = 0x58A6FF;

pub const BAR_BG: u32 = 0x10141C;

/// A mode that the compositor's buffers can hold.
pub open spec fn usable_mode(m: (usize, usize)) -> bool {
    m.0 <= MAX_WIDTH && m.1 <= MAX_HEIGHT
}

/// The largest usable mode among the first `n`, the last of equal ones.
pub open spec fn largest_mode(modes: Seq<(usize, usize)>, n: int) -> Option<int>
    decreases n,
{
    if n <= 0 {
        None
    } else if !usable_mode(modes[n - 1]) {
        largest_mode(modes, n - 1)
    } else {
        match largest_mode(modes, n - 1) {
            Some(i) if modes[i].0 * modes[i].1 > modes[n - 1].0 * modes[n - 1].1 => Some(i),
            _ => Some(n - 1),
        }
    }
}

/// The display mode to switch to, among those that the firmware offers.
pub fn best_mode(modes: &Vec<(usize, usize)>) -> (r: Option<usize>)
    ensures
        match r {
            Some(i) => i < modes@.len() && largest_mode(modes@, modes@.len() as int) == Some(
                i as int,
            ),
            None => largest_mode(modes@, modes@.len() as int) is None,
        },
{
    let mut best: Option<usize> = None;
    let mut n: usize = 0;
    while n < modes.len()
        invariant
            n <= modes@.len(),
            match best {
                Some(i) => i < n && usable_mode(modes@[i as int]) && largest_mode(
                    modes@,
                    n as int,
                ) == Some(i as int),
                None => largest_mode(modes@, n as int) is None,
            },
        decreases modes@.len() - n,
    {
        let (w, h): (usize, usize) = modes[n];
        if w <= MAX_WIDTH && h <= MAX_HEIGHT {
            best = match best {
                Some(i) => {
                    let (bw, bh): (usize, usize) = modes[i];
                    proof {
                        assert(0 <= w * h <= 1920 * 1200) by (nonlinear_arith)
                            requires
                                0 <= w <= 1920,
                                0 <= h <= 1200,
                        ;
                        assert(0 <= bw * bh <= 1920 * 1200) by (nonlinear_arith)
                            requires
                                0 <= bw <= 1920,
                                0 <= bh <= 1200,
                        ;
                    }
                    if bw * bh > w * h {
                        Some(i)
                    } else {
                        Some(n)
                    }
                },
                None => Some(n),
            };
        }
        n = n + 1;
    }
    best
}

/// The pages of usable memory among the first `n` regions.
pub open spec fn usable_pages(regions: Seq<MemRegion>, n: int) -> int
    decreases n,
{
    if n <= 0 {
        0
    } else {
        usable_pages(regions, n - 1) + if regions[n - 1].usable {
            regions[n - 1].pages as int
        } else {
            0
        }
    }
}

/// The regions that are kept, and how many pages of all of them are usable.
pub fn collect_regions(all: &Vec<MemRegion>) -> (r: (Vec<MemRegion>, u64))
    requires
        forall|n: int| 0 <= n <= all@.len() ==> #[trigger] usable_pages(all@, n) <= u64::MAX,
    ensures
        r.0@ == if all@.len() > MAX_REGIONS {
            all@.take(MAX_REGIONS as int)
        } else {
            all@
        },
        r.1 == usable_pages(all@, all@.len() as int),
{
    let mut kept: Vec<MemRegion> = Vec::new();
    let mut pages: u64 = 0;
    let mut i: usize = 0;
    while i < all.len()
        invariant
            i <= all@.len(),
            forall|n: int| 0 <= n <= all@.len() ==> #[trigger] usable_pages(all@, n) <= u64::MAX,
            pages == usable_pages(all@, i as int),
            kept@ == if i > MAX_REGIONS {
                all@.take(MAX_REGIONS as int)
            } else {
                all@.take(i as int)
            },
        decreases all@.len() - i,
    {
        let region: MemRegion = all[i];
        assert(usable_pages(all@, i + 1) <= u64::MAX);
        if region.usable {
            pages = pages + region.pages;
        }
        if kept.len() < MAX_REGIONS {
            kept.push(region);
        }
        i = i + 1;
        assert(i <= MAX_REGIONS ==> kept@ =~= all@.take(i as int));
    }
    assert(all@.take(all@.len() as int) =~= all@);
    (kept, pages)
}

/// `s`, cut to `n` bytes.
pub open spec fn cut_bytes(s: Seq<u8>, n: int) -> Seq<u8> {
    if s.len() > n {
        s.take(n)
    } else {
        s
    }
}

/// `prefix`, a number and `suffix` as one line of at most 64 bytes, the prefix
/// cut to 60. A line that is cut inside a character is a `?`.
pub open spec fn simple_line(prefix: Seq<char>, n: u64, suffix: Seq<char>) -> Seq<char> {
    let head = cut_bytes(encode_utf8(prefix), 60) + encode_utf8(text::decimal(n as nat));
    text::text_of(cut_bytes(head + encode_utf8(suffix), 64))
}

pub fn fmt_simple(prefix: &str, n: u64, suffix: &str) -> (r: Vec<char>)
    requires
        cut_bytes(encode_utf8(prefix@), 60).len() + encode_utf8(text::decimal(n as nat)).len()
            <= 64,
    ensures
        r@ == simple_line(prefix@, n, suffix@),
        r@.len() <= 64,
        encode_utf8(r@).len() <= 64,
{
    let mut line: Vec<u8> = Vec::new();
    line.extend_from_slice(prefix.as_bytes());
    assert(line@ =~= encode_utf8(prefix@));
    line.truncate(60);
    assert(line@ =~= cut_bytes(encode_utf8(prefix@), 60));
    let mut digits: Vec<char> = Vec::new();
    text::push_u64(&mut digits, n);
    assert(digits@ =~= text::decimal(n as nat));
    let digits: Vec<u8> = text::utf8_bytes(&digits);
    line.extend_from_slice(digits.as_slice());
    line.extend_from_slice(suffix.as_bytes());
    let ghost head = cut_bytes(encode_utf8(prefix@), 60) + encode_utf8(text::decimal(n as nat));
    assert(line@ =~= head + encode_utf8(suffix@));
    line.truncate(64);
    assert(line@ =~= cut_bytes(head + encode_utf8(suffix@), 64));
    text::text_from(line.as_slice())
}

/// Digits take a byte each.
proof fn lemma_digit_bytes(n: nat)
    ensures
        encode_utf8(text::decimal(n)).len() == text::decimal(n).len(),
{
    lemma_digits_ascii(n);
    vstd::utf8::is_ascii_chars_encode_utf8(text::decimal(n));
}

proof fn lemma_digits_ascii(n: nat)
    ensures
        vstd::utf8::is_ascii_chars(text::decimal(n)),
    decreases n,
{
    if n >= 10 {
        lemma_digits_ascii(n / 10);
    }
}

/// A number of at most 16 digits in decimal.
pub fn fmt_u64_str(n: u64) -> (r: Vec<char>)
    requires
        n < 10_000_000_000_000_000,
    ensures
        r@ == text::decimal(n as nat),
        1 <= r@.len() <= 20,
{
    let mut r: Vec<char> = Vec::new();
    text::push_u64(&mut r, n);
    assert(r@ =~= text::decimal(n as nat));
    proof {
        text::lemma_u64_digits(n);
    }
    r
}

/// The boot screen.
pub open spec fn screen(
    p: Picture,
    font: AaFont,
    width: usize,
    height: usize,
    free_mb: u64,
) -> Picture {
    let (bg, bar, title) = (rgb(BG), rgb(BAR_BG), rgb(TITLE));
    let words = rgb(TEXT);
    let size = simple_line("Display       "@, width as u64, ""@);
    let x = 80 + encode_utf8(size).len() * font.width;
    let top = p.rect(0, 0, p.width, p.height, bg).rect(0, 0, width as int, 26, bar).text(
        font,
        12,
        5,
        "FreshOS"@,
        title,
        bar,
    ).text(font, 100, 5, "|  aarch64"@, rgb(DIM), bar);
    top.paint(
        framebuffer::aa_shape(top, font, width as int / 2 - 70, 80, "FreshOS"@, title, bg, 2),
    ).text(font, width as int / 2 - 100, 120, "Running on aarch64 with HVF"@, rgb(SUBTLE), bg).text(
        font,
        80,
        180,
        "Architecture  aarch64 (Apple Silicon)"@,
        words,
        bg,
    ).text(font, 80, 204, "Acceleration  HVF (near-native)"@, words, bg).text(
        font,
        80,
        228,
        simple_line("Memory        "@, free_mb, " MB free"@),
        words,
        bg,
    ).text(font, 80, 252, size, words, bg).text(font, x, 252, seq!['x'], words, bg).text(
        font,
        x + font.width,
        252,
        text::decimal(height as nat),
        words,
        bg,
    ).text(font, 80, 276, "Heap          1024 KiB"@, words, bg).text(
        font,
        80,
        324,
        "The architecture is perceptible."@,
        rgb(DIM),
        bg,
    )
}

pub fn draw_boot_screen(
    fb: &mut Framebuffer,
    font: &AaFont,
    width: usize,
    height: usize,
    free_mb: u64,
)
    requires
        old(fb).wf(),
        font.wf(),
        200 <= width,
        height < 10_000_000_000_000_000,
    ensures
        final(fb).wf(),
        final(fb)@ == screen(old(fb)@, *font, width, height, free_mb),
{
    proof {
        reveal_strlit("FreshOS");
        reveal_strlit("|  aarch64");
        reveal_strlit("Running on aarch64 with HVF");
        reveal_strlit("Architecture  aarch64 (Apple Silicon)");
        reveal_strlit("Acceleration  HVF (near-native)");
        reveal_strlit("Memory        ");
        reveal_strlit(" MB free");
        reveal_strlit("Display       ");
        reveal_strlit("");
        reveal_strlit("Heap          1024 KiB");
        reveal_strlit("The architecture is perceptible.");
        text::lemma_u64_digits(free_mb);
        text::lemma_u64_digits(width as u64);
        text::lemma_u64_digits(height as u64);
        lemma_digit_bytes(free_mb as nat);
        lemma_digit_bytes(width as nat);
        vstd::utf8::is_ascii_chars_encode_utf8("Memory        "@);
        vstd::utf8::is_ascii_chars_encode_utf8("Display       "@);
        assert("FreshOS"@.len() * (font.width * 2) <= 7 * 128) by (nonlinear_arith)
            requires
                "FreshOS"@.len() == 7,
                font.width <= 64,
        ;
    }
    let (bg, bar, title): (Color, Color, Color) = (rgb(BG), rgb(BAR_BG), rgb(TITLE));
    let words: Color = rgb(TEXT);
    fb.clear(bg);
    fb.draw_rect(0, 0, width, 26, bar);
    put(fb, font, 12, 5, "FreshOS", title, bar);
    put(fb, font, 100, 5, "|  aarch64", rgb(DIM), bar);
    fb.draw_aa_string_2x(font, width / 2 - 70, 80, "FreshOS", title, bg);
    put(fb, font, width / 2 - 100, 120, "Running on aarch64 with HVF", rgb(SUBTLE), bg);
    put(fb, font, 80, 180, "Architecture  aarch64 (Apple Silicon)", words, bg);
    put(fb, font, 80, 204, "Acceleration  HVF (near-native)", words, bg);
    let memory: Vec<char> = fmt_simple("Memory        ", free_mb, " MB free");
    put_line(fb, font, 80, 228, &memory, words, bg);
    let size: Vec<char> = fmt_simple("Display       ", width as u64, "");
    put_line(fb, font, 80, 252, &size, words, bg);
    let taken: usize = text::utf8_bytes(&size).len();
    proof {
        assert(0 <= taken * font.width <= 64 * 64) by (nonlinear_arith)
            requires
                0 <= taken <= 64,
                0 <= font.width <= 64,
        ;
    }
    let x: usize = 80 + taken * font.width;
    fb.draw_aa_char(font, x, 252, 'x', words, bg);
    let rows: Vec<char> = fmt_u64_str(height as u64);
    put_line(fb, font, x + font.width, 252, &rows, words, bg);
    put(fb, font, 80, 276, "Heap          1024 KiB", words, bg);
    put(fb, font, 80, 324, "The architecture is perceptible.", rgb(DIM), bg);
}

/// The mode that is chosen is no larger than 1920 by 1200, and no other such mode has
/// more pixels; there is none exactly where every mode is larger.
pub proof fn law_largest_mode(modes: Seq<(usize, usize)>, n: int, j: int)
    requires
        0 <= n <= modes.len(),
        0 <= j < n,
        modes[j].0 <= 1920 && modes[j].1 <= 1200,
    ensures
        largest_mode(modes, n) matches Some(i) && 0 <= i < n && modes[i].0 <= 1920 && modes[i].1
            <= 1200 && modes[j].0 * modes[j].1 <= modes[i].0 * modes[i].1 && (i < j
            ==> modes[j].0 * modes[j].1 < modes[i].0 * modes[i].1),
    decreases n,
{
    if j < n - 1 {
        law_largest_mode(modes, n - 1, j);
    } else {
        lemma_mode_found(modes, n - 1);
    }
}

proof fn lemma_mode_found(modes: Seq<(usize, usize)>, n: int)
    requires
        0 <= n <= modes.len(),
    ensures
        largest_mode(modes, n) matches Some(i) ==> 0 <= i < n && modes[i].0 <= 1920 && modes[i].1
            <= 1200,
    decreases n,
{
    if n > 0 {
        lemma_mode_found(modes, n - 1);
    }
}

/// A line with a number in it, where all of it fits.
pub proof fn law_simple_line(prefix: Seq<char>, n: u64, suffix: Seq<char>)
    requires
        encode_utf8(prefix).len() <= 60,
        encode_utf8(prefix).len() + encode_utf8(text::decimal(n as nat)).len() + encode_utf8(
            suffix,
        ).len() <= 64,
    ensures
        simple_line(prefix, n, suffix) == prefix + text::decimal(n as nat) + suffix,
{
    let d = text::decimal(n as nat);
    text::lemma_encode_concat(prefix, d);
    text::lemma_encode_concat(prefix + d, suffix);
    text::law_text_of(prefix + d + suffix, Seq::empty());
}

/// The usable pages are counted region by region.
pub proof fn law_usable_pages(regions: Seq<MemRegion>, n: int)
    requires
        0 <= n < regions.len(),
    ensures
        usable_pages(regions, 0) == 0,
        regions[n].usable ==> usable_pages(regions, n + 1) == usable_pages(regions, n)
            + regions[n].pages,
        !regions[n].usable ==> usable_pages(regions, n + 1) == usable_pages(regions, n),
{
}

/// The boot screen tells how much memory is free and how large the display is.
#[verifier::spinoff_prover]
#[verifier::rlimit(60)]
pub proof fn law_boot_screen_tells(
    p: Picture,
    font: AaFont,
    width: usize,
    height: usize,
    free_mb: u64,
)
    requires
        font.wf(),
        dashboard::whole(p),
    ensures
        ({
            let q = screen(p, font, width, height, free_mb);
            let rows = dashboard::at_most(font.height as int, 24);
            let size = simple_line("Display       "@, width as u64, ""@);
            let memory = simple_line("Memory        "@, free_mb, " MB free"@);
            let x = 80 + encode_utf8(size).len() * font.width;
            let (fg, bg) = (rgb(TEXT), rgb(BG));
            &&& dashboard::shows(q, font, 80, 228, rows, memory, fg, bg)
            &&& dashboard::shows(q, font, 80, 252, rows, size, fg, bg)
            &&& dashboard::shows(
                q,
                font,
                x + font.width,
                252,
                rows,
                text::decimal(height as nat),
                fg,
                bg,
            )
        }),
{
    let (bg, bar, title, words) = (rgb(BG), rgb(BAR_BG), rgb(TITLE), rgb(TEXT));
    let rows = dashboard::at_most(font.height as int, 24);
    let h = font.height as int;
    let size = simple_line("Display       "@, width as u64, ""@);
    let memory = simple_line("Memory        "@, free_mb, " MB free"@);
    let tall = text::decimal(height as nat);
    let x = 80 + encode_utf8(size).len() * font.width;
    let x2 = x + font.width;
    let top = p.rect(0, 0, p.width, p.height, bg).rect(0, 0, width as int, 26, bar).text(
        font,
        12,
        5,
        "FreshOS"@,
        title,
        bar,
    ).text(font, 100, 5, "|  aarch64"@, rgb(DIM), bar);
    let a = top.paint(
        framebuffer::aa_shape(top, font, width as int / 2 - 70, 80, "FreshOS"@, title, bg, 2),
    ).text(font, width as int / 2 - 100, 120, "Running on aarch64 with HVF"@, rgb(SUBTLE), bg).text(
        font,
        80,
        180,
        "Architecture  aarch64 (Apple Silicon)"@,
        words,
        bg,
    ).text(font, 80, 204, "Acceleration  HVF (near-native)"@, words, bg);
    assert(dashboard::whole(a));
    let b = a.text(font, 80, 228, memory, words, bg);
    let c = b.text(font, 80, 252, size, words, bg);
    let d = c.text(font, x, 252, seq!['x'], words, bg);
    let e = d.text(font, x2, 252, tall, words, bg);
    let heap = "Heap          1024 KiB"@;
    let f = e.text(font, 80, 276, heap, words, bg);
    let last = "The architecture is perceptible."@;
    let g = f.text(font, 80, 324, last, rgb(DIM), bg);
    dashboard::lemma_text_below(a, font, 80, 228, memory, words, bg, 228);
    dashboard::lemma_text_below(b, font, 80, 252, size, words, bg, 252);
    dashboard::lemma_text_below(c, font, x, 252, seq!['x'], words, bg, 252);
    dashboard::lemma_text_below(d, font, x2, 252, tall, words, bg, 252);
    dashboard::lemma_text_below(e, font, 80, 276, heap, words, bg, 276);
    dashboard::lemma_text_below(f, font, 80, 324, last, rgb(DIM), bg, 324);
    dashboard::lemma_above_further(e, f, g, 276, 324);
    dashboard::lemma_above_further(d, e, g, 252, 276);
    dashboard::lemma_above_further(c, d, g, 252, 252);
    dashboard::lemma_above_further(b, c, g, 252, 252);
    // the memory
    dashboard::lemma_text_shows(a, font, 80, 228, memory, words, bg);
    dashboard::lemma_shows_fewer(b, font, 80, 228, h, rows, memory, words, bg);
    dashboard::lemma_above_less(b, g, 252, 228 + rows);
    dashboard::lemma_shows_above(b, g, font, 80, 228, rows, memory, words, bg);
    // the width
    text::lemma_encode_len(size);
    assert(80 + size.len() * font.width <= x) by (nonlinear_arith)
        requires
            size.len() <= encode_utf8(size).len(),
            x == 80 + encode_utf8(size).len() * font.width,
            0 <= font.width,
    ;
    dashboard::lemma_text_shows(b, font, 80, 252, size, words, bg);
    dashboard::lemma_shows_kept(
        c,
        font,
        80,
        252,
        h,
        size,
        words,
        bg,
        x,
        252,
        seq!['x'],
        words,
        bg,
    );
    dashboard::lemma_shows_kept(d, font, 80, 252, h, size, words, bg, x2, 252, tall, words, bg);
    dashboard::lemma_shows_fewer(e, font, 80, 252, h, rows, size, words, bg);
    dashboard::lemma_above_less(e, g, 276, 252 + rows);
    dashboard::lemma_shows_above(e, g, font, 80, 252, rows, size, words, bg);
    // the height
    dashboard::lemma_text_shows(d, font, x2, 252, tall, words, bg);
    dashboard::lemma_shows_fewer(e, font, x2, 252, h, rows, tall, words, bg);
    dashboard::lemma_shows_above(e, g, font, x2, 252, rows, tall, words, bg);
    assert(g == screen(p, font, width, height, free_mb));
}

} // verus!
