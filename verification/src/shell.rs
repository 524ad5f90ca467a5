//! The shell: a line editor and a few commands, drawn on a surface of its own.
use vstd::prelude::*;
use vstd::utf8::encode_utf8;

use crate::abi::tag;
use crate::abi::Message;
use crate::dashboard;
use crate::desktop;
use crate::desktop::{
    put, put_line, rgb, Rect, ACCENT, GREEN, HEADER_BG, ORANGE, SEP, SHELL_BG, SUBTLE, SURF_H,
    SURF_W, TEXT,
};
use crate::font::AaFont;
use crate::framebuffer;
use crate::framebuffer::{Color, Framebuffer, Picture};
use crate::init_abi;
use crate::init_abi::{
    ServiceRecord, ServiceStatus, Services, ServicesView, SERVICE_COUNT, SERVICE_EXIT_CLEAN,
    SERVICE_EXIT_FAULT, SERVICE_STATE_RUNNING,
};
use crate::kernel::Kernel;
use crate::metrics;
use crate::metrics::{DamageRect, Metrics, MetricsView};
use crate::syscalls::Programs;
use crate::task_names::TaskNames;
use crate::text;

verus! {

pub const LEFT: usize = 14;

pub const START_Y: usize = 48;

/// The longest command.
pub const MAX_COMMAND: usize = 64;

/// `s`, cut to `n` bytes.
pub open spec fn clipped(s: Seq<u8>, n: int) -> Seq<u8> {
    if s.len() > n {
        s.take(n)
    } else {
        s
    }
}

/// `s` and spaces after it, up to the column `width`.
pub open spec fn padded(s: Seq<u8>, width: int) -> Seq<u8> {
    if s.len() < width {
        s + Seq::new((width - s.len()) as nat, |i: int| 0x20u8)
    } else {
        s
    }
}

/// The bytes of a number in decimal.
pub open spec fn digits(n: int) -> Seq<u8> {
    encode_utf8(text::decimal(n as nat))
}

/// A line of at most `N` bytes; what does not fit is dropped.
pub struct LineBuf<const N: usize> {
    pub buf: Vec<u8>,
}

impl<const N: usize> LineBuf<N> {
    pub open spec fn wf(&self) -> bool {
        self.buf@.len() <= N
    }

    pub fn new() -> (l: LineBuf<N>)
        ensures
            l.wf(),
            l.buf@ == Seq::<u8>::empty(),
    {
        LineBuf { buf: Vec::new() }
    }

    pub fn push_byte(&mut self, byte: u8)
        requires
            old(self).wf(),
        ensures
            final(self).wf(),
            final(self).buf@ == clipped(old(self).buf@.push(byte), N as int),
    {
        if self.buf.len() < N {
            self.buf.push(byte);
        } else {
            assert(old(self).buf@.push(byte).take(N as int) =~= old(self).buf@);
        }
    }

    fn push_bytes(&mut self, bytes: &[u8])
        requires
            old(self).wf(),
        ensures
            final(self).wf(),
            final(self).buf@ == clipped(old(self).buf@ + bytes@, N as int),
    {
        let mut i: usize = 0;
        assert(self.buf@ =~= clipped(old(self).buf@ + bytes@.take(0), N as int));
        while i < bytes.len()
            invariant
                i <= bytes@.len(),
                self.wf(),
                self.buf@ == clipped(old(self).buf@ + bytes@.take(i as int), N as int),
            decreases bytes@.len() - i,
        {
            let ghost before = self.buf@;
            self.push_byte(bytes[i]);
            proof {
                let all = old(self).buf@ + bytes@.take(i as int);
                assert(old(self).buf@ + bytes@.take(i + 1) =~= all.push(bytes@[i as int]));
                assert(clipped(before.push(bytes@[i as int]), N as int) =~= clipped(
                    all.push(bytes@[i as int]),
                    N as int,
                ));
            }
            i = i + 1;
        }
        assert(bytes@.take(bytes@.len() as int) =~= bytes@);
    }

    pub fn push_line(&mut self, chars: &Vec<char>)
        requires
            old(self).wf(),
        ensures
            final(self).wf(),
            final(self).buf@ == clipped(old(self).buf@ + encode_utf8(chars@), N as int),
    {
        let bytes: Vec<u8> = text::utf8_bytes(chars);
        self.push_bytes(bytes.as_slice());
    }

    pub fn push_str(&mut self, s: &str)
        requires
            old(self).wf(),
        ensures
            final(self).wf(),
            final(self).buf@ == clipped(old(self).buf@ + encode_utf8(s@), N as int),
    {
        self.push_bytes(s.as_bytes());
    }

    pub fn push_u64(&mut self, value: u64)
        requires
            old(self).wf(),
        ensures
            final(self).wf(),
            final(self).buf@ == clipped(old(self).buf@ + digits(value as int), N as int),
    {
        let mut chars: Vec<char> = Vec::new();
        text::push_u64(&mut chars, value);
        assert(chars@ =~= text::decimal(value as nat));
        self.push_line(&chars);
    }

    pub fn pad_to(&mut self, width: usize)
        requires
            old(self).wf(),
            width <= N,
        ensures
            final(self).wf(),
            final(self).buf@ == padded(old(self).buf@, width as int),
    {
        while self.buf.len() < width
            invariant
                self.wf(),
                width <= N,
                old(self).buf@.len() <= self.buf@.len(),
                self.buf@.len() <= width || self.buf@ == old(self).buf@,
                forall|i: int|
                    0 <= i < old(self).buf@.len() ==> #[trigger] self.buf@[i] == old(self).buf@[i],
                forall|i: int|
                    old(self).buf@.len() <= i < self.buf@.len() ==> #[trigger] self.buf@[i] == 0x20,
            decreases width - self.buf@.len(),
        {
            self.buf.push(0x20);
        }
        assert(self.buf@ =~= padded(old(self).buf@, width as int));
    }

    /// The line as text.
    pub fn as_str(&self) -> (r: Vec<char>)
        requires
            self.wf(),
            1 <= N,
        ensures
            r@ == text::text_of(self.buf@),
            r@.len() <= N,
    {
        text::text_from(self.buf.as_slice())
    }
}

/// What the shell has drawn: its surface, the line it is on, the part that
/// changed, and what it said on the console.
pub struct Drawn {
    pub pic: Picture,
    pub cy: int,
    pub damage: Option<Rect>,
    pub console: Seq<char>,
}

pub open spec fn line_h(font: AaFont) -> int {
    font.height + 3
}

pub open spec fn max_y(font: AaFont) -> int {
    SURF_H - line_h(font)
}

/// How many bytes of text fit on a line.
pub open spec fn max_cols(font: AaFont) -> int {
    (SURF_W - LEFT - 4) / (font.width as int)
}

impl Drawn {
    pub open spec fn unspoiled(self) -> Drawn {
        Drawn { damage: None, ..self }
    }

    pub open spec fn spoiled(self, pic: Picture, x: int, y: int, w: int, h: int) -> Drawn {
        Drawn {
            pic,
            damage: desktop::extended(
                self.damage,
                Rect { x: x as usize, y: y as usize, w: w as usize, h: h as usize },
            ),
            ..self
        }
    }

    /// Everything below the header is empty.
    pub open spec fn cleared(self) -> Drawn {
        let (w, h) = (SURF_W - LEFT, SURF_H - START_Y);
        self.spoiled(
            self.pic.rect(LEFT as int, START_Y as int, w, h, rgb(SHELL_BG)),
            LEFT as int,
            START_Y as int,
            w,
            h,
        )
    }

    /// On the next line; below the last one, on the first of an empty screen.
    pub open spec fn advanced(self, font: AaFont) -> Drawn {
        if self.cy + line_h(font) >= max_y(font) {
            Drawn { cy: START_Y as int, ..self }.cleared()
        } else {
            Drawn { cy: self.cy + line_h(font), ..self }
        }
    }

    pub open spec fn prompted(self, font: AaFont) -> Drawn {
        let (w, x) = (font.width as int, LEFT as int);
        self.spoiled(
            self.pic.text(font, x, self.cy, seq!['>'], rgb(ACCENT), rgb(SHELL_BG)).text(
                font,
                x + w,
                self.cy,
                seq![' '],
                rgb(ACCENT),
                rgb(SHELL_BG),
            ),
            x,
            self.cy,
            2 * w,
            font.height as int,
        )
    }

    /// With one more line of output, as far as it fits.
    pub open spec fn printed(self, font: AaFont, line: Seq<char>, color: Color) -> Drawn {
        let shown = text::fitting(line, max_cols(font));
        let (x, w, h) = (LEFT as int, SURF_W - LEFT, font.height as int);
        let pic = self.pic.rect(x, self.cy, w, h, rgb(SHELL_BG)).text(
            font,
            x,
            self.cy,
            shown,
            color,
            rgb(SHELL_BG),
        );
        Drawn {
            console: (self.console + "[shell] "@ + shown).push('\n'),
            ..self.spoiled(pic, x, self.cy, w, h)
        }.advanced(font)
    }
}

/// The surface of the shell and where it stands on it.
pub struct Screen {
    pub surf: Framebuffer,
    pub cy: usize,
    pub damage: Option<Rect>,
    pub console: Vec<char>,
}

impl View for Screen {
    type V = Drawn;

    open spec fn view(&self) -> Drawn {
        Drawn {
            pic: self.surf@,
            cy: self.cy as int,
            damage: self.damage,
            console: self.console@,
        }
    }
}

impl Screen {
    pub open spec fn wf(&self, font: AaFont) -> bool {
        &&& font.wf()
        &&& self.surf.wf()
        &&& START_Y <= self.cy < max_y(font)
        &&& desktop::damage_wf(self.damage)
    }
}

fn shell_clear_body(screen: &mut Screen)
    requires
        old(screen).surf.wf(),
        desktop::damage_wf(old(screen).damage),
    ensures
        final(screen)@ == old(screen)@.cleared(),
        final(screen).surf.wf(),
        desktop::damage_wf(final(screen).damage),
{
    screen.surf.draw_rect(LEFT, START_Y, SURF_W - LEFT, SURF_H - START_Y, rgb(SHELL_BG));
    desktop::extend_damage(
        &mut screen.damage,
        Rect { x: LEFT, y: START_Y, w: SURF_W - LEFT, h: SURF_H - START_Y },
    );
}

fn shell_advance_line(screen: &mut Screen, font: &AaFont)
    requires
        old(screen).wf(*font),
    ensures
        final(screen).wf(*font),
        final(screen)@ == old(screen)@.advanced(*font),
{
    let line_h: usize = font.height + 3;
    screen.cy = screen.cy + line_h;
    if screen.cy >= SURF_H - line_h {
        screen.cy = START_Y;
        shell_clear_body(screen);
    }
}

fn shell_draw_prompt(screen: &mut Screen, font: &AaFont) -> (cx: usize)
    requires
        old(screen).wf(*font),
    ensures
        final(screen).wf(*font),
        final(screen)@ == old(screen)@.prompted(*font),
        cx == LEFT + 2 * font.width,
{
    let cy: usize = screen.cy;
    screen.surf.draw_aa_char(font, LEFT, cy, '>', rgb(ACCENT), rgb(SHELL_BG));
    screen.surf.draw_aa_char(font, LEFT + font.width, cy, ' ', rgb(ACCENT), rgb(SHELL_BG));
    desktop::extend_damage(
        &mut screen.damage,
        Rect { x: LEFT, y: cy, w: 2 * font.width, h: font.height },
    );
    LEFT + 2 * font.width
}

/// A line does not grow where it is cut.
proof fn lemma_fitting_len(s: Seq<char>, n: int)
    ensures
        text::fitting(s, n).len() <= s.len(),
    decreases s.len(),
{
    if s.len() > 0 {
        lemma_fitting_len(s.drop_last(), n);
    }
}

fn shell_print_line(screen: &mut Screen, font: &AaFont, line: &Vec<char>, color: Color)
    requires
        old(screen).wf(*font),
        line@.len() <= 100,
    ensures
        final(screen).wf(*font),
        final(screen)@ == old(screen)@.printed(*font, line@, color),
{
    let max_cols: usize = (SURF_W - (LEFT + 4)) / font.width;
    let shown: Vec<char> = text::fit(line, max_cols);
    proof {
        lemma_fitting_len(line@, max_cols as int);
    }
    let cy: usize = screen.cy;
    screen.surf.draw_rect(LEFT, cy, SURF_W - LEFT, font.height, rgb(SHELL_BG));
    put_line(&mut screen.surf, font, LEFT, cy, &shown, color, rgb(SHELL_BG));
    desktop::extend_damage(
        &mut screen.damage,
        Rect { x: LEFT, y: cy, w: SURF_W - LEFT, h: font.height },
    );
    text::push_str(&mut screen.console, "[shell] ");
    text::push_all(&mut screen.console, &shown);
    screen.console.push('\n');
    shell_advance_line(screen, font);
}

pub open spec fn state_label(s: ServiceStatus) -> Seq<char> {
    if s.state & SERVICE_STATE_RUNNING != 0 {
        "run"@
    } else if s.last_exit_reason == SERVICE_EXIT_FAULT {
        "fault"@
    } else if s.last_exit_reason == SERVICE_EXIT_CLEAN {
        "down"@
    } else {
        "idle"@
    }
}

pub fn shell_service_state_label(status: ServiceStatus) -> (r: &'static str)
    ensures
        r@ == state_label(status),
{
    if status.state & SERVICE_STATE_RUNNING != 0 {
        "run"
    } else if status.last_exit_reason == SERVICE_EXIT_FAULT {
        "fault"
    } else if status.last_exit_reason == SERVICE_EXIT_CLEAN {
        "down"
    } else {
        "idle"
    }
}

pub open spec fn exit_label(reason: u64) -> Seq<char> {
    if reason == SERVICE_EXIT_CLEAN {
        "clean"@
    } else if reason == SERVICE_EXIT_FAULT {
        "fault"@
    } else {
        "-"@
    }
}

pub fn shell_service_exit_label(reason: u64) -> (r: &'static str)
    ensures
        r@ == exit_label(reason),
{
    match reason {
        SERVICE_EXIT_CLEAN => "clean",
        SERVICE_EXIT_FAULT => "fault",
        _ => "-",
    }
}

pub open spec fn line_color(s: ServiceStatus) -> Color {
    if s.state & SERVICE_STATE_RUNNING != 0 {
        rgb(TEXT)
    } else if s.last_exit_reason == SERVICE_EXIT_FAULT {
        rgb(ORANGE)
    } else {
        rgb(SUBTLE)
    }
}

pub fn shell_service_line_color(status: ServiceStatus) -> (c: Color)
    ensures
        c == line_color(status),
{
    if status.state & SERVICE_STATE_RUNNING != 0 {
        rgb(TEXT)
    } else if status.last_exit_reason == SERVICE_EXIT_FAULT {
        rgb(ORANGE)
    } else {
        rgb(SUBTLE)
    }
}

/// A character between two words.
pub open spec fn is_space(c: char) -> bool {
    c == ' ' || c == '\t' || c == '\n' || c == '\x0c' || c == '\r'
}

/// White space, which is not looked at around a line.
pub open spec fn is_white(c: char) -> bool {
    let n = c as u32;
    ||| 0x09 <= n <= 0x0D
    ||| n == 0x20 || n == 0x85 || n == 0xA0 || n == 0x1680
    ||| 0x2000 <= n <= 0x200A
    ||| n == 0x2028 || n == 0x2029 || n == 0x202F || n == 0x205F || n == 0x3000
}

/// The first place from `i` on that is no space.
pub open spec fn skip(s: Seq<char>, i: int) -> int
    decreases s.len() - i,
{
    if i < s.len() && is_space(s[i]) {
        skip(s, i + 1)
    } else {
        i
    }
}

/// The first place from `i` on that is a space, or the end.
pub open spec fn word_end(s: Seq<char>, i: int) -> int
    decreases s.len() - i,
{
    if i < s.len() && !is_space(s[i]) {
        word_end(s, i + 1)
    } else {
        i
    }
}

/// Where the next word from `i` on begins and ends.
pub open spec fn next_word(s: Seq<char>, i: int) -> Option<(int, int)> {
    let a = skip(s, i);
    if a < s.len() {
        Some((a, word_end(s, a)))
    } else {
        None
    }
}

/// The first place from `i` on that is no white space.
pub open spec fn first_begin(s: Seq<char>, i: int) -> int
    decreases s.len() - i,
{
    if i < s.len() && is_white(s[i]) {
        first_begin(s, i + 1)
    } else {
        i
    }
}

/// The place after the last of the first `n` characters that is no white space.
pub open spec fn last_end(s: Seq<char>, n: int) -> int
    decreases n,
{
    if n > 0 && is_white(s[n - 1]) {
        last_end(s, n - 1)
    } else {
        n
    }
}

/// `s` without the white space around it.
pub open spec fn trimmed(s: Seq<char>) -> Seq<char> {
    let (a, b) = (first_begin(s, 0), last_end(s, s.len() as int));
    if a < b {
        s.subrange(a, b)
    } else {
        Seq::empty()
    }
}

/// What a line asks for.
pub enum Request {
    Nothing,
    Help,
    List,
    Usage,
    Restart(Seq<char>),
    Unknown(Seq<char>),
}

pub open spec fn request(s: Seq<char>) -> Request {
    match next_word(s, 0) {
        None => Request::Nothing,
        Some((a, b)) => {
            let w = s.subrange(a, b);
            if w == "help"@ {
                Request::Help
            } else if w == "services"@ || w == "ps"@ {
                Request::List
            } else if w == "restart"@ || w == "start"@ {
                match next_word(s, b) {
                    None => Request::Usage,
                    Some((c, d)) => if next_word(s, d) is Some {
                        Request::Usage
                    } else {
                        Request::Restart(s.subrange(c, d))
                    },
                }
            } else {
                Request::Unknown(w)
            }
        },
    }
}

/// A line as the shell understands it.
pub enum Command {
    Nothing,
    Help,
    List,
    Usage,
    Restart(Vec<char>),
    Unknown(Vec<char>),
}

impl Command {
    pub open spec fn meaning(self) -> Request {
        match self {
            Command::Nothing => Request::Nothing,
            Command::Help => Request::Help,
            Command::List => Request::List,
            Command::Usage => Request::Usage,
            Command::Restart(name) => Request::Restart(name@),
            Command::Unknown(word) => Request::Unknown(word@),
        }
    }
}

fn space(c: char) -> (r: bool)
    ensures
        r == is_space(c),
{
    c == ' ' || c == '\t' || c == '\n' || c == '\x0c' || c == '\r'
}

fn white(c: char) -> (r: bool)
    ensures
        r == is_white(c),
{
    let n: u32 = c as u32;
    (0x09 <= n && n <= 0x0D) || n == 0x20 || n == 0x85 || n == 0xA0 || n == 0x1680 || (0x2000 <= n
        && n <= 0x200A) || n == 0x2028 || n == 0x2029 || n == 0x202F || n == 0x205F || n == 0x3000
}

fn find_word(s: &Vec<char>, from: usize) -> (r: Option<(usize, usize)>)
    requires
        from <= s@.len(),
    ensures
        match r {
            None => next_word(s@, from as int) is None,
            Some((a, b)) => next_word(s@, from as int) == Some((a as int, b as int)) && from <= a < b
                <= s@.len(),
        },
{
    let mut a: usize = from;
    while a < s.len() && space(s[a])
        invariant
            from <= a <= s@.len(),
            skip(s@, from as int) == skip(s@, a as int),
        decreases s@.len() - a,
    {
        a = a + 1;
    }
    if a >= s.len() {
        return None;
    }
    let mut b: usize = a;
    while b < s.len() && !space(s[b])
        invariant
            a <= b <= s@.len(),
            word_end(s@, a as int) == word_end(s@, b as int),
        decreases s@.len() - b,
    {
        b = b + 1;
    }
    Some((a, b))
}

fn part(s: &Vec<char>, a: usize, b: usize) -> (r: Vec<char>)
    requires
        a <= b <= s@.len(),
    ensures
        r@ == s@.subrange(a as int, b as int),
{
    let mut r: Vec<char> = Vec::new();
    let mut i: usize = a;
    while i < b
        invariant
            a <= i <= b <= s@.len(),
            r@ == s@.subrange(a as int, i as int),
        decreases b - i,
    {
        r.push(s[i]);
        i = i + 1;
        assert(r@ =~= s@.subrange(a as int, i as int));
    }
    assert(r@ =~= s@.subrange(a as int, b as int));
    r
}

pub fn parse_command(s: &Vec<char>) -> (c: Command)
    ensures
        c.meaning() == request(s@),
        match c {
            Command::Restart(w) => w@.len() <= s@.len(),
            Command::Unknown(w) => w@.len() <= s@.len(),
            _ => true,
        },
{
    let (a, b): (usize, usize) = match find_word(s, 0) {
        None => {
            return Command::Nothing;
        },
        Some(ab) => ab,
    };
    let w: Vec<char> = part(s, a, b);
    if text::is_text("help", &w) {
        Command::Help
    } else if text::is_text("services", &w) || text::is_text("ps", &w) {
        Command::List
    } else if text::is_text("restart", &w) || text::is_text("start", &w) {
        match find_word(s, b) {
            None => Command::Usage,
            Some((c, d)) => if find_word(s, d).is_some() {
                Command::Usage
            } else {
                Command::Restart(part(s, c, d))
            },
        }
    } else {
        Command::Unknown(w)
    }
}

fn trim(s: &Vec<char>) -> (r: Vec<char>)
    ensures
        r@ == trimmed(s@),
{
    let mut a: usize = 0;
    while a < s.len() && white(s[a])
        invariant
            a <= s@.len(),
            first_begin(s@, 0) == first_begin(s@, a as int),
        decreases s@.len() - a,
    {
        a = a + 1;
    }
    let mut b: usize = s.len();
    while b > 0 && white(s[b - 1])
        invariant
            b <= s@.len(),
            last_end(s@, s@.len() as int) == last_end(s@, b as int),
        decreases b,
    {
        b = b - 1;
    }
    if a < b {
        part(s, a, b)
    } else {
        let r: Vec<char> = Vec::new();
        assert(r@ =~= Seq::<char>::empty());
        r
    }
}

/// The line that describes a service.
pub open spec fn service_line(name: Seq<char>, s: ServiceStatus) -> Seq<char> {
    let l0 = clipped(Seq::<u8>::empty() + encode_utf8(name), 80);
    let l1 = clipped(padded(l0, 8) + encode_utf8(state_label(s)), 80);
    let l2 = if s.task_id == 0 {
        clipped(padded(l1, 15).push(0x2D), 80)
    } else {
        clipped(padded(l1, 15) + digits(s.task_id as int), 80)
    };
    let l3 = clipped(padded(l2, 20) + digits(s.restart_count as int), 80);
    let l4 = clipped(padded(l3, 23) + digits(s.exit_count as int), 80);
    text::text_of(clipped(padded(l4, 26) + encode_utf8(exit_label(s.last_exit_reason)), 80))
}

fn describe(name: &str, s: ServiceStatus) -> (r: Vec<char>)
    ensures
        r@ == service_line(name@, s),
        r@.len() <= 80,
{
    let mut line: LineBuf<80> = LineBuf::new();
    line.push_str(name);
    line.pad_to(8);
    line.push_str(shell_service_state_label(s));
    line.pad_to(15);
    if s.task_id == 0 {
        line.push_byte(0x2D);
    } else {
        line.push_u64(s.task_id);
    }
    line.pad_to(20);
    line.push_u64(s.restart_count);
    line.pad_to(23);
    line.push_u64(s.exit_count);
    line.pad_to(26);
    line.push_str(shell_service_exit_label(s.last_exit_reason));
    line.as_str()
}

/// The first `n` services, each on a line.
pub open spec fn listed(d: Drawn, font: AaFont, v: ServicesView, n: int) -> Drawn
    decreases n,
{
    if n <= 0 {
        d
    } else {
        let s = v.status(n as u64).unwrap();
        listed(d, font, v, n - 1).printed(
            font,
            service_line(init_abi::service_name(n - 1), s),
            line_color(s),
        )
    }
}

/// Two texts, one after the other, as far as they fit.
pub open spec fn two_parts(a: Seq<char>, b: Seq<char>) -> Seq<u8> {
    clipped(clipped(Seq::<u8>::empty() + encode_utf8(a), 80) + encode_utf8(b), 80)
}

pub open spec fn already_line(name: Seq<char>, task_id: u64) -> Seq<char> {
    let l = two_parts(name, " already running"@);
    if task_id > 0 {
        text::text_of(
            clipped(
                clipped(clipped(l + encode_utf8(" (task "@), 80) + digits(task_id as int), 80).push(
                    0x29,
                ),
                80,
            ),
        )
    } else {
        text::text_of(l)
    }
}

pub open spec fn started_line(name: Seq<char>, task_id: usize) -> Seq<char> {
    text::text_of(
        clipped(
            clipped(two_parts("started "@, name) + encode_utf8(" task "@), 80) + digits(
                task_id as int,
            ),
            80,
        ),
    )
}

pub open spec fn failed_line(name: Seq<char>, code: i64) -> Seq<char> {
    let l = clipped(two_parts("restart failed "@, name) + encode_utf8(" code "@), 80);
    if code < 0 {
        text::text_of(clipped(clipped(l.push(0x2D), 80) + digits(-code), 80))
    } else {
        text::text_of(clipped(l + digits(code as int), 80))
    }
}

/// The service that the request starts, if it starts one.
pub open spec fn to_start(r: Request, v: ServicesView) -> Option<int> {
    match r {
        Request::Restart(name) => match init_abi::place_named(name, 0) {
            Some(i) if !v.started[i] => Some(i),
            _ => None,
        },
        _ => None,
    }
}

/// What the shell answers to a request. `outcome` is what starting a service
/// gave, where one was started.
pub open spec fn answered(
    d: Drawn,
    font: AaFont,
    r: Request,
    v: ServicesView,
    outcome: Result<usize, i64>,
) -> Drawn {
    match r {
        Request::Nothing => d,
        Request::Help => d.printed(
            font,
            "commands: help services ps restart <name>"@,
            rgb(SUBTLE),
        ),
        Request::List => listed(
            d.printed(font, "name    state  task rs ex last"@, rgb(SUBTLE)),
            font,
            v,
            SERVICE_COUNT as int,
        ),
        Request::Usage => d.printed(font, "usage: restart <name>"@, rgb(ORANGE)),
        Request::Unknown(word) => d.printed(
            font,
            text::text_of(two_parts("unknown command: "@, word)),
            rgb(ORANGE),
        ),
        Request::Restart(word) => match init_abi::place_named(word, 0) {
            None => d.printed(
                font,
                text::text_of(two_parts("unknown service: "@, word)),
                rgb(ORANGE),
            ),
            Some(i) => {
                let name = init_abi::service_name(i);
                if v.started[i] {
                    d.printed(font, already_line(name, v.tasks[i]), rgb(SUBTLE))
                } else {
                    match outcome {
                        Ok(task) => d.printed(font, started_line(name, task), rgb(GREEN)),
                        Err(code) => d.printed(font, failed_line(name, code), rgb(ORANGE)),
                    }
                }
            },
        },
    }
}

/// The line that was entered, on the console.
pub open spec fn echoed(d: Drawn, command: Seq<char>) -> Drawn {
    if trimmed(command).len() == 0 {
        d
    } else {
        Drawn { console: (d.console + "[shell] > "@ + trimmed(command)).push('\n'), ..d }
    }
}

fn say(screen: &mut Screen, font: &AaFont, line: &str, color: Color)
    requires
        old(screen).wf(*font),
        line@.len() <= 100,
    ensures
        final(screen).wf(*font),
        final(screen)@ == old(screen)@.printed(*font, line@, color),
{
    let mut chars: Vec<char> = Vec::new();
    text::push_str(&mut chars, line);
    assert(chars@ =~= line@);
    shell_print_line(screen, font, &chars, color);
}

fn list_services(screen: &mut Screen, font: &AaFont, s: &Services)
    requires
        old(screen).wf(*font),
        s.wf(),
    ensures
        final(screen).wf(*font),
        final(screen)@ == listed(old(screen)@, *font, s@, SERVICE_COUNT as int),
{
    let mut i: usize = 0;
    while i < init_abi::service_count()
        invariant
            i <= SERVICE_COUNT,
            s.wf(),
            screen.wf(*font),
            screen@ == listed(old(screen)@, *font, s@, i as int),
        decreases SERVICE_COUNT - i,
    {
        if let Some(service) = init_abi::service_record(i) {
            if let Some(status) = init_abi::service_status(s, service.id) {
                let line: Vec<char> = describe(service.name, status);
                shell_print_line(screen, font, &line, shell_service_line_color(status));
            }
        }
        i = i + 1;
    }
}

/// What running a command changes and answers.
pub open spec fn command_run(
    d0: Drawn,
    d1: Drawn,
    font: AaFont,
    command: Seq<char>,
    s0: ServicesView,
    s1: ServicesView,
    names0: Seq<&'static str>,
    names1: Seq<&'static str>,
    k0: Kernel,
    k1: Kernel,
    programs: Programs,
    code0: Seq<u64>,
    code1: Seq<u64>,
) -> bool {
    let r = request(trimmed(command));
    match to_start(r, s0) {
        None => {
            &&& d1 == answered(echoed(d0, command), font, r, s0, Err(0))
            &&& s1 == s0
            &&& names1 == names0
            &&& k1 == k0
            &&& code1 == code0
        },
        Some(i) => exists|outcome: Result<usize, i64>|
            {
                &&& d1 == answered(echoed(d0, command), font, r, s0, outcome)
                &&& #[trigger] init_abi::service_spawned(
                    s0,
                    s1,
                    names0,
                    names1,
                    k0,
                    k1,
                    programs,
                    (i + 1) as u64,
                    code0,
                    code1,
                    outcome,
                )
            },
    }
}

proof fn lemma_place_named(name: Seq<char>, from: int)
    requires
        0 <= from,
    ensures
        init_abi::place_named(name, from) matches Some(i) ==> from <= i < SERVICE_COUNT,
    decreases SERVICE_COUNT - from,
{
    if from < SERVICE_COUNT && init_abi::service_name(from) != name {
        lemma_place_named(name, from + 1);
    }
}

/// Starts a service by name, unless it is running, and says what came of it.
fn restart(
    screen: &mut Screen,
    font: &AaFont,
    s: &mut Services,
    names: &mut TaskNames,
    k: &mut Kernel,
    programs: &Programs,
    code: &mut Vec<u64>,
    name: &Vec<char>,
) -> (outcome: Result<usize, i64>)
    requires
        old(screen).wf(*font),
        old(s).wf(),
        old(names).wf(),
        old(k).wf(),
    ensures
        final(screen).wf(*font),
        final(s).wf(),
        final(names).wf(),
        final(k).wf(),
        final(screen)@ == answered(
            old(screen)@,
            *font,
            Request::Restart(name@),
            old(s)@,
            outcome,
        ),
        match to_start(Request::Restart(name@), old(s)@) {
            None => outcome == Err::<usize, i64>(0) && final(s)@ == old(s)@ && final(names)@
                == old(names)@ && *final(k) == *old(k) && final(code)@ == old(code)@,
            Some(i) => init_abi::service_spawned(
                old(s)@,
                final(s)@,
                old(names)@,
                final(names)@,
                *old(k),
                *final(k),
                *programs,
                (i + 1) as u64,
                old(code)@,
                final(code)@,
                outcome,
            ),
        },
{
    proof {
        lemma_place_named(name@, 0);
    }
    let service: ServiceRecord = match init_abi::find_service(name) {
        None => {
            let mut line: LineBuf<80> = LineBuf::new();
            line.push_str("unknown service: ");
            line.push_line(name);
            shell_print_line(screen, font, &line.as_str(), rgb(ORANGE));
            return Err(0);
        },
        Some(service) => service,
    };
    let ghost i = init_abi::place_named(name@, 0).unwrap();
    assert(service.id == i + 1);
    if let Some(status) = init_abi::service_status(s, service.id) {
        proof {
            assert(SERVICE_STATE_RUNNING & SERVICE_STATE_RUNNING != 0) by (bit_vector);
            assert(0u64 & SERVICE_STATE_RUNNING == 0) by (bit_vector);
        }
        if status.state & SERVICE_STATE_RUNNING != 0 {
            let mut line: LineBuf<80> = LineBuf::new();
            line.push_str(service.name);
            line.push_str(" already running");
            if status.task_id > 0 {
                line.push_str(" (task ");
                line.push_u64(status.task_id);
                line.push_byte(0x29);
            }
            shell_print_line(screen, font, &line.as_str(), rgb(SUBTLE));
            return Err(0);
        }
    }
    let outcome: Result<usize, i64> = init_abi::spawn_service(
        s,
        names,
        k,
        programs,
        code,
        service.id,
    );
    let mut line: LineBuf<80> = LineBuf::new();
    match outcome {
        Ok(task_id) => {
            line.push_str("started ");
            line.push_str(service.name);
            line.push_str(" task ");
            line.push_u64(task_id as u64);
            shell_print_line(screen, font, &line.as_str(), rgb(GREEN));
        },
        Err(code) => {
            line.push_str("restart failed ");
            line.push_str(service.name);
            line.push_str(" code ");
            if code < 0 {
                line.push_byte(0x2D);
                line.push_u64((-code) as u64);
            } else {
                line.push_u64(code as u64);
            }
            shell_print_line(screen, font, &line.as_str(), rgb(ORANGE));
        },
    }
    outcome
}

/// Runs the line that was entered, and says what came of it.
pub fn shell_run_command(
    screen: &mut Screen,
    font: &AaFont,
    s: &mut Services,
    names: &mut TaskNames,
    k: &mut Kernel,
    programs: &Programs,
    code: &mut Vec<u64>,
    command: &Vec<char>,
)
    requires
        old(screen).wf(*font),
        old(s).wf(),
        old(names).wf(),
        old(k).wf(),
    ensures
        final(screen).wf(*font),
        final(s).wf(),
        final(names).wf(),
        final(k).wf(),
        command_run(
            old(screen)@,
            final(screen)@,
            *font,
            command@,
            old(s)@,
            final(s)@,
            old(names)@,
            final(names)@,
            *old(k),
            *final(k),
            *programs,
            old(code)@,
            final(code)@,
        ),
{
    let shown: Vec<char> = trim(command);
    if shown.len() == 0 {
        assert(shown@ =~= Seq::<char>::empty());
        return ;
    }
    text::push_str(&mut screen.console, "[shell] > ");
    text::push_all(&mut screen.console, &shown);
    screen.console.push('\n');
    assert(screen@ == echoed(old(screen)@, command@));
    match parse_command(&shown) {
        Command::Nothing => {},
        Command::Help => {
            proof {
                reveal_strlit("commands: help services ps restart <name>");
            }
            say(screen, font, "commands: help services ps restart <name>", rgb(SUBTLE));
        },
        Command::List => {
            proof {
                reveal_strlit("name    state  task rs ex last");
            }
            say(screen, font, "name    state  task rs ex last", rgb(SUBTLE));
            list_services(screen, font, s);
        },
        Command::Usage => {
            proof {
                reveal_strlit("usage: restart <name>");
            }
            say(screen, font, "usage: restart <name>", rgb(ORANGE));
        },
        Command::Restart(name) => {
            let outcome: Result<usize, i64> = restart(
                screen,
                font,
                s,
                names,
                k,
                programs,
                code,
                &name,
            );
        },
        Command::Unknown(word) => {
            let mut line: LineBuf<80> = LineBuf::new();
            line.push_str("unknown command: ");
            line.push_line(&word);
            shell_print_line(screen, font, &line.as_str(), rgb(ORANGE));
        },
    }
}

/// The part that changed, or all of the surface where no part is known.
pub open spec fn damage_rect(damage: Option<Rect>) -> DamageRect {
    match damage {
        Some(r) => DamageRect { x: r.x as u32, y: r.y as u32, w: r.w as u32, h: r.h as u32 },
        None => DamageRect { x: 0, y: 0, w: SURF_W as u32, h: SURF_H as u32 },
    }
}

/// The measurements once the shell has answered input from `input_ns`.
pub open spec fn marked(m: MetricsView, input_ns: u64, damage: Option<Rect>) -> MetricsView {
    if input_ns == 0 {
        m
    } else {
        (MetricsView { shell_input: input_ns, ..m }).damaged(0, damage_rect(damage)).committed(0)
    }
}

/// Only the measurements changed, and they know of the damage.
pub open spec fn kernel_marked(k0: Kernel, k1: Kernel, input_ns: u64, damage: Option<Rect>) -> bool {
    &&& k1.same_tables(k0)
    &&& k1.mem == k0.mem
    &&& k1.ipc == k0.ipc
    &&& k1.sched == k0.sched
    &&& k1.metrics@ == marked(k0.metrics@, input_ns, damage)
}

fn mark(k: &mut Kernel, input_ns: u64, damage: Option<Rect>)
    requires
        old(k).wf(),
    ensures
        final(k).wf(),
        kernel_marked(*old(k), *final(k), input_ns, damage),
{
    match damage {
        Some(r) => metrics::mark_shell_surface_damage(
            &mut k.metrics,
            input_ns,
            r.x as u32,
            r.y as u32,
            r.w as u32,
            r.h as u32,
        ),
        None => metrics::mark_shell_surface_damage(
            &mut k.metrics,
            input_ns,
            0,
            0,
            SURF_W as u32,
            SURF_H as u32,
        ),
    }
}

/// The shell: its screen, the line being typed, and where the next character
/// goes.
pub struct Shell {
    pub screen: Screen,
    pub command: Vec<char>,
    pub cx: usize,
}

/// The empty shell: a header and a prompt.
pub open spec fn opened(p: Picture, font: AaFont) -> Drawn {
    Drawn {
        pic: p.rect(0, 0, p.width, p.height, rgb(SHELL_BG)).rect(
            0,
            0,
            SURF_W as int,
            38,
            rgb(HEADER_BG),
        ).text(font, 14, 10, "~  shell"@, rgb(GREEN), rgb(HEADER_BG)).rect(
            0,
            38,
            SURF_W as int,
            1,
            rgb(SEP),
        ),
        cy: START_Y as int,
        damage: None,
        console: Seq::empty(),
    }.prompted(font)
}

pub open spec fn prompt_x(font: AaFont) -> int {
    LEFT + 2 * font.width
}

/// A character drawn where the next one goes.
pub open spec fn typed(d: Drawn, font: AaFont, cx: int, c: char) -> Drawn {
    let drawn = Drawn {
        pic: d.pic.text(font, cx, d.cy, seq![c], rgb(GREEN), rgb(SHELL_BG)),
        ..d
    };
    let moved = if cx + 2 * font.width >= SURF_W {
        drawn.advanced(font)
    } else {
        drawn
    };
    moved.spoiled(moved.pic, cx, d.cy, font.width as int, font.height as int)
}

/// The last character of the line taken back.
pub open spec fn erased(d: Drawn, font: AaFont, cx: int) -> Drawn {
    let (x, w, h) = (cx - font.width, font.width as int, font.height as int);
    d.spoiled(d.pic.rect(x, d.cy, w, h, rgb(SHELL_BG)), x, d.cy, w, h)
}

impl Shell {
    pub open spec fn wf(&self, font: AaFont) -> bool {
        &&& self.screen.wf(font)
        &&& self.command@.len() <= MAX_COMMAND
        &&& LEFT <= self.cx
        &&& self.cx + font.width < SURF_W
    }

    /// The same but for the damage, which belongs to one message.
    pub open spec fn same_as(&self, o: Shell) -> bool {
        &&& self.screen.surf == o.screen.surf
        &&& self.screen.cy == o.screen.cy
        &&& self.screen.console == o.screen.console
        &&& self.command@ == o.command@
        &&& self.cx == o.cx
    }

    /// Draws the empty shell.
    pub fn new(surf: Framebuffer, font: &AaFont, m: &mut Metrics) -> (s: Shell)
        requires
            surf.wf(),
            font.wf(),
            old(m).wf(),
        ensures
            s.wf(*font),
            s.screen@ == opened(surf@, *font),
            s.command@ == Seq::<char>::empty(),
            s.cx == prompt_x(*font),
            final(m).wf(),
            final(m)@ == old(m)@.damaged(0, damage_rect(opened(surf@, *font).damage)).committed(0),
    {
        proof {
            reveal_strlit("~  shell");
        }
        let mut surf: Framebuffer = surf;
        surf.clear(rgb(SHELL_BG));
        surf.draw_rect(0, 0, SURF_W, 38, rgb(HEADER_BG));
        put(&mut surf, font, 14, 10, "~  shell", rgb(GREEN), rgb(HEADER_BG));
        surf.draw_rect(0, 38, SURF_W, 1, rgb(SEP));
        let mut screen: Screen = Screen { surf, cy: START_Y, damage: None, console: Vec::new() };
        assert(screen.console@ =~= Seq::<char>::empty());
        let cx: usize = shell_draw_prompt(&mut screen, font);
        if let Some(r) = screen.damage {
            metrics::mark_surface_damage(m, 0, r.x as u32, r.y as u32, r.w as u32, r.h as u32);
        }
        Shell { screen, command: Vec::new(), cx }
    }
}

/// The shell and the kernel after a line was entered.
pub open spec fn entered(
    sh0: Shell,
    sh1: Shell,
    font: AaFont,
    s0: ServicesView,
    s1: ServicesView,
    names0: Seq<&'static str>,
    names1: Seq<&'static str>,
    k0: Kernel,
    k1: Kernel,
    programs: Programs,
    code0: Seq<u64>,
    code1: Seq<u64>,
    input_ns: u64,
) -> bool {
    exists|d: Drawn, ka: Kernel|
        {
            &&& #[trigger] command_run(
                sh0.screen@.unspoiled().advanced(font),
                d,
                font,
                sh0.command@,
                s0,
                s1,
                names0,
                names1,
                k0,
                ka,
                programs,
                code0,
                code1,
            )
            &&& sh1.screen@ == d.prompted(font)
            &&& sh1.cx == prompt_x(font)
            &&& sh1.command@ == Seq::<char>::empty()
            &&& kernel_marked(ka, k1, input_ns, sh1.screen@.damage)
        }
}

/// One message of the shell's keyboard channel. Enter runs the line, backspace
/// takes back its last character, and a printable character is added to it as
/// long as there is room.
pub fn shell_el1(
    sh: &mut Shell,
    font: &AaFont,
    s: &mut Services,
    names: &mut TaskNames,
    k: &mut Kernel,
    programs: &Programs,
    code: &mut Vec<u64>,
    msg: &Message,
)
    requires
        old(sh).wf(*font),
        old(s).wf(),
        old(names).wf(),
        old(k).wf(),
    ensures
        final(sh).wf(*font),
        final(s).wf(),
        final(names).wf(),
        final(k).wf(),
        ({
            let ch = msg.payload[0] as u8;
            let input_ns = msg.payload[2];
            let d0 = old(sh).screen@.unspoiled();
            let cx = old(sh).cx as int;
            if msg.tag == tag::KEY_DOWN && ch == 0x0A {
                entered(
                    *old(sh),
                    *final(sh),
                    *font,
                    old(s)@,
                    final(s)@,
                    old(names)@,
                    final(names)@,
                    *old(k),
                    *final(k),
                    *programs,
                    old(code)@,
                    final(code)@,
                    input_ns,
                )
            } else {
                &&& final(s)@ == old(s)@
                &&& final(names)@ == old(names)@
                &&& final(code)@ == old(code)@
                &&& if msg.tag == tag::KEY_DOWN && (ch == 0x7F || ch == 0x08) && old(sh).command@.len() > 0 && cx > prompt_x(*font) {
                    &&& final(sh).screen@ == erased(d0, *font, cx)
                    &&& final(sh).cx == cx - font.width
                    &&& final(sh).command@ == old(sh).command@.drop_last()
                    &&& kernel_marked(*old(k), *final(k), input_ns, final(sh).screen@.damage)
                } else if msg.tag == tag::KEY_DOWN && 0x20 <= ch <= 0x7E && old(sh).command@.len()
                    < MAX_COMMAND {
                    &&& final(sh).screen@ == typed(d0, *font, cx, ch as char)
                    &&& final(sh).cx == if cx + 2 * font.width >= SURF_W {
                        LEFT as int
                    } else {
                        cx + font.width
                    }
                    &&& final(sh).command@ == old(sh).command@.push(ch as char)
                    &&& kernel_marked(*old(k), *final(k), input_ns, final(sh).screen@.damage)
                } else {
                    final(sh).same_as(*old(sh)) && *final(k) == *old(k)
                }
            }
        }),
{
    if msg.tag != tag::KEY_DOWN {
        return ;
    }
    let ch: u8 = msg.payload[0] as u8;
    let input_ns: u64 = msg.payload[2];
    sh.screen.damage = None;
    if ch == 0x0A {
        let ghost sh0 = *old(sh);
        shell_advance_line(&mut sh.screen, font);
        let mut command: Vec<char> = Vec::new();
        text::push_all(&mut command, &sh.command);
        assert(command@ =~= sh0.command@);
        shell_run_command(&mut sh.screen, font, s, names, k, programs, code, &command);
        let ghost d = sh.screen@;
        let ghost ka = *k;
        sh.cx = shell_draw_prompt(&mut sh.screen, font);
        sh.command = Vec::new();
        assert(sh.command@ =~= Seq::<char>::empty());
        mark(k, input_ns, sh.screen.damage);
        assert(command_run(
            sh0.screen@.unspoiled().advanced(*font),
            d,
            *font,
            sh0.command@,
            old(s)@,
            s@,
            old(names)@,
            names@,
            *old(k),
            ka,
            *programs,
            old(code)@,
            code@,
        ));
    } else if ch == 0x7F || ch == 0x08 {
        if sh.command.len() > 0 && sh.cx > LEFT + 2 * font.width {
            let _ = sh.command.pop();
            assert(sh.command@ =~= old(sh).command@.drop_last());
            sh.cx = sh.cx - font.width;
            let (cx, cy): (usize, usize) = (sh.cx, sh.screen.cy);
            sh.screen.surf.draw_rect(cx, cy, font.width, font.height, rgb(SHELL_BG));
            desktop::extend_damage(
                &mut sh.screen.damage,
                Rect { x: cx, y: cy, w: font.width, h: font.height },
            );
            mark(k, input_ns, sh.screen.damage);
        }
    } else if 0x20 <= ch && ch <= 0x7E {
        if sh.command.len() >= MAX_COMMAND {
            return ;
        }
        let (draw_x, draw_y): (usize, usize) = (sh.cx, sh.screen.cy);
        sh.screen.surf.draw_aa_char(
            font,
            draw_x,
            draw_y,
            ch as char,
            rgb(GREEN),
            rgb(SHELL_BG),
        );
        sh.command.push(ch as char);
        sh.cx = sh.cx + font.width;
        if sh.cx + font.width >= SURF_W {
            shell_advance_line(&mut sh.screen, font);
            sh.cx = LEFT;
        }
        desktop::extend_damage(
            &mut sh.screen.damage,
            Rect { x: draw_x, y: draw_y, w: font.width, h: font.height },
        );
        mark(k, input_ns, sh.screen.damage);
    }
}

/// Nothing but characters that stand between words.
pub open spec fn between_words(s: Seq<char>) -> bool {
    forall|i: int|
        0 <= i < s.len() ==> (#[trigger] s[i] == ' ' || s[i] == '\t' || s[i] == '\n' || s[i]
            == '\u{c}' || s[i] == '\r')
}

/// A word: at least one character, none of which stands between words.
pub open spec fn one_word(s: Seq<char>) -> bool {
    s.len() > 0 && forall|i: int|
        0 <= i < s.len() ==> #[trigger] s[i] != ' ' && s[i] != '\t' && s[i] != '\n' && s[i]
            != '\u{c}' && s[i] != '\r'
}

proof fn lemma_skip(s: Seq<char>, i: int, j: int)
    requires
        0 <= i <= j <= s.len(),
        forall|k: int| i <= k < j ==> is_space(#[trigger] s[k]),
        j < s.len() ==> !is_space(s[j]),
    ensures
        skip(s, i) == j,
    decreases j - i,
{
    if i < j {
        assert(is_space(s[i]));
        lemma_skip(s, i + 1, j);
    }
}

proof fn lemma_word_end(s: Seq<char>, i: int, j: int)
    requires
        0 <= i <= j <= s.len(),
        forall|k: int| i <= k < j ==> !is_space(#[trigger] s[k]),
        j < s.len() ==> is_space(s[j]),
    ensures
        word_end(s, i) == j,
    decreases j - i,
{
    if i < j {
        assert(!is_space(s[i]));
        lemma_word_end(s, i + 1, j);
    }
}

/// The word `w` is found behind what stands before it.
proof fn lemma_word_found(before: Seq<char>, a: Seq<char>, w: Seq<char>, after: Seq<char>)
    requires
        between_words(a),
        one_word(w),
        after.len() > 0 ==> is_space(after[0]),
    ensures
        ({
            let s = before + a + w + after;
            let i = before.len() as int;
            let j = i + a.len();
            &&& next_word(s, i) == Some((j, j + w.len()))
            &&& s.subrange(j, j + w.len()) == w
        }),
{
    let s = before + a + w + after;
    let i = before.len() as int;
    let j = i + a.len();
    let e = j + w.len();
    assert forall|k: int| i <= k < j implies is_space(#[trigger] s[k]) by {
        assert(s[k] == a[k - i]);
    }
    assert(s[j] == w[0]);
    lemma_skip(s, i, j);
    assert forall|k: int| j <= k < e implies !is_space(#[trigger] s[k]) by {
        assert(s[k] == w[k - j]);
    }
    if e < s.len() {
        assert(s[e] == after[0]);
    }
    lemma_word_end(s, j, e);
    assert(s.subrange(j, e) =~= w);
}

proof fn lemma_no_word(before: Seq<char>, a: Seq<char>)
    requires
        between_words(a),
    ensures
        next_word(before + a, before.len() as int) is None,
{
    let s = before + a;
    assert forall|k: int| before.len() <= k < s.len() implies is_space(#[trigger] s[k]) by {
        assert(s[k] == a[k - before.len()]);
    }
    lemma_skip(s, before.len() as int, s.len() as int);
}

/// A line of one word asks for help, for the services, or for nothing that is known.
/// An empty line asks for nothing.
pub proof fn law_one_word_requests(a: Seq<char>, w: Seq<char>, b: Seq<char>)
    requires
        between_words(a),
        one_word(w),
        between_words(b),
    ensures
        w == "help"@ ==> request(a + w + b) == Request::Help,
        w == "services"@ || w == "ps"@ ==> request(a + w + b) == Request::List,
        w == "restart"@ || w == "start"@ ==> request(a + w + b) == Request::Usage,
        w != "help"@ && w != "services"@ && w != "ps"@ && w != "restart"@ && w != "start"@
            ==> request(a + w + b) == Request::Unknown(w),
        request(a) == Request::Nothing,
{
    reveal_strlit("help");
    reveal_strlit("services");
    reveal_strlit("ps");
    reveal_strlit("restart");
    reveal_strlit("start");
    let none = Seq::<char>::empty();
    assert(none + a + w + b =~= a + w + b);
    assert(none + a =~= a);
    lemma_word_found(none, a, w, b);
    lemma_no_word(a + w, b);
    lemma_no_word(none, a);
}

/// `restart` or `start` and one more word asks for the service of that name,
/// however the words are spaced; with yet another word it shows how it is used.
pub proof fn law_restart_requests(
    a: Seq<char>,
    verb: Seq<char>,
    b: Seq<char>,
    name: Seq<char>,
    c: Seq<char>,
    more: Seq<char>,
    d: Seq<char>,
)
    requires
        verb == "restart"@ || verb == "start"@,
        between_words(a) && between_words(b) && between_words(c) && between_words(d),
        b.len() > 0,
        c.len() > 0,
        one_word(name),
        one_word(more),
    ensures
        request(a + verb + b + name) == Request::Restart(name),
        request(a + verb + b + name + c) == Request::Restart(name),
        request(a + verb + b + name + c + more + d) == Request::Usage,
{
    reveal_strlit("help");
    reveal_strlit("services");
    reveal_strlit("ps");
    reveal_strlit("restart");
    reveal_strlit("start");
    let none = Seq::<char>::empty();
    let s0 = a + verb + b + name;
    let s1 = s0 + c;
    let s2 = s1 + more + d;
    assert(b[0] == b[0] && is_space(b[0]));
    assert(is_space(c[0]));
    if d.len() > 0 {
        assert(is_space(d[0]));
    }
    assert(one_word(verb));
    lemma_word_found(none, a, verb, b + name);
    assert(none + a + verb + (b + name) =~= s0);
    lemma_word_found(a + verb, b, name, none);
    assert(a + verb + b + name + none =~= s0);
    lemma_no_word(s0, none);
    assert(s0 + none =~= s0);
    lemma_word_found(none, a, verb, b + name + c);
    assert(none + a + verb + (b + name + c) =~= s1);
    lemma_word_found(a + verb, b, name, c);
    lemma_no_word(s0, c);
    lemma_word_found(none, a, verb, b + name + c + more + d);
    assert(none + a + verb + (b + name + c + more + d) =~= s2);
    lemma_word_found(a + verb, b, name, c + more + d);
    assert(a + verb + b + name + (c + more + d) =~= s2);
    lemma_word_found(s0, c, more, d);
}

/// What is not looked at around a line: every character that Unicode calls white
/// space, and no other.
pub proof fn law_white(c: char)
    ensures
        is_white(c) <==> (c == ' ' || c == '\t' || c == '\n' || c == '\u{b}' || c == '\u{c}' || c
            == '\r' || c == '\u{85}' || c == '\u{a0}' || c == '\u{1680}' || ('\u{2000}' <= c && c
            <= '\u{200a}') || c == '\u{2028}' || c == '\u{2029}' || c == '\u{202f}' || c
            == '\u{205f}' || c == '\u{3000}'),
{
}

proof fn lemma_first_begin(s: Seq<char>, i: int, j: int)
    requires
        0 <= i <= j <= s.len(),
        forall|k: int| i <= k < j ==> is_white(#[trigger] s[k]),
        j < s.len() ==> !is_white(s[j]),
    ensures
        first_begin(s, i) == j,
    decreases j - i,
{
    if i < j {
        assert(is_white(s[i]));
        lemma_first_begin(s, i + 1, j);
    }
}

proof fn lemma_last_end(s: Seq<char>, n: int, j: int)
    requires
        0 <= j <= n <= s.len(),
        forall|k: int| j <= k < n ==> is_white(#[trigger] s[k]),
        j > 0 ==> !is_white(s[j - 1]),
    ensures
        last_end(s, n) == j,
    decreases n,
{
    if j < n {
        assert(is_white(s[n - 1]));
        lemma_last_end(s, n - 1, j);
    }
}

/// A line is trimmed to what stands between the white space around it, and to
/// nothing where it is all white space.
pub proof fn law_trimmed(a: Seq<char>, m: Seq<char>, b: Seq<char>)
    requires
        forall|i: int| 0 <= i < a.len() ==> is_white(#[trigger] a[i]),
        forall|i: int| 0 <= i < b.len() ==> is_white(#[trigger] b[i]),
        m.len() > 0 ==> !is_white(m[0]) && !is_white(m.last()),
    ensures
        trimmed(a + m + b) == m,
{
    let s = a + m + b;
    let (i, j) = (a.len() as int, (a.len() + m.len()) as int);
    assert forall|k: int| 0 <= k < i implies is_white(#[trigger] s[k]) by {
        assert(s[k] == a[k]);
    }
    assert forall|k: int| j <= k < s.len() implies is_white(#[trigger] s[k]) by {
        assert(s[k] == b[k - j]);
    }
    if m.len() > 0 {
        assert(s[i] == m[0]);
        assert(s[j - 1] == m.last());
        lemma_first_begin(s, 0, i);
        lemma_last_end(s, s.len() as int, j);
        assert(s.subrange(i, j) =~= m);
    } else {
        lemma_first_begin(s, 0, s.len() as int);
        assert(forall|k: int| 0 <= k < s.len() ==> is_white(#[trigger] s[k]));
        lemma_last_end(s, s.len() as int, 0);
        assert(m =~= Seq::<char>::empty());
    }
}

/// What the list says of a service: it runs; or else its last exit was a fault; or
/// it ended cleanly; or it never ran. A fault stands out.
pub proof fn law_service_labels(s: ServiceStatus)
    ensures
        s.state & 1 == 1 ==> state_label(s) == "run"@ && line_color(s) == rgb(TEXT),
        s.state & 1 == 0 && s.last_exit_reason == 2 ==> state_label(s) == "fault"@ && line_color(s)
            == (Color { r: 0xFF, g: 0xA6, b: 0x58 }),
        s.state & 1 == 0 && s.last_exit_reason == 1 ==> state_label(s) == "down"@,
        s.state & 1 == 0 && s.last_exit_reason != 1 && s.last_exit_reason != 2 ==> state_label(s)
            == "idle"@,
        s.state & 1 == 0 && s.last_exit_reason != 2 ==> line_color(s) == rgb(SUBTLE),
        s.last_exit_reason == 1 ==> exit_label(s.last_exit_reason) == "clean"@,
        s.last_exit_reason == 2 ==> exit_label(s.last_exit_reason) == "fault"@,
        s.last_exit_reason != 1 && s.last_exit_reason != 2 ==> exit_label(s.last_exit_reason)
            == "-"@,
{
    let x: u64 = s.state;
    assert(x & 1 == 0 || x & 1 == 1) by (bit_vector);
}

proof fn lemma_ascii(s: Seq<char>)
    requires
        vstd::utf8::is_ascii_chars(s),
    ensures
        encode_utf8(s).len() == s.len(),
        forall|i: int| 0 <= i < s.len() ==> #[trigger] encode_utf8(s)[i] == s[i] as u8,
{
    vstd::utf8::is_ascii_chars_encode_utf8(s);
}

proof fn lemma_digits(n: u64)
    ensures
        digits(n as int).len() == text::decimal(n as nat).len(),
        1 <= digits(n as int).len() <= 20,
{
    text::law_decimal(n as nat);
    text::lemma_u64_digits(n);
    lemma_ascii(text::decimal(n as nat));
}

/// Texts that fit on a line stand on it one after the other.
proof fn lemma_parts(a: Seq<char>, b: Seq<char>, c: Seq<char>, d: Seq<char>)
    ensures
        encode_utf8(a) + encode_utf8(b) + encode_utf8(c) + encode_utf8(d) == encode_utf8(
            a + b + c + d,
        ),
        text::text_of(encode_utf8(a + b + c + d)) == a + b + c + d,
        text::text_of(encode_utf8(a + b)) == a + b,
        encode_utf8(a) + encode_utf8(b) == encode_utf8(a + b),
{
    text::lemma_encode_concat(a, b);
    text::lemma_encode_concat(a + b, c);
    text::lemma_encode_concat(a + b + c, d);
    text::law_text_of(a + b + c + d, Seq::empty());
    text::law_text_of(a + b, Seq::empty());
}

/// The lines that tell what became of a restart name the service and its task, or
/// the code of the failure.
pub proof fn law_restart_lines(name: Seq<char>, task: u64, code: i64)
    requires
        encode_utf8(name).len() <= 18,
        0 < task,
        code > i64::MIN,
    ensures
        already_line(name, 0) == name + " already running"@,
        already_line(name, task) == name + " already running (task "@ + text::decimal(task as nat)
            + ")"@,
        started_line(name, task as usize) == "started "@ + name + " task "@ + text::decimal(
            task as usize as nat,
        ),
        code >= 0 ==> failed_line(name, code) == "restart failed "@ + name + " code "@
            + text::decimal(code as nat),
        code < 0 ==> failed_line(name, code) == "restart failed "@ + name + " code -"@
            + text::decimal((-code) as nat),
{
    reveal_strlit(" already running");
    reveal_strlit(" already running (task ");
    reveal_strlit(" (task ");
    reveal_strlit(")");
    reveal_strlit("started ");
    reveal_strlit(" task ");
    reveal_strlit("restart failed ");
    reveal_strlit(" code ");
    reveal_strlit(" code -");
    reveal_strlit("-");
    lemma_ascii(" already running"@);
    lemma_ascii(" already running (task "@);
    lemma_ascii(" (task "@);
    lemma_ascii(")"@);
    lemma_ascii("started "@);
    lemma_ascii(" task "@);
    lemma_ascii("restart failed "@);
    lemma_ascii(" code "@);
    lemma_ascii("-"@);
    let none = Seq::<u8>::empty();
    // already running
    lemma_digits(task);
    let t = text::decimal(task as nat);
    assert(none + encode_utf8(name) =~= encode_utf8(name));
    lemma_parts(name, " already running"@, " (task "@, t);
    let l = two_parts(name, " already running"@);
    assert(l == encode_utf8(name) + encode_utf8(" already running"@));
    let m = l + encode_utf8(" (task "@) + encode_utf8(t);
    let whole = name + " already running"@ + " (task "@ + t;
    assert(m == encode_utf8(whole));
    text::lemma_encode_concat(whole, ")"@);
    assert(m.push(0x29) =~= m + encode_utf8(")"@));
    text::law_text_of(whole + ")"@, none);
    assert(" already running"@ + " (task "@ =~= " already running (task "@);
    assert(whole + ")"@ =~= name + " already running (task "@ + t + ")"@);
    // started
    let u = task as usize as u64;
    lemma_digits(u);
    let tu = text::decimal(u as nat);
    lemma_parts("started "@, name, " task "@, tu);
    assert(none + encode_utf8("started "@) =~= encode_utf8("started "@));
    // failed
    assert(none + encode_utf8("restart failed "@) =~= encode_utf8("restart failed "@));
    if code >= 0 {
        lemma_digits(code as u64);
        lemma_parts("restart failed "@, name, " code "@, text::decimal(code as nat));
    } else {
        let n = (-code) as u64;
        lemma_digits(n);
        let tn = text::decimal(n as nat);
        lemma_parts("restart failed "@, name, " code "@, "-"@);
        let front = "restart failed "@ + name + " code "@ + "-"@;
        let f = encode_utf8("restart failed "@) + encode_utf8(name) + encode_utf8(" code "@);
        assert(f.push(0x2D) =~= f + encode_utf8("-"@));
        text::lemma_encode_concat(front, tn);
        text::law_text_of(front + tn, none);
        assert(" code "@ + "-"@ =~= " code -"@);
        assert(front =~= "restart failed "@ + name + " code -"@);
    }
}

/// A line of output that fits is read on the screen where the shell stands, in its
/// colour, and on the console behind the shell's mark; the next line comes below it.
pub proof fn law_printed(d: Drawn, font: AaFont, line: Seq<char>, color: Color)
    requires
        font.wf(),
        dashboard::whole(d.pic),
        encode_utf8(line).len() <= 602int / (font.width as int),
        d.cy + 2 * (font.height + 3) < 400,
    ensures
        ({
            let e = d.printed(font, line, color);
            &&& e.console == d.console + "[shell] "@ + line + "\n"@
            &&& e.cy == d.cy + font.height + 3
            &&& dashboard::shows(
                e.pic,
                font,
                14,
                d.cy,
                font.height as int,
                line,
                color,
                Color { r: 0x0A, g: 0x0E, b: 0x14 },
            )
        }),
{
    reveal_strlit("\n");
    text::law_fitting(line, max_cols(font));
    let bg = rgb(SHELL_BG);
    let p = d.pic.rect(14, d.cy, 606, font.height as int, bg);
    framebuffer::law_painting_keeps_the_form(
        d.pic,
        framebuffer::rect_shape(14, d.cy, 606, font.height as int, d.pic.pixel(bg)),
    );
    dashboard::lemma_text_shows(p, font, 14, d.cy, line, color, bg);
    assert(text::fitting(line, max_cols(font)) == line);
    assert((d.console + "[shell] "@ + line).push('\n') =~= d.console + "[shell] "@ + line + "\n"@);
}

/// The last line of the screen is followed by the first of an empty one.
pub proof fn law_screen_wraps(d: Drawn, font: AaFont)
    ensures
        d.cy + 2 * (font.height + 3) < 400 ==> d.advanced(font).cy == d.cy + font.height + 3
            && d.advanced(font).pic == d.pic,
        d.cy + 2 * (font.height + 3) >= 400 ==> d.advanced(font).cy == 48 && d.advanced(font).pic
            == d.pic.rect(14, 48, 606, 352, Color { r: 0x0A, g: 0x0E, b: 0x14 }),
        d.advanced(font).console == d.console,
{
}

proof fn lemma_console(d: Drawn, font: AaFont, line: Seq<char>, color: Color)
    requires
        font.wf(),
        encode_utf8(line).len() <= 602int / (font.width as int),
    ensures
        d.printed(font, line, color).console == d.console + "[shell] "@ + line + "\n"@,
{
    reveal_strlit("\n");
    text::law_fitting(line, max_cols(font));
    assert(text::fitting(line, max_cols(font)) == line);
    assert((d.console + "[shell] "@ + line).push('\n') =~= d.console + "[shell] "@ + line + "\n"@);
}

/// A request for help, and one that is misspelled, are answered on the console
/// behind the shell's mark; an empty line is not answered.
#[verifier::spinoff_prover]
pub proof fn law_fixed_answers(d: Drawn, font: AaFont, v: ServicesView, outcome: Result<usize, i64>)
    requires
        font.wf(),
        50 <= 602int / (font.width as int),
    ensures
        answered(d, font, Request::Nothing, v, outcome) == d,
        answered(d, font, Request::Help, v, outcome).console == d.console + "[shell] "@
            + "commands: help services ps restart <name>"@ + "\n"@,
        answered(d, font, Request::Usage, v, outcome).console == d.console + "[shell] "@
            + "usage: restart <name>"@ + "\n"@,
{
    lemma_fixed_lengths();
    lemma_console(d, font, "commands: help services ps restart <name>"@, rgb(SUBTLE));
    lemma_console(d, font, "usage: restart <name>"@, rgb(ORANGE));
}

proof fn lemma_fixed_lengths()
    ensures
        encode_utf8("commands: help services ps restart <name>"@).len() == 41,
        encode_utf8("usage: restart <name>"@).len() == 21,
{
    reveal_strlit("commands: help services ps restart <name>");
    reveal_strlit("usage: restart <name>");
    lemma_ascii("commands: help services ps restart <name>"@);
    lemma_ascii("usage: restart <name>"@);
}

/// A word that is no command, and a name that is no service, are named in the
/// answer.
#[verifier::spinoff_prover]
pub proof fn law_unknown_answers(
    d: Drawn,
    font: AaFont,
    v: ServicesView,
    outcome: Result<usize, i64>,
    word: Seq<char>,
)
    requires
        font.wf(),
        encode_utf8(word).len() + 17 <= 602int / (font.width as int),
        encode_utf8(word).len() <= 63,
    ensures
        answered(d, font, Request::Unknown(word), v, outcome).console == d.console + "[shell] "@ + (
        "unknown command: "@ + word) + "\n"@,
        init_abi::place_named(word, 0) is None ==> answered(
            d,
            font,
            Request::Restart(word),
            v,
            outcome,
        ).console == d.console + "[shell] "@ + ("unknown service: "@ + word) + "\n"@,
{
    lemma_unknown_labels();
    lemma_unknown("unknown command: "@, word);
    lemma_unknown("unknown service: "@, word);
    lemma_console(d, font, "unknown command: "@ + word, rgb(ORANGE));
    lemma_console(d, font, "unknown service: "@ + word, rgb(ORANGE));
}

proof fn lemma_unknown_labels()
    ensures
        "unknown command: "@.len() == 17,
        vstd::utf8::is_ascii_chars("unknown command: "@),
        "unknown service: "@.len() == 17,
        vstd::utf8::is_ascii_chars("unknown service: "@),
{
    reveal_strlit("unknown command: ");
    reveal_strlit("unknown service: ");
}

proof fn lemma_unknown(label: Seq<char>, word: Seq<char>)
    requires
        label.len() == 17,
        vstd::utf8::is_ascii_chars(label),
        encode_utf8(word).len() <= 63,
    ensures
        text::text_of(two_parts(label, word)) == label + word,
        encode_utf8(label + word).len() == 17 + encode_utf8(word).len(),
{
    lemma_ascii(label);
    assert(Seq::<u8>::empty() + encode_utf8(label) =~= encode_utf8(label));
    text::lemma_encode_concat(label, word);
    text::law_text_of(label + word, Seq::empty());
}

/// A restart starts the service of that name where it does not run, and nothing
/// else starts anything. Where it runs, the answer says so.
pub proof fn law_restart_starts_what_is_down(
    d: Drawn,
    font: AaFont,
    v: ServicesView,
    i: int,
    outcome: Result<usize, i64>,
)
    requires
        0 <= i < 15,
        v.started.len() == 15,
        init_abi::place_named(init_abi::service_name(i), 0) == Some(i),
    ensures
        ({
            let r = Request::Restart(init_abi::service_name(i));
            let name = init_abi::service_name(i);
            &&& !v.started[i] ==> to_start(r, v) == Some(i)
            &&& v.started[i] ==> to_start(r, v) is None
            &&& v.started[i] ==> answered(d, font, r, v, outcome) == d.printed(
                font,
                already_line(name, v.tasks[i]),
                rgb(SUBTLE),
            )
            &&& !v.started[i] && outcome is Ok ==> answered(d, font, r, v, outcome) == d.printed(
                font,
                started_line(name, outcome->Ok_0),
                rgb(GREEN),
            )
            &&& !v.started[i] && outcome is Err ==> answered(d, font, r, v, outcome) == d.printed(
                font,
                failed_line(name, outcome->Err_0),
                rgb(ORANGE),
            )
        }),
        to_start(Request::Help, v) is None,
        to_start(Request::List, v) is None,
        to_start(Request::Usage, v) is None,
        to_start(Request::Nothing, v) is None,
        to_start(Request::Unknown(init_abi::service_name(i)), v) is None,
{
}

/// A character that is typed is read where the cursor stood, and one that is taken
/// back leaves nothing there.
pub proof fn law_typing(d: Drawn, font: AaFont, cx: int, c: char, px: int, py: int)
    requires
        font.wf(),
        dashboard::whole(d.pic),
        font.width <= cx,
        cx + 2 * font.width < 620,
        d.pic.visible(px, py),
        cx - font.width <= px < cx,
        d.cy <= py < d.cy + font.height,
    ensures
        dashboard::shows(
            typed(d, font, cx, c).pic,
            font,
            cx,
            d.cy,
            font.height as int,
            seq![c],
            rgb(GREEN),
            rgb(SHELL_BG),
        ),
        typed(d, font, cx, c).cy == d.cy,
        erased(d, font, cx).pic.color(px, py) == (Color { r: 0x0A, g: 0x0E, b: 0x14 }),
        erased(d, font, cx).cy == d.cy,
{
    dashboard::lemma_text_shows(d.pic, font, cx, d.cy, seq![c], rgb(GREEN), rgb(SHELL_BG));
    framebuffer::law_rect(
        d.pic,
        cx - font.width,
        d.cy,
        font.width as int,
        font.height as int,
        rgb(SHELL_BG),
        px,
        py,
    );
}

/// What answers input is dated with that input and counted as one commit of the
/// shell's surface; without input nothing is recorded.
pub proof fn law_answer_is_dated(m: MetricsView, input_ns: u64, r: Rect)
    requires
        m.surfaces.len() == 4,
        m.surfaces[0].seq < u64::MAX,
        m.surfaces[0].damage.w == 0,
        0 < r.w && 0 < r.h,
        r.x <= 620 && r.y <= 400 && r.w <= 620 && r.h <= 400,
    ensures
        marked(m, 0, Some(r)) == m,
        input_ns > 0 ==> ({
            let n = marked(m, input_ns, Some(r));
            &&& n.shell_input == input_ns
            &&& n.surfaces[0].seq == m.surfaces[0].seq + 1
            &&& n.surfaces[0].damage == (DamageRect {
                x: r.x as u32,
                y: r.y as u32,
                w: r.w as u32,
                h: r.h as u32,
            })
            &&& n.samples == m.samples
        }),
        input_ns > 0 ==> marked(m, input_ns, None).surfaces[0].damage == (DamageRect {
            x: 0,
            y: 0,
            w: 620,
            h: 400,
        }),
{
}

/// One more column.
proof fn lemma_column(cur: Seq<char>, width: int, part: Seq<char>)
    requires
        cur.len() <= width,
        width + part.len() <= 80,
        vstd::utf8::is_ascii_chars(cur),
        vstd::utf8::is_ascii_chars(part),
    ensures
        clipped(padded(encode_utf8(cur), width) + encode_utf8(part), 80) == encode_utf8(
            column(cur, width) + part,
        ),
        vstd::utf8::is_ascii_chars(column(cur, width) + part),
        (column(cur, width) + part).len() == width + part.len(),
{
    let t = column(cur, width);
    lemma_ascii(cur);
    lemma_ascii(part);
    assert(vstd::utf8::is_ascii_chars(t));
    lemma_ascii(t);
    assert(padded(encode_utf8(cur), width) =~= encode_utf8(t));
    text::lemma_encode_concat(t, part);
}

proof fn lemma_columns(
    name: Seq<char>,
    a: Seq<char>,
    b: Seq<char>,
    c: Seq<char>,
    d: Seq<char>,
    e: Seq<char>,
)
    requires
        name.len() <= 8,
        a.len() <= 7,
        b.len() <= 5,
        c.len() <= 3,
        d.len() <= 3,
    ensures
        column(column(column(column(column(name, 8) + a, 15) + b, 20) + c, 23) + d, 26) + e
            == column(name, 8) + column(a, 7) + column(b, 5) + column(c, 3) + column(d, 3) + e,
{
    let x1 = column(name, 8) + a;
    assert(column(x1, 15) =~= column(name, 8) + column(a, 7));
    let x2 = column(x1, 15) + b;
    assert(column(x2, 20) =~= column(x1, 15) + column(b, 5));
    let x3 = column(x2, 20) + c;
    assert(column(x3, 23) =~= column(x2, 20) + column(c, 3));
    let x4 = column(x3, 23) + d;
    assert(column(x4, 26) =~= column(x3, 23) + column(d, 3));
}

/// That many spaces.
pub open spec fn spaces(n: int) -> Seq<char> {
    Seq::new(n as nat, |i: int| ' ')
}

/// `s`, and spaces up to the column `width`.
pub open spec fn column(s: Seq<char>, width: int) -> Seq<char> {
    s + spaces(width - s.len())
}

/// A service is described in columns: its name, its state, its task or a dash, how
/// often it was restarted, how often it exited, and how it exited last.
pub proof fn law_service_line(name: Seq<char>, s: ServiceStatus)
    requires
        name.len() <= 8,
        forall|i: int| 0 <= i < name.len() ==> '\0' <= #[trigger] name[i] <= '\u{7f}',
        text::decimal(s.task_id as nat).len() <= 5,
        text::decimal(s.restart_count as nat).len() <= 3,
        text::decimal(s.exit_count as nat).len() <= 3,
    ensures
        service_line(name, s) == column(name, 8) + column(state_label(s), 7) + column(
            if s.task_id == 0 {
                "-"@
            } else {
                text::decimal(s.task_id as nat)
            },
            5,
        ) + column(text::decimal(s.restart_count as nat), 3) + column(
            text::decimal(s.exit_count as nat),
            3,
        ) + exit_label(s.last_exit_reason),
{
    let st = state_label(s);
    let last = exit_label(s.last_exit_reason);
    assert(st.len() <= 7 && last.len() <= 5 && vstd::utf8::is_ascii_chars(st)
        && vstd::utf8::is_ascii_chars(last)) by {
        reveal_strlit("run");
        reveal_strlit("fault");
        reveal_strlit("down");
        reveal_strlit("idle");
        reveal_strlit("clean");
        reveal_strlit("-");
    }
    let task = if s.task_id == 0 {
        "-"@
    } else {
        text::decimal(s.task_id as nat)
    };
    let rs = text::decimal(s.restart_count as nat);
    let ex = text::decimal(s.exit_count as nat);
    text::law_decimal(s.task_id as nat);
    text::law_decimal(s.restart_count as nat);
    text::law_decimal(s.exit_count as nat);
    assert("-"@.len() == 1 && "-"@[0] == '-') by {
        reveal_strlit("-");
    }
    lemma_ascii("-"@);
    let c1 = column(name, 8) + st;
    let c2 = column(c1, 15) + task;
    let c3 = column(c2, 20) + rs;
    let c4 = column(c3, 23) + ex;
    let c5 = column(c4, 26) + last;
    assert(Seq::<u8>::empty() + encode_utf8(name) =~= encode_utf8(name));
    lemma_ascii(name);
    lemma_column(name, 8, st);
    lemma_column(c1, 15, task);
    assert(s.task_id == 0 ==> padded(encode_utf8(c1), 15).push(0x2D) =~= padded(encode_utf8(c1), 15)
        + encode_utf8("-"@));
    lemma_column(c2, 20, rs);
    lemma_column(c3, 23, ex);
    lemma_column(c4, 26, last);
    text::law_text_of(c5, Seq::empty());
    assert(service_line(name, s) == c5);
    lemma_columns(name, st, task, rs, ex, last);
}

/// The list has a heading and then each of the fifteen services in turn, as it
/// stands.
pub proof fn law_list(d: Drawn, font: AaFont, v: ServicesView, outcome: Result<usize, i64>, n: int)
    requires
        font.wf(),
        80 <= 602int / (font.width as int),
        0 <= n < 15,
    ensures
        ({
            let head = d.printed(font, "name    state  task rs ex last"@, rgb(SUBTLE));
            let s = ServiceStatus {
                task_id: v.tasks[n],
                restart_count: v.restarts[n],
                exit_count: v.exits[n],
                last_exit_reason: v.last_exits[n],
                state: if v.started[n] {
                    1
                } else {
                    0
                },
            };
            &&& answered(d, font, Request::List, v, outcome) == listed(head, font, v, 15)
            &&& listed(d, font, v, 0) == d
            &&& listed(d, font, v, n + 1) == listed(d, font, v, n).printed(
                font,
                service_line(init_abi::service_name(n), s),
                line_color(s),
            )
        }),
{
}

/// The line that was entered is on the console, without the white space around it,
/// unless it is empty.
pub proof fn law_echo(d: Drawn, command: Seq<char>)
    ensures
        trimmed(command).len() > 0 ==> echoed(d, command).console == d.console + "[shell] > "@
            + trimmed(command) + "\n"@,
        trimmed(command).len() == 0 ==> echoed(d, command) == d,
        echoed(d, command).pic == d.pic,
        echoed(d, command).cy == d.cy,
{
    reveal_strlit("\n");
    assert((d.console + "[shell] > "@ + trimmed(command)).push('\n') =~= d.console + "[shell] > "@
        + trimmed(command) + "\n"@);
}

/// A line that does not restart a service changes no service and nothing of the
/// kernel; one that restarts a service that is down starts exactly that one, and what
/// came of it is the answer.
pub proof fn law_command(
    d0: Drawn,
    d1: Drawn,
    font: AaFont,
    command: Seq<char>,
    s0: ServicesView,
    s1: ServicesView,
    names0: Seq<&'static str>,
    names1: Seq<&'static str>,
    k0: Kernel,
    k1: Kernel,
    programs: Programs,
    code0: Seq<u64>,
    code1: Seq<u64>,
    i: int,
)
    requires
        command_run(d0, d1, font, command, s0, s1, names0, names1, k0, k1, programs, code0, code1),
        0 <= i < 15,
        s0.started.len() == 15,
    ensures
        !(request(trimmed(command)) is Restart) ==> s1 == s0 && k1 == k0 && names1 == names0,
        request(trimmed(command)) == Request::Restart(init_abi::service_name(i)) && s0.started[i]
            ==> s1 == s0 && k1 == k0 && names1 == names0,
        request(trimmed(command)) == Request::Restart(init_abi::service_name(i)) && !s0.started[i]
            ==> exists|outcome: Result<usize, i64>| #[trigger]
            init_abi::service_spawned(
                s0,
                s1,
                names0,
                names1,
                k0,
                k1,
                programs,
                (i + 1) as u64,
                code0,
                code1,
                outcome,
            ) && d1 == answered(
                echoed(d0, command),
                font,
                request(trimmed(command)),
                s0,
                outcome,
            ),
{
    init_abi::law_found_by_name(i, i);
}

/// A new line begins with the prompt, and the cursor stands two characters in.
pub proof fn law_prompt(d: Drawn, font: AaFont)
    requires
        font.wf(),
        dashboard::whole(d.pic),
    ensures
        dashboard::shows(
            d.prompted(font).pic,
            font,
            14,
            d.cy,
            font.height as int,
            seq!['>'],
            rgb(ACCENT),
            rgb(SHELL_BG),
        ),
        d.prompted(font).cy == d.cy,
        d.prompted(font).console == d.console,
        prompt_x(font) == 14 + 2 * font.width,
{
    let (fg, bg) = (rgb(ACCENT), rgb(SHELL_BG));
    let p = d.pic.text(font, 14, d.cy, seq!['>'], fg, bg);
    dashboard::lemma_text_shows(d.pic, font, 14, d.cy, seq!['>'], fg, bg);
    dashboard::lemma_shows_kept(
        p,
        font,
        14,
        d.cy,
        font.height as int,
        seq!['>'],
        fg,
        bg,
        14 + font.width,
        d.cy,
        seq![' '],
        fg,
        bg,
    );
}

} // verus!
