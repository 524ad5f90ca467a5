//! Direct framebuffer access: the foundation of every pixel that is drawn.
//!
//! A framebuffer is a grid of packed pixels. A drawing operation is described
//! by a shape, which says for each position of the grid what is put there, and
//! everything outside the visible part is left alone.
use vstd::arithmetic::div_mod::{lemma_fundamental_div_mod, lemma_fundamental_div_mod_converse};
use vstd::arithmetic::mul::lemma_mul_inequality;
use vstd::prelude::*;

use crate::font::{AaFont, Font};
use crate::text;

verus! {

#[derive(Clone, Copy, Debug, PartialEq, Eq, Structural)]
pub struct Color {
    pub r: u8,
    pub g: u8,
    pub b: u8,
}

impl Color {
    pub fn new(r: u8, g: u8, b: u8) -> (c: Color)
        ensures
            c == (Color { r, g, b }),
    {
        Color { r, g, b }
    }
}

/// What is put at a position, if anything.
pub type Shape = spec_fn(int, int) -> Option<u32>;

/// A grid of packed pixels. `stride` cells make a row, of which the first
/// `width` are visible.
pub struct Picture {
    pub width: int,
    pub height: int,
    pub stride: int,
    pub bgr: bool,
    pub cells: Seq<u32>,
}

/// Three bytes as the low 24 bits of a pixel, the first the highest.
pub open spec fn packed(high: u8, middle: u8, low: u8) -> u32 {
    (high * 65536 + middle * 256 + low) as u32
}

/// One channel of `fg` over `bg`, at an opacity of `a` out of 255.
pub open spec fn mixed(fg: u8, bg: u8, a: u8) -> u8 {
    ((fg * a + bg * (255 - a)) / 255) as u8
}

/// `fg` over `bg`, at an opacity of `a` out of 255.
pub open spec fn blended(fg: Color, bg: Color, a: u8) -> Color {
    Color { r: mixed(fg.r, bg.r, a), g: mixed(fg.g, bg.g, a), b: mixed(fg.b, bg.b, a) }
}

impl Picture {
    /// The pixel of a colour.
    pub open spec fn pixel(self, c: Color) -> u32 {
        if self.bgr {
            packed(c.r, c.g, c.b)
        } else {
            packed(c.b, c.g, c.r)
        }
    }

    /// The pixel at a visible position.
    pub open spec fn at(self, x: int, y: int) -> u32 {
        self.cells[y * self.stride + x]
    }

    /// The colour at a position; black outside the visible part.
    pub open spec fn color(self, x: int, y: int) -> Color {
        let v = self.at(x, y);
        if !self.visible(x, y) {
            Color { r: 0, g: 0, b: 0 }
        } else if self.bgr {
            Color { r: channel(v, 2), g: channel(v, 1), b: channel(v, 0) }
        } else {
            Color { r: channel(v, 0), g: channel(v, 1), b: channel(v, 2) }
        }
    }

    pub open spec fn visible(self, x: int, y: int) -> bool {
        0 <= x < self.width && 0 <= y < self.height
    }

    /// The picture with `shape` put on its visible part.
    pub open spec fn paint(self, shape: Shape) -> Picture {
        Picture {
            cells: Seq::new(
                self.cells.len(),
                |i: int|
                    match shape(i % self.stride, i / self.stride) {
                        Some(v) if self.visible(i % self.stride, i / self.stride) => v,
                        _ => self.cells[i],
                    },
            ),
            ..self
        }
    }

    /// The same size and pixel format.
    pub open spec fn same_form(self, o: Picture) -> bool {
        &&& self.width == o.width
        &&& self.height == o.height
        &&& self.stride == o.stride
        &&& self.bgr == o.bgr
        &&& self.cells.len() == o.cells.len()
    }

    pub open spec fn rect(self, x: int, y: int, w: int, h: int, c: Color) -> Picture {
        self.paint(rect_shape(x, y, w, h, self.pixel(c)))
    }

    pub open spec fn copied(
        self,
        src: Picture,
        sx: int,
        sy: int,
        w: int,
        h: int,
        x: int,
        y: int,
    ) -> Picture {
        self.paint(copy_shape(src, sx, sy, w, h, x, y))
    }

    pub open spec fn text(
        self,
        font: AaFont,
        x: int,
        y: int,
        s: Seq<char>,
        fg: Color,
        bg: Color,
    ) -> Picture {
        self.paint(aa_shape(self, font, x, y, s, fg, bg, 1))
    }
}

/// A filled rectangle.
pub open spec fn rect_shape(x: int, y: int, w: int, h: int, v: u32) -> Shape {
    |px: int, py: int|
        if x <= px < x + w && y <= py < y + h {
            Some(v)
        } else {
            None
        }
}

/// The `w` by `h` part of `src` at `(sx, sy)`, put at `(x, y)`, as far as `src`
/// reaches.
pub open spec fn copy_shape(
    src: Picture,
    sx: int,
    sy: int,
    w: int,
    h: int,
    x: int,
    y: int,
) -> Shape {
    |px: int, py: int|
        if x <= px < x + w && y <= py < y + h && src.visible(sx + px - x, sy + py - y) {
            Some(src.at(sx + px - x, sy + py - y))
        } else {
            None
        }
}

/// Every other pixel of every other row of `src`, put at `(x, y)`.
pub open spec fn half_shape(src: Picture, x: int, y: int) -> Shape {
    |px: int, py: int|
        if x <= px < x + src.width / 2 && y <= py < y + src.height / 2 {
            Some(src.at(2 * (px - x), 2 * (py - y)))
        } else {
            None
        }
}

/// A glyph of the bitmap font, each of its dots a `scale` by `scale` block.
pub open spec fn glyph_shape(font: Font, x: int, y: int, ch: char, v: u32, scale: int) -> Shape {
    |px: int, py: int|
        if x <= px < x + font.width * scale && y <= py < y + font.height * scale && font.dot(
            ch,
            (px - x) / scale,
            (py - y) / scale,
        ) {
            Some(v)
        } else {
            None
        }
}

/// A line of text in the anti-aliased font, each of its dots a `scale` by
/// `scale` block.
pub open spec fn aa_shape(
    p: Picture,
    font: AaFont,
    x: int,
    y: int,
    s: Seq<char>,
    fg: Color,
    bg: Color,
    scale: int,
) -> Shape {
    |px: int, py: int|
        {
            let advance = font.width * scale;
            let k = (px - x) / advance;
            let a = font.alpha(s[k], ((px - x) % advance) / scale, (py - y) / scale);
            if x <= px < x + s.len() * advance && y <= py < y + font.height * scale && a != 0 {
                Some(p.pixel(blended(fg, bg, a)))
            } else {
                None
            }
        }
}

/// A glyph of the anti-aliased font, each of its dots a `scale` by `scale`
/// block.
pub open spec fn aa_glyph_shape(
    p: Picture,
    font: AaFont,
    x: int,
    y: int,
    ch: char,
    fg: Color,
    bg: Color,
    scale: int,
) -> Shape {
    |px: int, py: int|
        {
            let a = font.alpha(ch, (px - x) / scale, (py - y) / scale);
            if x <= px < x + font.width * scale && y <= py < y + font.height * scale && a != 0 {
                Some(p.pixel(blended(fg, bg, a)))
            } else {
                None
            }
        }
}

/// A line of text in the bitmap font, each character one dot apart.
pub open spec fn string_shape(
    font: Font,
    x: int,
    y: int,
    s: Seq<char>,
    v: u32,
    scale: int,
) -> Shape {
    |px: int, py: int|
        {
            let advance = (font.width + 1) * scale;
            let k = (px - x) / advance;
            let col = (px - x) % advance;
            if x <= px < x + s.len() * advance && y <= py < y + font.height * scale && col
                < font.width * scale && font.dot(s[k], col / scale, (py - y) / scale) {
                Some(v)
            } else {
                None
            }
        }
}

/// The part of a shape above row `y`, and in row `y` left of `x`.
pub open spec fn upto(shape: Shape, x: int, y: int) -> Shape {
    |px: int, py: int|
        if py < y || (py == y && px < x) {
            shape(px, py)
        } else {
            None
        }
}

/// The part of a shape left of column `x`.
pub open spec fn left_of(shape: Shape, x: int) -> Shape {
    |px: int, py: int|
        if px < x {
            shape(px, py)
        } else {
            None
        }
}

proof fn lemma_cell(stride: int, x: int, y: int, i: int)
    requires
        0 <= x < stride,
        0 <= y,
        0 <= i,
    ensures
        (i % stride == x && i / stride == y) <==> i == y * stride + x,
{
    lemma_fundamental_div_mod(i, stride);
    assert(y * stride == stride * y) by (nonlinear_arith);
    if i == y * stride + x {
        lemma_fundamental_div_mod_converse(i, stride, y, x);
    }
    if i % stride == x && i / stride == y {
        assert(stride * (i / stride) == stride * y);
    }
}

/// Painting goes on by one position.
proof fn lemma_next(p: Picture, shape: Shape, x: int, y: int)
    requires
        p.visible(x, y),
        p.width <= p.stride,
        p.cells.len() == p.stride * p.height,
    ensures
        shape(x, y) is Some ==> p.paint(upto(shape, x + 1, y)).cells == p.paint(
            upto(shape, x, y),
        ).cells.update(y * p.stride + x, shape(x, y).unwrap()),
        shape(x, y) is None ==> p.paint(upto(shape, x + 1, y)) == p.paint(upto(shape, x, y)),
{
    let a = p.paint(upto(shape, x, y));
    let b = p.paint(upto(shape, x + 1, y));
    let n = y * p.stride + x;
    let want = if shape(x, y) is Some {
        a.cells.update(n, shape(x, y).unwrap())
    } else {
        a.cells
    };
    assert(b.cells =~= want) by {
        assert(0 <= n < p.stride * p.height) by (nonlinear_arith)
            requires
                n == y * p.stride + x,
                0 <= y < p.height,
                0 <= x < p.stride,
        ;
        assert forall|i: int| 0 <= i < p.cells.len() implies b.cells[i] == want[i] by {
            lemma_cell(p.stride, x, y, i);
        }
    }
}

/// On the visible part, the shape stays within the columns from `x0` to `x1`
/// and the rows from `y0` to `y1`.
spec fn confined(p: Picture, shape: Shape, x0: int, y0: int, x1: int, y1: int) -> bool {
    forall|px: int, py: int|
        p.visible(px, py) && !(x0 <= px < x1 && y0 <= py < y1) ==> #[trigger] shape(px, py) is None
}

/// Painting goes on with the next row.
proof fn lemma_next_row(p: Picture, shape: Shape, x0: int, y0: int, x1: int, y1: int, y: int)
    requires
        confined(p, shape, x0, y0, x1, y1),
    ensures
        p.paint(upto(shape, x1, y)) == p.paint(upto(shape, x0, y + 1)),
{
    let a = p.paint(upto(shape, x1, y));
    let b = p.paint(upto(shape, x0, y + 1));
    assert(a.cells =~= b.cells) by {
        assert forall|i: int| 0 <= i < p.cells.len() implies a.cells[i] == b.cells[i] by {
            let px = i % p.stride;
            let py = i / p.stride;
            if p.visible(px, py) && !(x0 <= px < x1 && y0 <= py < y1) {
                assert(shape(px, py) is None);
            }
        }
    }
}

/// Painting starts at the upper left corner of what is painted, and is done
/// below its last row.
proof fn lemma_first_last(p: Picture, shape: Shape, x0: int, y0: int, x1: int, y1: int)
    requires
        confined(p, shape, x0, y0, x1, y1),
    ensures
        p.paint(upto(shape, x0, y0)) == p,
        p.paint(upto(shape, x0, y1)) == p.paint(shape),
{
    let a = p.paint(upto(shape, x0, y0));
    let b = p.paint(upto(shape, x0, y1));
    let c = p.paint(shape);
    assert(a.cells =~= p.cells && b.cells =~= c.cells) by {
        assert forall|i: int| 0 <= i < p.cells.len() implies a.cells[i] == p.cells[i]
            && b.cells[i] == c.cells[i] by {
            let px = i % p.stride;
            let py = i / p.stride;
            if p.visible(px, py) && !(x0 <= px < x1 && y0 <= py < y1) {
                assert(shape(px, py) is None);
            }
        }
    }
}

/// A shape that puts nothing on the visible part changes nothing.
proof fn lemma_nothing(p: Picture, shape: Shape)
    requires
        forall|px: int, py: int| p.visible(px, py) ==> #[trigger] shape(px, py) is None,
    ensures
        p.paint(shape) == p,
{
    assert(p.paint(shape).cells =~= p.cells) by {
        assert forall|i: int| 0 <= i < p.cells.len() implies p.paint(shape).cells[i]
            == p.cells[i] by {
            let px = i % p.stride;
            let py = i / p.stride;
            if p.visible(px, py) {
                assert(shape(px, py) is None);
            }
        }
    }
}

proof fn lemma_pack(high: u8, middle: u8, low: u8)
    by (bit_vector)
    ensures
        ((high as u32) << 16) | ((middle as u32) << 8) | (low as u32) == (high as u32) * 65536u32 + (
        middle as u32) * 256u32 + (low as u32),
        (high as u32) * 65536u32 + (middle as u32) * 256u32 + (low as u32) <= 0xFF_FFFFu32,
{
}

/// The bytes of a pixel.
pub open spec fn channel(v: u32, n: int) -> u8 {
    if n == 0 {
        (v % 256) as u8
    } else if n == 1 {
        (v / 256 % 256) as u8
    } else {
        (v / 65536 % 256) as u8
    }
}

/// A grid of pixels and how they are packed.
pub struct Framebuffer {
    pixels: Vec<u32>,
    width: usize,
    height: usize,
    stride: usize,
    is_bgr: bool,
}

impl View for Framebuffer {
    type V = Picture;

    closed spec fn view(&self) -> Picture {
        Picture {
            width: self.width as int,
            height: self.height as int,
            stride: self.stride as int,
            bgr: self.is_bgr,
            cells: self.pixels@,
        }
    }
}

impl Framebuffer {
    pub closed spec fn wf(&self) -> bool {
        &&& self.width <= self.stride
        &&& self.pixels@.len() == self.stride * self.height
    }

    /// `stride` pixels (may be more than `width`) make a row.
    pub fn new(pixels: Vec<u32>, width: usize, height: usize, stride: usize, is_bgr: bool) -> (fb:
        Framebuffer)
        requires
            width <= stride,
            pixels@.len() == stride * height,
        ensures
            fb.wf(),
            fb@ == (Picture {
                width: width as int,
                height: height as int,
                stride: stride as int,
                bgr: is_bgr,
                cells: pixels@,
            }),
    {
        Framebuffer { pixels, width, height, stride, is_bgr }
    }

    fn packed_pixel(&self, c: Color) -> (v: u32)
        ensures
            v == self@.pixel(c),
    {
        proof {
            lemma_pack(c.r, c.g, c.b);
            lemma_pack(c.b, c.g, c.r);
        }
        if self.is_bgr {
            ((c.r as u32) << 16) | ((c.g as u32) << 8) | (c.b as u32)
        } else {
            ((c.b as u32) << 16) | ((c.g as u32) << 8) | (c.r as u32)
        }
    }

    /// The index of a visible position.
    fn index(&self, x: usize, y: usize) -> (i: usize)
        requires
            self.wf(),
            self@.visible(x as int, y as int),
        ensures
            i == y * self@.stride + x,
            i < self@.cells.len(),
    {
        proof {
            assert(self.pixels.len() == self.pixels@.len());
            assert(y * self.stride + x < self.stride * self.height && 0 <= y * self.stride)
                by (nonlinear_arith)
                requires
                    y + 1 <= self.height,
                    0 <= y,
                    0 <= x < self.stride,
            ;
        }
        y * self.stride + x
    }

    fn set(&mut self, x: usize, y: usize, v: u32)
        requires
            old(self).wf(),
            old(self)@.visible(x as int, y as int),
        ensures
            final(self).wf(),
            final(self)@ == (Picture {
                cells: old(self)@.cells.update(y * old(self)@.stride + x, v),
                ..old(self)@
            }),
    {
        let i: usize = self.index(x, y);
        self.pixels[i] = v;
    }

    pub fn put_pixel(&mut self, x: usize, y: usize, c: Color)
        requires
            old(self).wf(),
        ensures
            final(self).wf(),
            final(self)@ == old(self)@.rect(x as int, y as int, 1, 1, c),
    {
        let ghost p = self@;
        let v: u32 = self.packed_pixel(c);
        let ghost shape = rect_shape(x as int, y as int, 1, 1, v);
        if x >= self.width || y >= self.height {
            proof {
                lemma_nothing(p, shape);
            }
            return ;
        }
        self.set(x, y, v);
        proof {
            lemma_first_last(p, shape, x as int, y as int, x + 1, y + 1);
            lemma_next(p, shape, x as int, y as int);
            lemma_next_row(p, shape, x as int, y as int, x + 1, y + 1, y as int);
        }
    }

    pub fn clear(&mut self, c: Color)
        requires
            old(self).wf(),
        ensures
            final(self).wf(),
            final(self)@ == old(self)@.rect(0, 0, old(self)@.width, old(self)@.height, c),
    {
        let (w, h): (usize, usize) = (self.width, self.height);
        self.draw_rect(0, 0, w, h, c);
    }

    pub fn draw_rect(&mut self, x: usize, y: usize, w: usize, h: usize, c: Color)
        requires
            old(self).wf(),
        ensures
            final(self).wf(),
            final(self)@ == old(self)@.rect(x as int, y as int, w as int, h as int, c),
    {
        let ghost p = self@;
        let v: u32 = self.packed_pixel(c);
        let ghost shape = rect_shape(x as int, y as int, w as int, h as int, v);
        if x >= self.width || y >= self.height || w == 0 || h == 0 {
            proof {
                lemma_nothing(p, shape);
            }
            return ;
        }
        let x1: usize = x + least(w, self.width - x);
        let y1: usize = y + least(h, self.height - y);
        let mut py: usize = y;
        proof {
            lemma_first_last(p, shape, x as int, y as int, x1 as int, y1 as int);
        }
        while py < y1
            invariant
                self.wf(),
                self@ == p.paint(upto(shape, x as int, py as int)),
                x <= x1 <= p.width,
                y <= py <= y1 <= p.height,
                p.width <= p.stride,
                p.cells.len() == p.stride * p.height,
                x1 <= x + w,
                y1 <= y + h,
                shape == rect_shape(x as int, y as int, w as int, h as int, v),
                confined(p, shape, x as int, y as int, x1 as int, y1 as int),
            decreases y1 - py,
        {
            let mut px: usize = x;
            while px < x1
                invariant
                    self.wf(),
                    self@ == p.paint(upto(shape, px as int, py as int)),
                    x <= px <= x1 <= p.width,
                    y <= py < y1 <= p.height,
                    p.width <= p.stride,
                    p.cells.len() == p.stride * p.height,
                    x1 <= x + w,
                    y1 <= y + h,
                    shape == rect_shape(x as int, y as int, w as int, h as int, v),
                decreases x1 - px,
            {
                proof {
                    lemma_next(p, shape, px as int, py as int);
                }
                self.set(px, py, v);
                px = px + 1;
            }
            proof {
                lemma_next_row(
                    p,
                    shape,
                    x as int,
                    y as int,
                    x1 as int,
                    y1 as int,
                    py as int,
                );
            }
            py = py + 1;
        }
    }

    /// Draws a single character with an integer `scale` multiplier.
    pub fn draw_char(
        &mut self,
        font: &Font,
        x: usize,
        y: usize,
        ch: char,
        color: Color,
        scale: usize,
    )
        requires
            old(self).wf(),
            font.wf(),
            x + font.width * scale <= usize::MAX,
            y + font.height * scale <= usize::MAX,
        ensures
            final(self).wf(),
            final(self)@ == old(self)@.paint(
                glyph_shape(
                    *font,
                    x as int,
                    y as int,
                    ch,
                    old(self)@.pixel(color),
                    scale as int,
                ),
            ),
    {
        let ghost p = self@;
        let v: u32 = self.packed_pixel(color);
        let ghost shape = glyph_shape(*font, x as int, y as int, ch, v, scale as int);
        let glyph: &Vec<u8> = font.glyph(ch);
        proof {
            assert(font.width * scale >= 0 && font.height * scale >= 0) by (nonlinear_arith)
                requires
                    font.width >= 0,
                    font.height >= 0,
                    scale >= 0,
            ;
        }
        let x1: usize = least(x + font.width * scale, self.width);
        let y1: usize = least(y + font.height * scale, self.height);
        if x >= x1 || y >= y1 {
            proof {
                lemma_nothing(p, shape);
            }
            return ;
        }
        let mut py: usize = y;
        proof {
            lemma_first_last(p, shape, x as int, y as int, x1 as int, y1 as int);
        }
        while py < y1
            invariant
                self.wf(),
                self@ == p.paint(upto(shape, x as int, py as int)),
                x <= x1 <= p.width,
                y <= py <= y1 <= p.height,
                p.width <= p.stride,
                p.cells.len() == p.stride * p.height,
                x1 <= x + font.width * scale,
                y1 <= y + font.height * scale,
                font.wf(),
                glyph@ == font.glyphs.cells(ch),
                glyph@.len() == font.height,
                shape == glyph_shape(*font, x as int, y as int, ch, v, scale as int),
                confined(p, shape, x as int, y as int, x1 as int, y1 as int),
            decreases y1 - py,
        {
            let mut px: usize = x;
            while px < x1
                invariant
                    self.wf(),
                    self@ == p.paint(upto(shape, px as int, py as int)),
                    x <= px <= x1 <= p.width,
                    y <= py < y1 <= p.height,
                    p.width <= p.stride,
                    p.cells.len() == p.stride * p.height,
                    x1 <= x + font.width * scale,
                    y1 <= y + font.height * scale,
                    font.wf(),
                    glyph@ == font.glyphs.cells(ch),
                    glyph@.len() == font.height,
                    shape == glyph_shape(*font, x as int, y as int, ch, v, scale as int),
                decreases x1 - px,
            {
                proof {
                    lemma_next(p, shape, px as int, py as int);
                    lemma_block(px - x, font.width as int, scale as int);
                    lemma_block(py - y, font.height as int, scale as int);
                }
                let row: usize = (py - y) / scale;
                let col: usize = (px - x) / scale;
                if glyph[row] & (0x80u8 >> (col as u8)) != 0 {
                    self.set(px, py, v);
                }
                px = px + 1;
            }
            proof {
                lemma_next_row(
                    p,
                    shape,
                    x as int,
                    y as int,
                    x1 as int,
                    y1 as int,
                    py as int,
                );
            }
            py = py + 1;
        }
    }

    /// Draws a string. Characters are spaced one dot apart.
    pub fn draw_string(
        &mut self,
        font: &Font,
        x: usize,
        y: usize,
        s: &str,
        color: Color,
        scale: usize,
    )
        requires
            old(self).wf(),
            font.wf(),
            x + s@.len() * ((font.width + 1) * scale) <= usize::MAX,
            y + font.height * scale <= usize::MAX,
            (font.width + 1) * scale <= usize::MAX,
        ensures
            final(self).wf(),
            final(self)@ == old(self)@.paint(
                string_shape(
                    *font,
                    x as int,
                    y as int,
                    s@,
                    old(self)@.pixel(color),
                    scale as int,
                ),
            ),
    {
        let ghost p = self@;
        let ghost v = p.pixel(color);
        let ghost shape = string_shape(*font, x as int, y as int, s@, v, scale as int);
        let advance: usize = (font.width + 1) * scale;
        let mut chars: Vec<char> = Vec::new();
        text::push_str(&mut chars, s);
        assert(chars@ =~= s@);
        let mut cx: usize = x;
        let mut k: usize = 0;
        proof {
            lemma_left_none(p, shape, x as int);
        }
        while k < chars.len()
            invariant
                self.wf(),
                font.wf(),
                k <= chars@.len(),
                chars@ == s@,
                cx == x + k * advance,
                advance == (font.width + 1) * scale,
                x + s@.len() * advance <= usize::MAX,
                y + font.height * scale <= usize::MAX,
                self@ == p.paint(left_of(shape, cx as int)),
                v == p.pixel(color),
                shape == string_shape(*font, x as int, y as int, s@, v, scale as int),
            decreases chars@.len() - k,
        {
            proof {
                lemma_step(x as int, k as int, chars@.len() as int, advance as int);
                assert(font.width * scale <= advance) by (nonlinear_arith)
                    requires
                        advance == (font.width + 1) * scale,
                        scale >= 0,
                ;
                lemma_string_next(
                    p,
                    *font,
                    x as int,
                    y as int,
                    s@,
                    v,
                    scale as int,
                    k as int,
                );
            }
            self.draw_char(font, cx, y, chars[k], color, scale);
            cx = cx + advance;
            k = k + 1;
        }
        proof {
            lemma_left_all(p, shape, cx as int);
        }
    }

    /// Draws one glyph of the anti-aliased font in blocks of `scale`.
    fn draw_glyph(
        &mut self,
        font: &AaFont,
        x: usize,
        y: usize,
        ch: char,
        fg: Color,
        bg: Color,
        scale: usize,
    )
        requires
            old(self).wf(),
            font.wf(),
            1 <= scale,
            x + font.width * scale <= usize::MAX,
            y + font.height * scale <= usize::MAX,
        ensures
            final(self).wf(),
            final(self)@ == old(self)@.paint(
                aa_glyph_shape(
                    old(self)@,
                    *font,
                    x as int,
                    y as int,
                    ch,
                    fg,
                    bg,
                    scale as int,
                ),
            ),
    {
        let ghost p = self@;
        let ghost shape = aa_glyph_shape(p, *font, x as int, y as int, ch, fg, bg, scale as int);
        let glyph: &Vec<u8> = font.glyph_alpha(ch);
        proof {
            assert(font.width * scale >= 0 && font.height * scale >= 0) by (nonlinear_arith)
                requires
                    font.width >= 0,
                    font.height >= 0,
                    scale >= 0,
            ;
        }
        let x1: usize = least(x + font.width * scale, self.width);
        let y1: usize = least(y + font.height * scale, self.height);
        if x >= x1 || y >= y1 {
            proof {
                lemma_nothing(p, shape);
            }
            return ;
        }
        let mut py: usize = y;
        proof {
            lemma_first_last(p, shape, x as int, y as int, x1 as int, y1 as int);
        }
        while py < y1
            invariant
                self.wf(),
                self@ == p.paint(upto(shape, x as int, py as int)),
                x <= x1 <= p.width,
                y <= py <= y1 <= p.height,
                p.width <= p.stride,
                p.cells.len() == p.stride * p.height,
                x1 <= x + font.width * scale,
                y1 <= y + font.height * scale,
                font.wf(),
                glyph@ == font.glyphs.cells(ch),
                glyph@.len() == font.width * font.height,
                shape == aa_glyph_shape(
                    p,
                    *font,
                    x as int,
                    y as int,
                    ch,
                    fg,
                    bg,
                    scale as int,
                ),
                confined(p, shape, x as int, y as int, x1 as int, y1 as int),
            decreases y1 - py,
        {
            let mut px: usize = x;
            while px < x1
                invariant
                    self.wf(),
                    self@ == p.paint(upto(shape, px as int, py as int)),
                    x <= px <= x1 <= p.width,
                    y <= py < y1 <= p.height,
                    p.width <= p.stride,
                    p.cells.len() == p.stride * p.height,
                    x1 <= x + font.width * scale,
                    y1 <= y + font.height * scale,
                    font.wf(),
                    glyph@ == font.glyphs.cells(ch),
                    glyph@.len() == font.width * font.height,
                    shape == aa_glyph_shape(
                        p,
                        *font,
                        x as int,
                        y as int,
                        ch,
                        fg,
                        bg,
                        scale as int,
                    ),
                decreases x1 - px,
            {
                proof {
                    lemma_next(p, shape, px as int, py as int);
                    lemma_block(px - x, font.width as int, scale as int);
                    lemma_block(py - y, font.height as int, scale as int);
                }
                let row: usize = (py - y) / scale;
                let col: usize = (px - x) / scale;
                proof {
                    assert(0 <= row * font.width && row * font.width + col < font.width
                        * font.height) by (nonlinear_arith)
                        requires
                            0 <= row < font.height,
                            0 <= col < font.width,
                    ;
                    assert(glyph.len() == glyph@.len());
                }
                let a: u8 = glyph[row * font.width + col];
                if a != 0 {
                    let c: Color = blend(fg, bg, a);
                    let v: u32 = self.packed_pixel(c);
                    self.set(px, py, v);
                }
                px = px + 1;
            }
            proof {
                lemma_next_row(
                    p,
                    shape,
                    x as int,
                    y as int,
                    x1 as int,
                    y1 as int,
                    py as int,
                );
            }
            py = py + 1;
        }
    }

    /// Draws a line of characters in the anti-aliased font.
    fn draw_chars(
        &mut self,
        font: &AaFont,
        x: usize,
        y: usize,
        chars: &Vec<char>,
        fg: Color,
        bg: Color,
        scale: usize,
    )
        requires
            old(self).wf(),
            font.wf(),
            1 <= scale,
            x + chars@.len() * (font.width * scale) <= usize::MAX,
            y + font.height * scale <= usize::MAX,
            font.width * scale <= usize::MAX,
        ensures
            final(self).wf(),
            final(self)@ == old(self)@.paint(
                aa_shape(
                    old(self)@,
                    *font,
                    x as int,
                    y as int,
                    chars@,
                    fg,
                    bg,
                    scale as int,
                ),
            ),
    {
        let ghost p = self@;
        let ghost shape = aa_shape(p, *font, x as int, y as int, chars@, fg, bg, scale as int);
        let advance: usize = font.width * scale;
        let mut cx: usize = x;
        let mut k: usize = 0;
        proof {
            lemma_left_none(p, shape, x as int);
        }
        while k < chars.len()
            invariant
                self.wf(),
                font.wf(),
                1 <= scale,
                k <= chars@.len(),
                cx == x + k * advance,
                advance == font.width * scale,
                x + chars@.len() * advance <= usize::MAX,
                y + font.height * scale <= usize::MAX,
                self@ == p.paint(left_of(shape, cx as int)),
                shape == aa_shape(
                    p,
                    *font,
                    x as int,
                    y as int,
                    chars@,
                    fg,
                    bg,
                    scale as int,
                ),
            decreases chars@.len() - k,
        {
            proof {
                lemma_step(x as int, k as int, chars@.len() as int, advance as int);
                lemma_aa_next(
                    p,
                    *font,
                    x as int,
                    y as int,
                    chars@,
                    fg,
                    bg,
                    scale as int,
                    k as int,
                );
            }
            self.draw_glyph(font, cx, y, chars[k], fg, bg, scale);
            cx = cx + advance;
            k = k + 1;
        }
        proof {
            lemma_left_all(p, shape, cx as int);
        }
    }

    /// Draws a single character in the anti-aliased font, alpha-blended
    /// against `bg` for smooth edges.
    pub fn draw_aa_char(&mut self, font: &AaFont, x: usize, y: usize, ch: char, fg: Color, bg: Color)
        requires
            old(self).wf(),
            font.wf(),
            x + font.width <= usize::MAX,
            y + font.height <= usize::MAX,
        ensures
            final(self).wf(),
            final(self)@ == old(self)@.text(*font, x as int, y as int, seq![ch], fg, bg),
    {
        let mut chars: Vec<char> = Vec::new();
        chars.push(ch);
        assert(chars@ =~= seq![ch]);
        assert(chars@.len() * (font.width * 1) == font.width) by (nonlinear_arith)
            requires
                chars@.len() == 1,
        ;
        self.draw_chars(font, x, y, &chars, fg, bg, 1);
    }

    /// Draws a string in the anti-aliased font.
    pub fn draw_aa_string(&mut self, font: &AaFont, x: usize, y: usize, s: &str, fg: Color, bg: Color)
        requires
            old(self).wf(),
            font.wf(),
            x + s@.len() * font.width <= usize::MAX,
            y + font.height <= usize::MAX,
        ensures
            final(self).wf(),
            final(self)@ == old(self)@.text(*font, x as int, y as int, s@, fg, bg),
    {
        let mut chars: Vec<char> = Vec::new();
        text::push_str(&mut chars, s);
        assert(chars@ =~= s@);
        assert(font.width * 1 == font.width);
        assert(chars@.len() * (font.width * 1) == s@.len() * font.width);
        self.draw_chars(font, x, y, &chars, fg, bg, 1);
    }

    /// Draws a line of characters in the anti-aliased font.
    pub fn draw_aa_line(
        &mut self,
        font: &AaFont,
        x: usize,
        y: usize,
        chars: &Vec<char>,
        fg: Color,
        bg: Color,
    )
        requires
            old(self).wf(),
            font.wf(),
            x + chars@.len() * font.width <= usize::MAX,
            y + font.height <= usize::MAX,
        ensures
            final(self).wf(),
            final(self)@ == old(self)@.text(*font, x as int, y as int, chars@, fg, bg),
    {
        assert(font.width * 1 == font.width);
        assert(chars@.len() * (font.width * 1) == chars@.len() * font.width);
        self.draw_chars(font, x, y, chars, fg, bg, 1);
    }

    /// Draws a string at twice the size in the anti-aliased font.
    pub fn draw_aa_string_2x(
        &mut self,
        font: &AaFont,
        x: usize,
        y: usize,
        s: &str,
        fg: Color,
        bg: Color,
    )
        requires
            old(self).wf(),
            font.wf(),
            x + s@.len() * (font.width * 2) <= usize::MAX,
            y + font.height * 2 <= usize::MAX,
        ensures
            final(self).wf(),
            final(self)@ == old(self)@.paint(
                aa_shape(old(self)@, *font, x as int, y as int, s@, fg, bg, 2),
            ),
    {
        let mut chars: Vec<char> = Vec::new();
        text::push_str(&mut chars, s);
        assert(chars@ =~= s@);
        self.draw_aa_line_2x(font, x, y, &chars, fg, bg);
    }

    /// Draws a line of characters at twice the size in the anti-aliased font.
    pub fn draw_aa_line_2x(
        &mut self,
        font: &AaFont,
        x: usize,
        y: usize,
        chars: &Vec<char>,
        fg: Color,
        bg: Color,
    )
        requires
            old(self).wf(),
            font.wf(),
            x + chars@.len() * (font.width * 2) <= usize::MAX,
            y + font.height * 2 <= usize::MAX,
        ensures
            final(self).wf(),
            final(self)@ == old(self)@.paint(
                aa_shape(old(self)@, *font, x as int, y as int, chars@, fg, bg, 2),
            ),
    {
        self.draw_chars(font, x, y, chars, fg, bg, 2);
    }

    /// Puts another surface on this framebuffer.
    pub fn blit(&mut self, src: &Framebuffer, dest_x: usize, dest_y: usize)
        requires
            old(self).wf(),
            src.wf(),
        ensures
            final(self).wf(),
            final(self)@ == old(self)@.copied(
                src@,
                0,
                0,
                src@.width,
                src@.height,
                dest_x as int,
                dest_y as int,
            ),
    {
        self.copy_rect_from(src, 0, 0, src.width, src.height, dest_x, dest_y);
    }

    /// Copies a rectangle of `src` into this framebuffer.
    pub fn copy_rect_from(
        &mut self,
        src: &Framebuffer,
        src_x: usize,
        src_y: usize,
        w: usize,
        h: usize,
        dest_x: usize,
        dest_y: usize,
    )
        requires
            old(self).wf(),
            src.wf(),
        ensures
            final(self).wf(),
            final(self)@ == old(self)@.copied(
                src@,
                src_x as int,
                src_y as int,
                w as int,
                h as int,
                dest_x as int,
                dest_y as int,
            ),
    {
        let ghost p = self@;
        let ghost (x, y) = (dest_x as int, dest_y as int);
        let ghost shape = copy_shape(src@, src_x as int, src_y as int, w as int, h as int, x, y);
        if src_x >= src.width || src_y >= src.height || dest_x >= self.width || dest_y
            >= self.height || w == 0 || h == 0 {
            proof {
                lemma_nothing(p, shape);
            }
            return ;
        }
        let copy_w: usize = least(least(w, src.width - src_x), self.width - dest_x);
        let copy_h: usize = least(least(h, src.height - src_y), self.height - dest_y);
        let ghost (x1, y1) = (x + copy_w, y + copy_h);
        proof {
            lemma_first_last(p, shape, x, y, x1, y1);
        }
        let mut dy: usize = 0;
        while dy < copy_h
            invariant
                self.wf(),
                src.wf(),
                self@ == p.paint(upto(shape, x, y + dy)),
                x == dest_x,
                y == dest_y,
                x1 == x + copy_w <= p.width,
                y1 == y + copy_h <= p.height,
                p.width <= p.stride,
                p.cells.len() == p.stride * p.height,
                dy <= copy_h <= h,
                copy_w <= w,
                src_x + copy_w <= src@.width,
                src_y + copy_h <= src@.height,
                shape == copy_shape(src@, src_x as int, src_y as int, w as int, h as int, x, y),
                confined(p, shape, x, y, x1, y1),
            decreases copy_h - dy,
        {
            let mut dx: usize = 0;
            while dx < copy_w
                invariant
                    self.wf(),
                    src.wf(),
                    self@ == p.paint(upto(shape, x + dx, y + dy)),
                    x == dest_x,
                    y == dest_y,
                    x + copy_w <= p.width,
                    y + copy_h <= p.height,
                    p.width <= p.stride,
                    p.cells.len() == p.stride * p.height,
                    dy < copy_h <= h,
                    dx <= copy_w <= w,
                    src_x + copy_w <= src@.width,
                    src_y + copy_h <= src@.height,
                    shape == copy_shape(
                        src@,
                        src_x as int,
                        src_y as int,
                        w as int,
                        h as int,
                        x,
                        y,
                    ),
                decreases copy_w - dx,
            {
                proof {
                    lemma_next(p, shape, x + dx, y + dy);
                }
                let i: usize = src.index(src_x + dx, src_y + dy);
                let v: u32 = src.pixels[i];
                self.set(dest_x + dx, dest_y + dy, v);
                dx = dx + 1;
            }
            proof {
                lemma_next_row(p, shape, x, y, x1, y1, y + dy);
            }
            dy = dy + 1;
        }
    }

    /// Copies a rectangle of this framebuffer into `dst`.
    pub fn copy_rect_to(
        &self,
        dst: &mut Framebuffer,
        src_x: usize,
        src_y: usize,
        w: usize,
        h: usize,
        dest_x: usize,
        dest_y: usize,
    )
        requires
            self.wf(),
            old(dst).wf(),
        ensures
            final(dst).wf(),
            final(dst)@ == old(dst)@.copied(
                self@,
                src_x as int,
                src_y as int,
                w as int,
                h as int,
                dest_x as int,
                dest_y as int,
            ),
    {
        dst.copy_rect_from(self, src_x, src_y, w, h, dest_x, dest_y);
    }

    /// Puts a surface here at half its size: every other pixel of every other
    /// row.
    pub fn blit_scaled_half(&mut self, src: &Framebuffer, dest_x: usize, dest_y: usize)
        requires
            old(self).wf(),
            src.wf(),
        ensures
            final(self).wf(),
            final(self)@ == old(self)@.paint(half_shape(src@, dest_x as int, dest_y as int)),
    {
        let ghost p = self@;
        let ghost (x, y) = (dest_x as int, dest_y as int);
        let ghost shape = half_shape(src@, x, y);
        let half_w: usize = src.width / 2;
        let half_h: usize = src.height / 2;
        if dest_x >= self.width || dest_y >= self.height {
            proof {
                lemma_nothing(p, shape);
            }
            return ;
        }
        let copy_w: usize = least(half_w, self.width - dest_x);
        let copy_h: usize = least(half_h, self.height - dest_y);
        let ghost (x1, y1) = (x + copy_w, y + copy_h);
        proof {
            lemma_first_last(p, shape, x, y, x1, y1);
        }
        let mut dy: usize = 0;
        while dy < copy_h
            invariant
                self.wf(),
                src.wf(),
                self@ == p.paint(upto(shape, x, y + dy)),
                x == dest_x,
                y == dest_y,
                x1 == x + copy_w <= p.width,
                y1 == y + copy_h <= p.height,
                p.width <= p.stride,
                p.cells.len() == p.stride * p.height,
                dy <= copy_h,
                copy_w <= src@.width / 2,
                copy_h <= src@.height / 2,
                shape == half_shape(src@, x, y),
                confined(p, shape, x, y, x1, y1),
            decreases copy_h - dy,
        {
            let mut dx: usize = 0;
            while dx < copy_w
                invariant
                    self.wf(),
                    src.wf(),
                    self@ == p.paint(upto(shape, x + dx, y + dy)),
                    x == dest_x,
                    y == dest_y,
                    x + copy_w <= p.width,
                    y + copy_h <= p.height,
                    p.width <= p.stride,
                    p.cells.len() == p.stride * p.height,
                    dy < copy_h,
                    dx <= copy_w,
                    copy_w <= src@.width / 2,
                    copy_h <= src@.height / 2,
                    shape == half_shape(src@, x, y),
                decreases copy_w - dx,
            {
                proof {
                    lemma_next(p, shape, x + dx, y + dy);
                }
                let i: usize = src.index(dx * 2, dy * 2);
                let v: u32 = src.pixels[i];
                self.set(dest_x + dx, dest_y + dy, v);
                dx = dx + 1;
            }
            proof {
                lemma_next_row(p, shape, x, y, x1, y1, y + dy);
            }
            dy = dy + 1;
        }
    }

    /// The colour at a position; black outside the visible part.
    pub fn read_pixel(&self, x: usize, y: usize) -> (c: Color)
        requires
            self.wf(),
        ensures
            c == self@.color(x as int, y as int),
    {
        if x >= self.width || y >= self.height {
            return Color::new(0, 0, 0);
        }
        let i: usize = self.index(x, y);
        let v: u32 = self.pixels[i];
        let low: u8 = (v % 256) as u8;
        let middle: u8 = (v / 256 % 256) as u8;
        let high: u8 = (v / 65536 % 256) as u8;
        if self.is_bgr {
            Color::new(high, middle, low)
        } else {
            Color::new(low, middle, high)
        }
    }

    /// Width in pixels.
    pub fn width(&self) -> (w: usize)
        ensures
            w == self@.width,
    {
        self.width
    }

    /// Height in pixels.
    pub fn height(&self) -> (h: usize)
        ensures
            h == self@.height,
    {
        self.height
    }

    /// Stride in pixels (may be more than the width).
    pub fn stride(&self) -> (n: usize)
        ensures
            n == self@.stride,
    {
        self.stride
    }

    /// All pixels, row by row.
    pub fn base_ptr(&self) -> (p: &Vec<u32>)
        ensures
            p@ == self@.cells,
    {
        &self.pixels
    }

    pub fn is_bgr(&self) -> (b: bool)
        ensures
            b == self@.bgr,
    {
        self.is_bgr
    }

    /// Copies the whole of this framebuffer to `dst`.
    pub fn copy_to(&self, dst: &mut Framebuffer)
        requires
            self.wf(),
            old(dst).wf(),
        ensures
            final(dst).wf(),
            final(dst)@ == old(dst)@.copied(self@, 0, 0, self@.width, self@.height, 0, 0),
    {
        self.copy_rect_to(dst, 0, 0, self.width, self.height, 0, 0);
    }
}

/// The bytes of a packed pixel are those it was packed from.
proof fn lemma_channels(high: u8, middle: u8, low: u8)
    ensures
        channel(packed(high, middle, low), 0) == low,
        channel(packed(high, middle, low), 1) == middle,
        channel(packed(high, middle, low), 2) == high,
{
    let v: int = high * 65536 + middle * 256 + low;
    assert(v % 256 == low);
    assert(v / 256 == high * 256 + middle);
    assert(v / 65536 == high);
}

/// A pixel that was put reads back as its colour.
pub proof fn law_pixel_reads_back(p: Picture, x: int, y: int, c: Color)
    requires
        p.visible(x, y),
        p.width <= p.stride,
        p.cells.len() == p.stride * p.height,
    ensures
        p.rect(x, y, 1, 1, c).color(x, y) == c,
{
    let shape = rect_shape(x, y, 1, 1, p.pixel(c));
    lemma_first_last(p, shape, x, y, x + 1, y + 1);
    lemma_next(p, shape, x, y);
    lemma_next_row(p, shape, x, y, x + 1, y + 1, y);
    assert(0 <= y * p.stride + x < p.stride * p.height) by (nonlinear_arith)
        requires
            0 <= y < p.height,
            0 <= x < p.stride,
    ;
    assert(p.rect(x, y, 1, 1, c).at(x, y) == p.pixel(c));
    lemma_channels(c.r, c.g, c.b);
    lemma_channels(c.b, c.g, c.r);
}

/// Painting leaves every position alone at which the shape puts nothing.
pub proof fn law_paint_is_local(p: Picture, shape: Shape, x: int, y: int)
    requires
        p.visible(x, y),
        p.width <= p.stride,
        p.cells.len() == p.stride * p.height,
    ensures
        p.paint(shape).at(x, y) == match shape(x, y) {
            Some(v) => v,
            None => p.at(x, y),
        },
{
    let i = y * p.stride + x;
    assert(0 <= i < p.stride * p.height) by (nonlinear_arith)
        requires
            i == y * p.stride + x,
            0 <= y < p.height,
            0 <= x < p.stride,
    ;
    lemma_cell(p.stride, x, y, i);
}

/// What holds of the picture in every framebuffer: rows are no shorter than they
/// are wide, and there is a cell for every place in every row.
pub proof fn law_framebuffer_form(fb: Framebuffer)
    requires
        fb.wf(),
    ensures
        0 <= fb@.width <= fb@.stride,
        0 <= fb@.height,
        fb@.cells.len() == fb@.stride * fb@.height,
{
}

fn least(a: usize, b: usize) -> (m: usize)
    ensures
        m == if a < b {
            a
        } else {
            b
        },
{
    if a < b {
        a
    } else {
        b
    }
}

fn mix(fg: u8, bg: u8, a: u8) -> (m: u8)
    ensures
        m == mixed(fg, bg, a),
{
    proof {
        assert(0 <= fg * a <= 255 * a && 0 <= bg * (255 - a) <= 255 * (255 - a))
            by (nonlinear_arith)
            requires
                0 <= fg <= 255,
                0 <= bg <= 255,
                0 <= a <= 255,
        ;
    }
    ((fg as u16 * a as u16 + bg as u16 * (255 - a as u16)) / 255) as u8
}

/// `fg` over `bg`, alpha-blended.
pub fn blend(fg: Color, bg: Color, alpha: u8) -> (c: Color)
    ensures
        c == blended(fg, bg, alpha),
{
    Color::new(mix(fg.r, bg.r, alpha), mix(fg.g, bg.g, alpha), mix(fg.b, bg.b, alpha))
}

/// A position in a line of `n` blocks of `scale` lies in one of them.
proof fn lemma_block(d: int, n: int, scale: int)
    requires
        0 <= d < n * scale,
        0 <= scale,
    ensures
        scale > 0,
        0 <= d / scale < n,
{
    assert(scale > 0) by (nonlinear_arith)
        requires
            0 <= d < n * scale,
            0 <= scale,
    ;
    lemma_fundamental_div_mod(d, scale);
    assert(0 <= d / scale < n) by (nonlinear_arith)
        requires
            0 <= d < n * scale,
            0 < scale,
            d == scale * (d / scale) + d % scale,
            0 <= d % scale < scale,
    ;
}

proof fn lemma_step(x: int, k: int, n: int, advance: int)
    requires
        0 <= k < n,
        0 <= advance,
    ensures
        x + k * advance + advance == x + (k + 1) * advance,
        (k + 1) * advance <= n * advance,
        0 <= k * advance,
{
    assert(k * advance + advance == (k + 1) * advance) by (nonlinear_arith);
    lemma_mul_inequality(k + 1, n, advance);
    assert(0 <= k * advance) by (nonlinear_arith)
        requires
            0 <= k,
            0 <= advance,
    ;
}

proof fn lemma_left_none(p: Picture, shape: Shape, x: int)
    requires
        forall|px: int, py: int| px < x ==> #[trigger] shape(px, py) is None,
    ensures
        p.paint(left_of(shape, x)) == p,
{
    assert forall|px: int, py: int| p.visible(px, py) implies #[trigger] left_of(shape, x)(
        px,
        py,
    ) is None by {
        if px < x {
            assert(shape(px, py) is None);
        }
    }
    lemma_nothing(p, left_of(shape, x));
}

proof fn lemma_left_all(p: Picture, shape: Shape, x: int)
    requires
        forall|px: int, py: int| px >= x ==> #[trigger] shape(px, py) is None,
    ensures
        p.paint(left_of(shape, x)) == p.paint(shape),
{
    let a = p.paint(left_of(shape, x));
    let b = p.paint(shape);
    assert(a.cells =~= b.cells) by {
        assert forall|i: int| 0 <= i < p.cells.len() implies a.cells[i] == b.cells[i] by {
            let px = i % p.stride;
            let py = i / p.stride;
            if px >= x {
                assert(shape(px, py) is None);
            }
        }
    }
}

/// Where `part` is what `shape` puts between two columns, painting it after
/// what lies left of them paints the shape up to the second.
proof fn lemma_column(p: Picture, shape: Shape, part: Shape, x0: int, x1: int)
    requires
        x0 <= x1,
        forall|px: int, py: int|
            #[trigger] part(px, py) == if x0 <= px < x1 {
                shape(px, py)
            } else {
                None
            },
    ensures
        p.paint(left_of(shape, x0)).paint(part) == p.paint(left_of(shape, x1)),
{
    let a = p.paint(left_of(shape, x0)).paint(part);
    let b = p.paint(left_of(shape, x1));
    assert(a.cells =~= b.cells) by {
        assert forall|i: int| 0 <= i < p.cells.len() implies a.cells[i] == b.cells[i] by {
            let px = i % p.stride;
            let py = i / p.stride;
            assert(part(px, py) == if x0 <= px < x1 {
                shape(px, py)
            } else {
                None
            });
        }
    }
}

/// A position in the `k`-th of a line of blocks of `advance`.
proof fn lemma_in_block(d: int, k: int, advance: int)
    requires
        k * advance <= d < (k + 1) * advance,
        0 < advance,
        0 <= k,
    ensures
        d / advance == k,
        d % advance == d - k * advance,
{
    assert((k + 1) * advance == k * advance + advance) by (nonlinear_arith);
    lemma_fundamental_div_mod_converse(d, advance, k, d - k * advance);
}

proof fn lemma_aa_next(
    p: Picture,
    font: AaFont,
    x: int,
    y: int,
    s: Seq<char>,
    fg: Color,
    bg: Color,
    scale: int,
    k: int,
)
    requires
        font.wf(),
        1 <= scale,
        0 <= k < s.len(),
    ensures
        ({
            let advance = font.width * scale;
            let shape = aa_shape(p, font, x, y, s, fg, bg, scale);
            let before = p.paint(left_of(shape, x + k * advance));
            before.paint(
                aa_glyph_shape(before, font, x + k * advance, y, s[k], fg, bg, scale),
            ) == p.paint(left_of(shape, x + (k + 1) * advance))
        }),
{
    let advance = font.width * scale;
    let shape = aa_shape(p, font, x, y, s, fg, bg, scale);
    let before = p.paint(left_of(shape, x + k * advance));
    let part = aa_glyph_shape(before, font, x + k * advance, y, s[k], fg, bg, scale);
    assert(0 < advance) by (nonlinear_arith)
        requires
            advance == font.width * scale,
            font.width >= 1,
            scale >= 1,
    ;
    lemma_step(x, k, s.len() as int, advance);
    assert forall|px: int, py: int| #[trigger]
        part(px, py) == if x + k * advance <= px < x + (k + 1) * advance {
            shape(px, py)
        } else {
            None
        } by {
        if x + k * advance <= px < x + (k + 1) * advance {
            lemma_in_block(px - x, k, advance);
        }
    }
    lemma_column(p, shape, part, x + k * advance, x + (k + 1) * advance);
}

proof fn lemma_string_next(
    p: Picture,
    font: Font,
    x: int,
    y: int,
    s: Seq<char>,
    v: u32,
    scale: int,
    k: int,
)
    requires
        font.wf(),
        0 <= scale,
        0 <= k < s.len(),
    ensures
        ({
            let advance = (font.width + 1) * scale;
            let shape = string_shape(font, x, y, s, v, scale);
            p.paint(left_of(shape, x + k * advance)).paint(
                glyph_shape(font, x + k * advance, y, s[k], v, scale),
            ) == p.paint(left_of(shape, x + (k + 1) * advance))
        }),
{
    let advance = (font.width + 1) * scale;
    let shape = string_shape(font, x, y, s, v, scale);
    let part = glyph_shape(font, x + k * advance, y, s[k], v, scale);
    assert(0 <= font.width * scale <= advance) by (nonlinear_arith)
        requires
            advance == (font.width + 1) * scale,
            font.width >= 1,
            scale >= 0,
    ;
    lemma_step(x, k, s.len() as int, advance);
    assert forall|px: int, py: int| #[trigger]
        part(px, py) == if x + k * advance <= px < x + (k + 1) * advance {
            shape(px, py)
        } else {
            None
        } by {
        if x + k * advance <= px < x + (k + 1) * advance {
            lemma_in_block(px - x, k, advance);
        }
    }
    lemma_column(p, shape, part, x + k * advance, x + (k + 1) * advance);
}

/// Nothing is drawn outside the visible part, and drawing does not change the
/// form of a picture.
pub proof fn law_painting_keeps_the_form(p: Picture, shape: Shape)
    ensures
        p.paint(shape).width == p.width,
        p.paint(shape).height == p.height,
        p.paint(shape).stride == p.stride,
        p.paint(shape).bgr == p.bgr,
        p.paint(shape).cells.len() == p.cells.len(),
{
}

/// A filled rectangle has its colour inside, and everything outside is as before.
pub proof fn law_rect(p: Picture, x: int, y: int, w: int, h: int, c: Color, px: int, py: int)
    requires
        p.visible(px, py),
        p.width <= p.stride,
        p.cells.len() == p.stride * p.height,
    ensures
        x <= px < x + w && y <= py < y + h ==> p.rect(x, y, w, h, c).color(px, py) == c,
        !(x <= px < x + w && y <= py < y + h) ==> p.rect(x, y, w, h, c).at(px, py) == p.at(px, py),
{
    law_paint_is_local(p, rect_shape(x, y, w, h, p.pixel(c)), px, py);
    lemma_channels(c.r, c.g, c.b);
    lemma_channels(c.b, c.g, c.r);
}

/// A pixel holds its colour in its three low bytes: blue lowest in one format, red
/// lowest in the other.
pub proof fn law_pixel_format(p: Picture, c: Color)
    ensures
        p.bgr ==> p.pixel(c) == c.b + 256 * c.g + 65536 * c.r,
        !p.bgr ==> p.pixel(c) == c.r + 256 * c.g + 65536 * c.b,
{
}

/// A copied part shows the source, position by position, and everything outside
/// it, or where the source ends, is as before.
pub proof fn law_copy(
    p: Picture,
    src: Picture,
    sx: int,
    sy: int,
    w: int,
    h: int,
    x: int,
    y: int,
    px: int,
    py: int,
)
    requires
        p.visible(px, py),
        p.width <= p.stride,
        p.cells.len() == p.stride * p.height,
    ensures
        ({
            let (i, j) = (px - x, py - y);
            let inside = 0 <= i < w && 0 <= j < h && 0 <= sx + i < src.width && 0 <= sy + j
                < src.height;
            &&& inside ==> p.copied(src, sx, sy, w, h, x, y).at(px, py) == src.at(sx + i, sy + j)
            &&& !inside ==> p.copied(src, sx, sy, w, h, x, y).at(px, py) == p.at(px, py)
        }),
{
    law_paint_is_local(p, copy_shape(src, sx, sy, w, h, x, y), px, py);
}

/// A surface at half scale shows every other pixel of every other row.
pub proof fn law_half_copy(p: Picture, src: Picture, x: int, y: int, i: int, j: int)
    requires
        p.visible(x + i, y + j),
        p.width <= p.stride,
        p.cells.len() == p.stride * p.height,
    ensures
        0 <= i < src.width / 2 && 0 <= j < src.height / 2 ==> p.paint(half_shape(src, x, y)).at(
            x + i,
            y + j,
        ) == src.at(2 * i, 2 * j),
        !(0 <= i < src.width / 2 && 0 <= j < src.height / 2) ==> p.paint(
            half_shape(src, x, y),
        ).at(x + i, y + j) == p.at(x + i, y + j),
{
    law_paint_is_local(p, half_shape(src, x, y), x + i, y + j);
}

/// Text shows its characters one behind the other, a glyph each: dot `(i, j)` of
/// character `n` has the text's colour over the background's in the glyph's
/// opacity, and what is under a dot that is fully transparent stays.
pub proof fn law_text(
    p: Picture,
    font: AaFont,
    x: int,
    y: int,
    s: Seq<char>,
    fg: Color,
    bg: Color,
    n: int,
    i: int,
    j: int,
)
    requires
        font.width > 0,
        0 <= n < s.len(),
        0 <= i < font.width,
        0 <= j < font.height,
        p.visible(x + n * font.width + i, y + j),
        p.width <= p.stride,
        p.cells.len() == p.stride * p.height,
    ensures
        ({
            let (px, py) = (x + n * font.width + i, y + j);
            let a = font.alpha(s[n], i, j);
            let q = p.text(font, x, y, s, fg, bg);
            &&& a == 0 ==> q.at(px, py) == p.at(px, py)
            &&& a != 0 ==> q.color(px, py).r == (fg.r * a + bg.r * (255 - a)) / 255
                && q.color(px, py).g == (fg.g * a + bg.g * (255 - a)) / 255 && q.color(px, py).b
                == (fg.b * a + bg.b * (255 - a)) / 255
        }),
{
    let (px, py) = (x + n * font.width + i, y + j);
    let w = font.width as int;
    let shape = aa_shape(p, font, x, y, s, fg, bg, 1);
    law_paint_is_local(p, shape, px, py);
    lemma_fundamental_div_mod_converse(px - x, w, n, i);
    assert(0 <= px - x < s.len() * w) by (nonlinear_arith)
        requires
            px - x == n * w + i,
            0 <= n < s.len(),
            0 <= i < w,
    ;
    assert(font.width * 1 == w);
    let a = font.alpha(s[n], i, j);
    let c = blended(fg, bg, a);
    lemma_channels(c.r, c.g, c.b);
    lemma_channels(c.b, c.g, c.r);
    lemma_mixed_range(fg.r, bg.r, a);
    lemma_mixed_range(fg.g, bg.g, a);
    lemma_mixed_range(fg.b, bg.b, a);
}

proof fn lemma_mixed_range(f: u8, b: u8, a: u8)
    ensures
        0 <= (f * a + b * (255 - a)) / 255 <= 255,
{
    assert(0 <= f * a + b * (255 - a) <= 255 * 255) by (nonlinear_arith)
        requires
            0 <= f <= 255,
            0 <= b <= 255,
            0 <= a <= 255,
    ;
}

/// Text changes nothing outside its line.
pub proof fn law_text_is_local(
    p: Picture,
    font: AaFont,
    x: int,
    y: int,
    s: Seq<char>,
    fg: Color,
    bg: Color,
    px: int,
    py: int,
)
    requires
        p.visible(px, py),
        p.width <= p.stride,
        p.cells.len() == p.stride * p.height,
        !(x <= px < x + s.len() * font.width && y <= py < y + font.height),
    ensures
        p.text(font, x, y, s, fg, bg).at(px, py) == p.at(px, py),
{
    law_paint_is_local(p, aa_shape(p, font, x, y, s, fg, bg, 1), px, py);
    assert(font.width * 1 == font.width);
}

/// Full opacity shows the text's colour, and none the background's.
pub proof fn law_opacity(fg: u8, bg: u8)
    ensures
        mixed(fg, bg, 255) == fg,
        mixed(fg, bg, 0) == bg,
{
    assert((fg * 255 + bg * (255 - 255)) / 255 == fg);
    assert((fg * 0 + bg * (255 - 0)) / 255 == bg);
}

/// A character of the bitmap font has its colour where its glyph has a dot, each dot a
/// square block, and everything else is as before.
pub proof fn law_glyph(
    p: Picture,
    font: Font,
    x: int,
    y: int,
    ch: char,
    v: u32,
    scale: int,
    px: int,
    py: int,
)
    requires
        p.visible(px, py),
        p.width <= p.stride,
        p.cells.len() == p.stride * p.height,
        scale >= 1,
    ensures
        ({
            let q = p.paint(glyph_shape(font, x, y, ch, v, scale));
            let inside = x <= px < x + font.width * scale && y <= py < y + font.height * scale;
            let dot = font.dot(ch, (px - x) / scale, (py - y) / scale);
            &&& inside && dot ==> q.at(px, py) == v
            &&& !inside || !dot ==> q.at(px, py) == p.at(px, py)
        }),
{
    law_paint_is_local(p, glyph_shape(font, x, y, ch, v, scale), px, py);
}

/// A line in the bitmap font has its characters one dot apart.
pub proof fn law_string(
    p: Picture,
    font: Font,
    x: int,
    y: int,
    s: Seq<char>,
    v: u32,
    k: int,
    i: int,
    j: int,
)
    requires
        0 <= k < s.len(),
        0 <= i < font.width,
        0 <= j < font.height,
        p.visible(x + k * (font.width + 1) + i, y + j),
        p.width <= p.stride,
        p.cells.len() == p.stride * p.height,
    ensures
        ({
            let q = p.paint(string_shape(font, x, y, s, v, 1));
            let (px, py) = (x + k * (font.width + 1) + i, y + j);
            &&& font.dot(s[k], i, j) ==> q.at(px, py) == v
            &&& !font.dot(s[k], i, j) ==> q.at(px, py) == p.at(px, py)
        }),
{
    let a = font.width + 1;
    let (px, py) = (x + k * a + i, y + j);
    vstd::arithmetic::div_mod::lemma_fundamental_div_mod_converse(px - x, a, k, i);
    assert(k * a + i < s.len() * a && 0 <= k * a) by (nonlinear_arith)
        requires
            0 <= k < s.len(),
            0 <= i < a,
    ;
    assert((font.width + 1) * 1 == a);
    assert(font.width * 1 == font.width && font.height * 1 == font.height);
    assert(i / 1 == i && (py - y) / 1 == j);
    law_paint_is_local(p, string_shape(font, x, y, s, v, 1), px, py);
}

} // verus!
