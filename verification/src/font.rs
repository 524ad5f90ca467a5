//! The glyphs of the two fonts.
use vstd::prelude::*;

verus! {

/// A glyph is at most this wide and high.
pub const MAX_GLYPH: usize = 64;

/// The cells of one character.
pub struct Glyph {
    pub ch: char,
    pub cells: Vec<u8>,
}

/// The cells of the known characters, and those drawn for any other.
pub struct Glyphs {
    pub known: Vec<Glyph>,
    pub other: Vec<u8>,
}

/// The place of `ch` among the glyphs from place `from` on.
pub open spec fn place(known: Seq<Glyph>, ch: char, from: int) -> Option<int>
    decreases known.len() - from,
{
    if from >= known.len() {
        None
    } else if known[from].ch == ch {
        Some(from)
    } else {
        place(known, ch, from + 1)
    }
}

impl Glyphs {
    pub open spec fn cells(self, ch: char) -> Seq<u8> {
        match place(self.known@, ch, 0) {
            Some(i) => self.known@[i].cells@,
            None => self.other@,
        }
    }

    /// Every glyph has `n` cells.
    pub open spec fn sized(self, n: int) -> bool {
        &&& self.other@.len() == n
        &&& forall|i: int| 0 <= i < self.known@.len() ==> (#[trigger] self.known@[i]).cells@.len() == n
    }

    fn find(&self, ch: char, n: Ghost<int>) -> (r: &Vec<u8>)
        requires
            self.sized(n@),
        ensures
            r@ == self.cells(ch),
            r@.len() == n@,
    {
        let mut i: usize = 0;
        while i < self.known.len()
            invariant
                i <= self.known@.len(),
                place(self.known@, ch, 0) == place(self.known@, ch, i as int),
                self.sized(n@),
            decreases self.known@.len() - i,
        {
            if self.known[i].ch == ch {
                return &self.known[i].cells;
            }
            i = i + 1;
        }
        &self.other
    }
}

/// The bitmap font: a byte for each row of a glyph, its leftmost dot the
/// highest bit.
pub struct Font {
    pub width: usize,
    pub height: usize,
    pub glyphs: Glyphs,
}

impl Font {
    pub open spec fn wf(self) -> bool {
        &&& 1 <= self.width <= 8
        &&& 1 <= self.height <= MAX_GLYPH
        &&& self.glyphs.sized(self.height as int)
    }

    /// The glyph of `ch` has a dot in this column of this row.
    pub open spec fn dot(self, ch: char, col: int, row: int) -> bool {
        self.glyphs.cells(ch)[row] & (0x80u8 >> (col as u8)) != 0
    }

    /// The rows of a glyph.
    pub fn glyph(&self, ch: char) -> (r: &Vec<u8>)
        requires
            self.wf(),
        ensures
            r@ == self.glyphs.cells(ch),
            r@.len() == self.height,
    {
        self.glyphs.find(ch, Ghost(self.height as int))
    }
}

/// The anti-aliased font: a byte of opacity for each dot of a glyph, row by
/// row.
pub struct AaFont {
    pub width: usize,
    pub height: usize,
    pub glyphs: Glyphs,
}

impl AaFont {
    pub open spec fn wf(self) -> bool {
        &&& 1 <= self.width <= MAX_GLYPH
        &&& 1 <= self.height <= MAX_GLYPH
        &&& self.glyphs.sized(self.width * self.height)
    }

    /// The opacity of the glyph of `ch` in this column of this row.
    pub open spec fn alpha(self, ch: char, col: int, row: int) -> u8 {
        self.glyphs.cells(ch)[row * self.width + col]
    }

    pub fn glyph_alpha(&self, ch: char) -> (r: &Vec<u8>)
        requires
            self.wf(),
        ensures
            r@ == self.glyphs.cells(ch),
            r@.len() == self.width * self.height,
    {
        self.glyphs.find(ch, Ghost(self.width * self.height))
    }
}

/// A character is drawn with its own glyph, and one that is not known with the glyph
/// for all others.
pub proof fn law_glyph(g: Glyphs, ch: char, i: int)
    ensures
        0 <= i < g.known@.len() && g.known@[i].ch == ch && (forall|j: int|
            0 <= j < i ==> (#[trigger] g.known@[j]).ch != ch) ==> g.cells(ch)
            == g.known@[i].cells@,
        (forall|j: int| 0 <= j < g.known@.len() ==> (#[trigger] g.known@[j]).ch != ch) ==> g.cells(
            ch,
        ) == g.other@,
{
    if 0 <= i < g.known@.len() && g.known@[i].ch == ch && (forall|j: int|
        0 <= j < i ==> (#[trigger] g.known@[j]).ch != ch) {
        lemma_place(g.known@, ch, 0, i);
    }
    if forall|j: int| 0 <= j < g.known@.len() ==> (#[trigger] g.known@[j]).ch != ch {
        lemma_no_place(g.known@, ch, 0);
    }
}

proof fn lemma_place(known: Seq<Glyph>, ch: char, from: int, i: int)
    requires
        0 <= from <= i < known.len(),
        known[i].ch == ch,
        forall|j: int| from <= j < i ==> (#[trigger] known[j]).ch != ch,
    ensures
        place(known, ch, from) == Some(i),
    decreases i - from,
{
    if from < i {
        assert(known[from].ch != ch);
        lemma_place(known, ch, from + 1, i);
    }
}

proof fn lemma_no_place(known: Seq<Glyph>, ch: char, from: int)
    requires
        0 <= from <= known.len(),
        forall|j: int| from <= j < known.len() ==> (#[trigger] known[j]).ch != ch,
    ensures
        place(known, ch, from) is None,
    decreases known.len() - from,
{
    if from < known.len() {
        assert(known[from].ch != ch);
        lemma_no_place(known, ch, from + 1);
    }
}

} // verus!
