//! Physical memory, as the kernel's identity map shows it.
use vstd::prelude::*;

use crate::bytes;

verus! {

/// Physical memory from address 0 on.
pub struct PhysMem {
    bytes: Vec<u8>,
}

/// `m` with the bytes of `s` in place of those from `at` on.
pub open spec fn splice(m: Seq<u8>, at: int, s: Seq<u8>) -> Seq<u8> {
    Seq::new(m.len(), |i: int| if at <= i < at + s.len() { s[i - at] } else { m[i] })
}

/// The 64-bit word at address `at`.
pub open spec fn word(m: Seq<u8>, at: int) -> u64 {
    bytes::le(m, at, 8) as u64
}

/// The 32-bit word at address `at`.
pub open spec fn word32(m: Seq<u8>, at: int) -> u32 {
    bytes::le(m, at, 4) as u32
}

/// `m` and `n` hold the same bytes in the page at `frame`.
pub open spec fn same_page(m: Seq<u8>, n: Seq<u8>, frame: int) -> bool {
    forall|i: int| frame <= i < frame + 4096 ==> #[trigger] m[i] == n[i]
}

pub proof fn lemma_word_same(m: Seq<u8>, n: Seq<u8>, at: int)
    requires
        forall|i: int| at <= i < at + 8 ==> #[trigger] m[i] == n[i],
    ensures
        word(m, at) == word(n, at),
{
    assert forall|i: int| 0 <= i < 8 implies m[#[trigger] (at + i)] == n[at + i] by {}
    bytes::lemma_le_same(m, at, n, at, 8);
}

/// A word reads back as it was written.
pub proof fn lemma_word_written(m: Seq<u8>, at: int, v: u64)
    requires
        0 <= at,
        at + 8 <= m.len(),
    ensures
        word(splice(m, at, bytes::le_bytes(v as int, 8)), at) == v,
{
    let s = bytes::le_bytes(v as int, 8);
    let n = splice(m, at, s);
    bytes::lemma_le_bytes_len(v as int, 8);
    bytes::lemma_pow256();
    bytes::lemma_le_round_trip(v as int, 8);
    assert forall|i: int| 0 <= i < 8 implies n[#[trigger] (at + i)] == s[0 + i] by {}
    bytes::lemma_le_same(n, at, s, 0, 8);
}

/// Writing a word leaves the words that do not overlap it alone.
pub proof fn lemma_word_elsewhere(m: Seq<u8>, at: int, v: u64, other: int)
    requires
        0 <= at,
        at + 8 <= m.len(),
        0 <= other,
        other + 8 <= m.len(),
        other + 8 <= at || at + 8 <= other,
    ensures
        word(splice(m, at, bytes::le_bytes(v as int, 8)), other) == word(m, other),
{
    bytes::lemma_le_bytes_len(v as int, 8);
    lemma_word_same(splice(m, at, bytes::le_bytes(v as int, 8)), m, other);
}

/// A run of zero bytes reads as the word 0.
pub proof fn lemma_word_zero(m: Seq<u8>, at: int)
    requires
        forall|i: int| at <= i < at + 8 ==> #[trigger] m[i] == 0,
    ensures
        word(m, at) == 0,
{
    reveal_with_fuel(bytes::le, 9);
}

impl PhysMem {
    pub closed spec fn view(self) -> Seq<u8> {
        self.bytes@
    }

    /// Every address in memory is a machine word.
    pub proof fn lemma_size(self)
        ensures
            self@.len() <= usize::MAX,
    {
        assert(self.bytes.len() == self@.len());
    }

    /// Memory that holds `bytes` from address 0 on.
    pub fn new(bytes: Vec<u8>) -> (m: PhysMem)
        ensures
            m@ == bytes@,
    {
        PhysMem { bytes }
    }

    /// How many bytes of memory there are.
    pub fn size(&self) -> (n: u64)
        ensures
            n == self@.len(),
    {
        self.bytes.len() as u64
    }

    pub fn read_byte(&self, at: u64) -> (v: u8)
        requires
            at < self@.len(),
        ensures
            v == self@[at as int],
    {
        assert(self.bytes.len() == self@.len());
        self.bytes[at as usize]
    }

    pub fn write_byte(&mut self, at: u64, v: u8)
        requires
            at < old(self)@.len(),
        ensures
            final(self)@ == old(self)@.update(at as int, v),
    {
        assert(self.bytes.len() == self@.len());
        self.bytes[at as usize] = v;
    }

    /// The 32-bit word at `at`, least significant byte first.
    pub fn read_u32(&self, at: u64) -> (r: u32)
        requires
            at + 4 <= self@.len(),
        ensures
            r == word32(self@, at as int),
    {
        proof {
            self.lemma_size();
            reveal_with_fuel(bytes::le, 5);
        }
        self.read_byte(at) as u32 + 0x100 * (self.read_byte(at + 1) as u32) + 0x1_0000 * (
        self.read_byte(at + 2) as u32) + 0x100_0000 * (self.read_byte(at + 3) as u32)
    }

    /// The 64-bit word at `at`, least significant byte first.
    pub fn read_word(&self, at: u64) -> (v: u64)
        requires
            at + 8 <= self@.len(),
        ensures
            v == word(self@, at as int),
    {
        assert(self.bytes.len() == self@.len());
        bytes::read_u64_le(self.bytes.as_slice(), at as usize)
    }

    pub fn write_word(&mut self, at: u64, v: u64)
        requires
            at + 8 <= old(self)@.len(),
        ensures
            final(self)@ == splice(old(self)@, at as int, bytes::le_bytes(v as int, 8)),
            final(self)@.len() == old(self)@.len(),
            word(final(self)@, at as int) == v,
            forall|i: int|
                0 <= i < old(self)@.len() && !(at <= i < at + 8) ==> #[trigger] final(self)@[i]
                    == old(self)@[i],
    {
        let mut spelled: Vec<u8> = Vec::new();
        bytes::push_le(&mut spelled, v, 8);
        proof {
            bytes::lemma_le_bytes_len(v as int, 8);
            lemma_word_written(self@, at as int, v);
            assert(spelled@ =~= bytes::le_bytes(v as int, 8));
        }
        self.write_slice(at, spelled.as_slice());
    }

    /// Puts `data` at `at`.
    pub fn write_slice(&mut self, at: u64, data: &[u8])
        requires
            at + data@.len() <= old(self)@.len(),
        ensures
            final(self)@ == splice(old(self)@, at as int, data@),
    {
        let mut i: usize = 0;
        proof {
            self.lemma_size();
        }
        assert(self@ =~= splice(old(self)@, at as int, data@.subrange(0, 0)));
        while i < data.len()
            invariant
                i <= data@.len(),
                at + data@.len() <= old(self)@.len() <= usize::MAX,
                self@ == splice(old(self)@, at as int, data@.subrange(0, i as int)),
            decreases data@.len() - i,
        {
            self.write_byte(at + i as u64, data[i]);
            i = i + 1;
            assert(self@ =~= splice(old(self)@, at as int, data@.subrange(0, i as int)));
        }
        assert(data@.subrange(0, i as int) =~= data@);
    }

    /// Fills `len` bytes from `at` on with zeros.
    pub fn zero(&mut self, at: u64, len: u64)
        requires
            at + len <= old(self)@.len(),
        ensures
            final(self)@ == splice(old(self)@, at as int, Seq::new(len as nat, |i: int| 0u8)),
            final(self)@.len() == old(self)@.len(),
            forall|i: int| at <= i < at + len ==> #[trigger] final(self)@[i] == 0,
            forall|i: int|
                0 <= i < old(self)@.len() && !(at <= i < at + len) ==> #[trigger] final(self)@[i]
                    == old(self)@[i],
    {
        let mut i: u64 = 0;
        proof {
            self.lemma_size();
        }
        assert(self@ =~= splice(old(self)@, at as int, Seq::new(0, |i: int| 0u8)));
        while i < len
            invariant
                i <= len,
                at + len <= old(self)@.len() <= usize::MAX,
                self@ == splice(old(self)@, at as int, Seq::new(i as nat, |i: int| 0u8)),
            decreases len - i,
        {
            self.write_byte(at + i, 0);
            i = i + 1;
            assert(self@ =~= splice(old(self)@, at as int, Seq::new(i as nat, |i: int| 0u8)));
        }
    }
}

} // verus!
