//! Little-endian numbers inside byte sequences.
use vstd::prelude::*;

verus! {

/// The number that the `n` bytes of `s` from `at` on spell, least significant first.
pub open spec fn le(s: Seq<u8>, at: int, n: nat) -> int
    decreases n,
{
    if n == 0 {
        0
    } else {
        s[at] + 256 * le(s, at + 1, (n - 1) as nat)
    }
}

/// The `n` bytes that spell `v`, least significant first.
pub open spec fn le_bytes(v: int, n: nat) -> Seq<u8>
    decreases n,
{
    if n == 0 {
        Seq::empty()
    } else {
        seq![(v % 256) as u8] + le_bytes(v / 256, (n - 1) as nat)
    }
}

/// 256 to the power of `n`.
pub open spec fn pow256(n: nat) -> int
    decreases n,
{
    if n == 0 {
        1
    } else {
        256 * pow256((n - 1) as nat)
    }
}

/// `n` bytes spell a number below 256 to the power of `n`.
pub proof fn lemma_le_bound(s: Seq<u8>, at: int, n: nat)
    ensures
        0 <= le(s, at, n) < pow256(n),
    decreases n,
{
    if n > 0 {
        lemma_le_bound(s, at + 1, (n - 1) as nat);
    }
}

pub proof fn lemma_pow256()
    ensures
        pow256(1) == 0x100,
        pow256(2) == 0x1_0000,
        pow256(4) == 0x1_0000_0000,
        pow256(8) == 0x1_0000_0000_0000_0000,
{
    reveal_with_fuel(pow256, 9);
}

/// Spelling a number takes exactly `n` bytes.
pub proof fn lemma_le_bytes_len(v: int, n: nat)
    ensures
        le_bytes(v, n).len() == n,
    decreases n,
{
    if n > 0 {
        lemma_le_bytes_len(v / 256, (n - 1) as nat);
    }
}

/// The number at `at` depends on its own `n` bytes only.
pub proof fn lemma_le_same(s: Seq<u8>, a: int, t: Seq<u8>, b: int, n: nat)
    requires
        forall|i: int| 0 <= i < n ==> s[#[trigger] (a + i)] == t[b + i],
    ensures
        le(s, a, n) == le(t, b, n),
    decreases n,
{
    if n > 0 {
        assert(s[a + 0] == t[b + 0]);
        assert forall|i: int| 0 <= i < n - 1 implies s[#[trigger] (a + 1 + i)] == t[b + 1 + i] by {
            assert(s[a + (1 + i)] == t[b + (1 + i)]);
        }
        lemma_le_same(s, a + 1, t, b + 1, (n - 1) as nat);
    }
}

/// Reading a number back gives what was spelled.
pub proof fn lemma_le_round_trip(v: int, n: nat)
    requires
        0 <= v < pow256(n),
    ensures
        le(le_bytes(v, n), 0, n) == v,
    decreases n,
{
    if n > 0 {
        let m = (n - 1) as nat;
        lemma_le_round_trip(v / 256, m);
        lemma_le_bytes_len(v / 256, m);
        let s = le_bytes(v, n);
        assert forall|i: int| 0 <= i < m implies s[#[trigger] (1 + i)] == le_bytes(v / 256, m)[0 + i] by {}
        lemma_le_same(s, 1, le_bytes(v / 256, m), 0, m);
    }
}

/// A number spelled again gives the bytes that it was read from.
pub proof fn lemma_le_respell(s: Seq<u8>, at: int, n: nat)
    requires
        0 <= at,
        at + n <= s.len(),
    ensures
        le_bytes(le(s, at, n), n) == s.subrange(at, at + n),
    decreases n,
{
    if n > 0 {
        let m = (n - 1) as nat;
        lemma_le_respell(s, at + 1, m);
        assert(s.subrange(at, at + n) =~= seq![s[at]] + s.subrange(at + 1, at + n));
    } else {
        assert(s.subrange(at, at + n) =~= Seq::<u8>::empty());
    }
}

/// The 16-bit number at `at`.
pub fn read_u16_le(s: &[u8], at: usize) -> (v: u16)
    requires
        at + 2 <= s@.len(),
    ensures
        v == le(s@, at as int, 2),
{
    reveal_with_fuel(le, 3);
    s[at] as u16 + 256 * (s[at + 1] as u16)
}

/// The 32-bit number at `at`.
pub fn read_u32_le(s: &[u8], at: usize) -> (v: u32)
    requires
        at + 4 <= s@.len(),
    ensures
        v == le(s@, at as int, 4),
{
    reveal_with_fuel(le, 5);
    s[at] as u32 + 256 * (s[at + 1] as u32 + 256 * (s[at + 2] as u32 + 256 * (s[at + 3] as u32)))
}

/// The 64-bit number at `at`.
pub fn read_u64_le(s: &[u8], at: usize) -> (v: u64)
    requires
        at + 8 <= s@.len(),
    ensures
        v == le(s@, at as int, 8),
{
    reveal_with_fuel(le, 9);
    let low: u64 = s[at] as u64 + 256 * (s[at + 1] as u64 + 256 * (s[at + 2] as u64 + 256 * (
    s[at + 3] as u64)));
    let high: u64 = s[at + 4] as u64 + 256 * (s[at + 5] as u64 + 256 * (s[at + 6] as u64 + 256 * (
    s[at + 7] as u64)));
    low + 0x1_0000_0000 * high
}

/// Appends the `n` bytes that spell `v`.
pub fn push_le(out: &mut Vec<u8>, v: u64, n: usize)
    requires
        n <= 8,
    ensures
        final(out)@ == old(out)@ + le_bytes(v as int, n as nat),
{
    let mut rest: u64 = v;
    let mut i: usize = 0;
    let ghost all = le_bytes(v as int, n as nat);
    proof {
        lemma_le_bytes_len(v as int, n as nat);
        assert(out@ + le_bytes(v as int, n as nat) =~= old(out)@ + all);
    }
    while i < n
        invariant
            0 <= i <= n,
            out@ + le_bytes(rest as int, (n - i) as nat) == old(out)@ + all,
        decreases n - i,
    {
        let ghost before = out@;
        let ghost tail = le_bytes((rest / 256) as int, (n - i - 1) as nat);
        out.push((rest % 256) as u8);
        proof {
            assert(out@ + tail =~= before + (seq![(rest % 256) as u8] + tail));
        }
        rest = rest / 256;
        i = i + 1;
    }
    assert(out@ + Seq::<u8>::empty() =~= out@);
}

/// The 16-bit number at `at`, byte by byte.
pub open spec fn u16_at(b: Seq<u8>, at: int) -> int {
    b[at] + 0x100 * b[at + 1]
}

/// The 32-bit number at `at`.
pub open spec fn u32_at(b: Seq<u8>, at: int) -> int {
    u16_at(b, at) + 0x1_0000 * u16_at(b, at + 2)
}

/// The 64-bit number at `at`.
pub open spec fn u64_at(b: Seq<u8>, at: int) -> int {
    u32_at(b, at) + 0x1_0000_0000 * u32_at(b, at + 4)
}

/// Numbers byte by byte are what `le` says.
pub proof fn lemma_raw(b: Seq<u8>, at: int)
    ensures
        le(b, at, 2) == u16_at(b, at),
        le(b, at, 4) == u32_at(b, at),
        le(b, at, 8) == u64_at(b, at),
        0 <= u16_at(b, at) < 0x1_0000,
        0 <= u32_at(b, at) < 0x1_0000_0000,
        0 <= u64_at(b, at) <= u64::MAX,
{
    reveal_with_fuel(le, 9);
}

} // verus!
