//! Which cache lines a range of memory takes.
use vstd::arithmetic::div_mod::lemma_fundamental_div_mod;
use vstd::prelude::*;

verus! {

/// How many lines of `line` bytes hold `len` bytes from `start` on.
pub open spec fn line_count(start: u64, len: u64, line: u64) -> int {
    if len == 0 {
        0
    } else {
        (start + len - 1) / line as int - start as int / line as int + 1
    }
}

/// The addresses of those lines.
pub open spec fn lines(start: u64, len: u64, line: u64) -> Seq<u64> {
    Seq::new(
        line_count(start, len, line) as nat,
        |i: int| ((start as int / line as int + i) * line) as u64,
    )
}

/// The addresses of the cache lines that hold `len` bytes from `start` on.
pub fn cache_lines(start: u64, len: u64, line: u64) -> (r: Vec<u64>)
    requires
        line > 0,
        start + len + line <= u64::MAX,
    ensures
        r@ == lines(start, len, line),
{
    let mut r: Vec<u64> = Vec::new();
    if len == 0 {
        assert(r@ =~= lines(start, len, line));
        return r;
    }
    let first: u64 = start / line;
    let last: u64 = (start + len - 1) / line;
    proof {
        vstd::arithmetic::div_mod::lemma_div_is_ordered(
            start as int,
            start + len - 1,
            line as int,
        );
        lemma_fundamental_div_mod(start + len - 1, line as int);
    }
    let mut i: u64 = first;
    while i <= last
        invariant
            line > 0,
            first <= i <= last + 1,
            first == start as int / line as int,
            last < u64::MAX,
            last * line <= u64::MAX,
            r@.len() == i - first,
            forall|j: int| 0 <= j < r@.len() ==> #[trigger] r@[j] == ((first + j) * line) as u64,
        decreases last + 1 - i,
    {
        proof {
            assert(0 <= i * line <= last * line) by (nonlinear_arith)
                requires
                    0 <= i <= last,
                    line > 0,
            ;
        }
        r.push(i * line);
        i = i + 1;
    }
    assert(r@ =~= lines(start, len, line));
    r
}

/// The lines to be written back before new code in this range runs. `ctr` is
/// the cache type register, which holds the logarithm of the line's size in
/// words.
pub fn sync_icache(start: u64, len: u64, ctr: u64) -> (r: Vec<u64>)
    requires
        start + len + 0x2_0000 <= u64::MAX,
    ensures
        r@ == lines(start, len, (4 * vstd::arithmetic::power2::pow2((ctr / 0x1_0000 % 16) as nat)) as u64),
{
    let log: u64 = ctr / 0x1_0000 % 16;
    let mut line: u64 = 4;
    let mut i: u64 = 0;
    proof {
        vstd::arithmetic::power2::lemma2_to64();
    }
    while i < log
        invariant
            i <= log < 16,
            line == 4 * vstd::arithmetic::power2::pow2(i as nat),
            line <= 0x2_0000,
            vstd::arithmetic::power2::pow2(i as nat) <= 0x8000,
        decreases log - i,
    {
        proof {
            vstd::arithmetic::power2::lemma_pow2_unfold((i + 1) as nat);
            vstd::arithmetic::power2::lemma_pow2_strictly_increases(i as nat, 15);
            vstd::arithmetic::power2::lemma2_to64();
        }
        line = line * 2;
        i = i + 1;
        proof {
            if i < 15 {
                vstd::arithmetic::power2::lemma_pow2_strictly_increases(i as nat, 15);
            }
        }
    }
    proof {
        vstd::arithmetic::power2::lemma_pow2_pos(log as nat);
    }
    cache_lines(start, len, line)
}

/// Every byte lies in one of the lines, each line holds one of the bytes, and they are
/// in order.
pub proof fn law_lines_cover(start: u64, len: u64, line: u64, x: int)
    requires
        line > 0,
        start + len + line <= u64::MAX,
        start <= x < start + len,
    ensures
        ({
            let i = x / line as int - start as int / line as int;
            let l = lines(start, len, line);
            0 <= i < l.len() && l[i] <= x < l[i] + line && l[i] % line == 0
        }),
{
    let n = line as int;
    let i = x / n - start as int / n;
    vstd::arithmetic::div_mod::lemma_div_is_ordered(start as int, x, n);
    vstd::arithmetic::div_mod::lemma_div_is_ordered(x, start + len - 1, n);
    vstd::arithmetic::div_mod::lemma_fundamental_div_mod(x, n);
    let a = (start as int / n + i) * line;
    assert(a == x / n * n);
    assert(x / n * n == n * (x / n)) by (nonlinear_arith);
    vstd::arithmetic::div_mod::lemma_mod_multiples_basic(x / n, n);
    assert(0 <= a <= x);
}

/// There is no line that holds none of the bytes.
pub proof fn law_lines_are_needed(start: u64, len: u64, line: u64, i: int)
    requires
        line > 0,
        start + len + line <= u64::MAX,
        0 <= i < lines(start, len, line).len(),
    ensures
        lines(start, len, line)[i] < start + len,
        start < lines(start, len, line)[i] + line,
{
    let n = line as int;
    let (s, e) = (start as int, start + len - 1);
    vstd::arithmetic::div_mod::lemma_fundamental_div_mod(s, n);
    vstd::arithmetic::div_mod::lemma_fundamental_div_mod(e, n);
    vstd::arithmetic::div_mod::lemma_div_is_ordered(s, e, n);
    let a = (s / n + i) * n;
    assert(s / n + i <= e / n);
    assert(s / n * n <= a && a <= e / n * n) by (nonlinear_arith)
        requires
            a == (s / n + i) * n,
            i >= 0,
            s / n + i <= e / n,
            n > 0,
    ;
    assert(s / n * n == n * (s / n) && e / n * n == n * (e / n)) by (nonlinear_arith);
    vstd::arithmetic::div_mod::lemma_div_pos_is_pos(s, n);
    assert(0 <= s / n * n) by (nonlinear_arith)
        requires
            s / n >= 0,
            n > 0,
    ;
}

} // verus!
