//! Time from counters: the PC's time stamp counter and the generic timer.
use vstd::arithmetic::div_mod::{
    lemma_div_is_ordered, lemma_fundamental_div_mod, lemma_fundamental_div_mod_converse,
};
use vstd::prelude::*;

verus! {

/// The frequency of the PC's interval timer.
pub const PIT_FREQ: u64 = 1_193_182;

/// About 10 ms at that frequency.
pub const CALIBRATION_DIVISOR: u64 = 11932;

/// A count of ticks in units of which there are `per_second`, cut to 64 bits; 0
/// while the frequency is unknown.
pub open spec fn converted(ticks: u64, freq: u64, per_second: int) -> u64 {
    if freq == 0 {
        0
    } else {
        (ticks * per_second / freq as int % 0x1_0000_0000_0000_0000) as u64
    }
}

fn convert(ticks: u64, freq: u64, per_second: u64) -> (r: u64)
    requires
        per_second <= 1_000_000_000,
    ensures
        r == converted(ticks, freq, per_second as int),
{
    if freq == 0 {
        return 0;
    }
    proof {
        assert(0 <= ticks * per_second <= 0xFFFF_FFFF_FFFF_FFFF * 1_000_000_000) by (nonlinear_arith)
            requires
                0 <= ticks <= 0xFFFF_FFFF_FFFF_FFFF,
                0 <= per_second <= 1_000_000_000,
        ;
    }
    let q: u128 = ticks as u128 * per_second as u128 / freq as u128;
    (q % 0x1_0000_0000_0000_0000) as u64
}

/// The time at this reading of the counter, in nanoseconds.
pub fn now_ns(ticks: u64, freq: u64) -> (r: u64)
    ensures
        r == converted(ticks, freq, 1_000_000_000),
{
    convert(ticks, freq, 1_000_000_000)
}

pub fn ticks_to_ns(ticks: u64, freq: u64) -> (r: u64)
    ensures
        r == converted(ticks, freq, 1_000_000_000),
{
    convert(ticks, freq, 1_000_000_000)
}

pub fn ticks_to_us(ticks: u64, freq: u64) -> (r: u64)
    ensures
        r == converted(ticks, freq, 1_000_000),
{
    convert(ticks, freq, 1_000_000)
}

/// The counter's frequency, from the ticks counted while the interval timer ran
/// down.
pub fn calibrate(ticks: u64) -> (freq: u64)
    requires
        ticks * PIT_FREQ <= u64::MAX,
    ensures
        freq == ticks * PIT_FREQ / CALIBRATION_DIVISOR as int,
{
    ticks * PIT_FREQ / CALIBRATION_DIVISOR
}

/// The time at this reading of the generic timer, in nanoseconds, rounded down;
/// 0 while the frequency is unknown.
pub fn time_ns(count: u64, freq: u64) -> (r: u64)
    requires
        freq > 0 ==> (count as int % freq as int) * 1_000_000_000 <= u64::MAX,
        freq > 0 ==> count * 1_000_000_000 / freq as int <= u64::MAX,
    ensures
        r == if freq == 0 {
            0
        } else {
            count * 1_000_000_000 / freq as int
        },
{
    if freq == 0 {
        return 0;
    }
    let secs: u64 = count / freq;
    let rem: u64 = count % freq;
    proof {
        let (c, f, s, m) = (count as int, freq as int, secs as int, rem as int);
        lemma_fundamental_div_mod(c, f);
        assert(0 <= m * 1_000_000_000 < f * 1_000_000_000) by (nonlinear_arith)
            requires
                0 <= m < f,
        ;
        let b = m * 1_000_000_000;
        lemma_fundamental_div_mod(b, f);
        assert(0 <= b / f < 1_000_000_000) by (nonlinear_arith)
            requires
                0 <= b < f * 1_000_000_000,
                f > 0,
                b == f * (b / f) + b % f,
                0 <= b % f < f,
        ;
        assert(c * 1_000_000_000 == f * (s * 1_000_000_000 + b / f) + b % f) by (nonlinear_arith)
            requires
                c == f * s + m,
                b == m * 1_000_000_000,
                b == f * (b / f) + b % f,
        ;
        assert((s * 1_000_000_000 + b / f) * f == f * (s * 1_000_000_000 + b / f))
            by (nonlinear_arith);
        lemma_fundamental_div_mod_converse(
            c * 1_000_000_000,
            f,
            s * 1_000_000_000 + b / f,
            b % f,
        );
    }
    secs * 1_000_000_000 + rem * 1_000_000_000 / freq
}

/// A later reading is no earlier time.
pub proof fn law_time_is_monotone(earlier: u64, later: u64, freq: u64)
    requires
        freq > 0,
        earlier <= later,
    ensures
        earlier * 1_000_000_000 / freq as int <= later * 1_000_000_000 / freq as int,
{
    lemma_div_is_ordered(earlier * 1_000_000_000, later * 1_000_000_000, freq as int);
}

/// The counter ticks between two interrupts, `hz` of which come in a second.
pub fn interval(freq: u64, hz: u32) -> (r: u64)
    requires
        hz > 0,
    ensures
        r == freq as int / hz as int,
{
    freq / hz as u64
}

/// The divisor that makes the interval timer tick `hz` times a second, as the
/// two bytes that are written to it.
pub fn pit_divisor(hz: u32) -> (r: (u8, u8))
    requires
        hz > 0,
    ensures
        r.0 == 1_193_182int / hz as int % 256,
        r.1 == 1_193_182int / hz as int / 256 % 256,
{
    let d: u32 = 1_193_182 / hz;
    ((d % 256) as u8, (d / 256 % 256) as u8)
}

/// A reading in ticks is told in units of which so many make a second, rounded down.
pub proof fn law_converted(ticks: u64, freq: u64, per_second: int)
    requires
        freq > 0,
        0 < per_second <= 1_000_000_000,
        ticks * per_second / freq as int <= u64::MAX,
    ensures
        converted(ticks, freq, per_second) * freq <= ticks * per_second,
        ticks * per_second < (converted(ticks, freq, per_second) + 1) * freq,
        converted(ticks, 0, per_second) == 0,
{
    let a = ticks * per_second;
    let f = freq as int;
    assert(a >= 0) by (nonlinear_arith)
        requires
            a == ticks * per_second,
            ticks >= 0,
            per_second > 0,
    ;
    lemma_fundamental_div_mod(a, f);
    let q = a / f;
    vstd::arithmetic::div_mod::lemma_div_pos_is_pos(a, f);
    vstd::arithmetic::div_mod::lemma_small_mod(q as nat, 0x1_0000_0000_0000_0000);
    assert(converted(ticks, freq, per_second) == q);
    assert(q * f <= a && a < (q + 1) * f) by (nonlinear_arith)
        requires
            a == f * q + a % f,
            0 <= a % f < f,
    ;
}

} // verus!
