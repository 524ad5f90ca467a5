//! The PC speaker: which tones, and what is written to sound one.
use vstd::prelude::*;

use crate::tsc;

verus! {

pub const PIT_COMMAND: u16 = 0x43;

pub const PIT_CHANNEL_2: u16 = 0x42;

pub const CONTROL: u16 = 0x61;

/// A tone, ready to sound: what to write first, what then opens and later
/// closes the speaker, and for how long it sounds.
pub struct Tone {
    pub setup: Vec<(u16, u8)>,
    pub duration_ns: u64,
}

pub open spec fn tone_setup(freq_hz: u32) -> Seq<(u16, u8)> {
    let d = 1_193_182int / freq_hz as int;
    seq![
        (PIT_COMMAND, 0xB6u8),
        (PIT_CHANNEL_2, (d % 256) as u8),
        (PIT_CHANNEL_2, (d / 256 % 256) as u8),
    ]
}

/// A tone of this frequency and duration; none for silence.
pub fn beep(freq_hz: u32, duration_ms: u32) -> (r: Option<Tone>)
    ensures
        match r {
            None => freq_hz == 0 || duration_ms == 0,
            Some(t) => {
                &&& freq_hz > 0 && duration_ms > 0
                &&& t.setup@ == tone_setup(freq_hz)
                &&& t.duration_ns == duration_ms * 1_000_000
            },
        },
{
    if freq_hz == 0 || duration_ms == 0 {
        return None;
    }
    let (low, high): (u8, u8) = tsc::pit_divisor(freq_hz);
    let setup: Vec<(u16, u8)> = vec![
        (PIT_COMMAND, 0xB6u8),
        (PIT_CHANNEL_2, low),
        (PIT_CHANNEL_2, high),
    ];
    assert(setup@ =~= tone_setup(freq_hz));
    Some(Tone { setup, duration_ns: duration_ms as u64 * 1_000_000 })
}

proof fn lemma_control(prev: u8)
    by (bit_vector)
    ensures
        (prev | 3) % 4 == 3,
        (prev | 3) / 4 == prev / 4,
        (prev & 0xFC) % 4 == 0,
        (prev & 0xFC) / 4 == prev / 4,
{
}

/// The control register with the speaker on: its two lowest bits set.
pub fn speaker_on(prev: u8) -> (r: u8)
    ensures
        r == prev / 4 * 4 + 3,
{
    proof {
        lemma_control(prev);
    }
    prev | 3
}

/// The control register with the speaker off.
pub fn speaker_off(prev: u8) -> (r: u8)
    ensures
        r == prev / 4 * 4,
{
    proof {
        lemma_control(prev);
    }
    prev & 0xFC
}

/// How long a short silence is, in nanoseconds.
pub fn pause(ms: u32) -> (r: u64)
    ensures
        r == ms * 1_000_000,
{
    ms as u64 * 1_000_000
}

/// Whether `target_ns` have not passed yet since `start_ns`.
pub fn still_waiting(now_ns: u64, start_ns: u64, target_ns: u64) -> (r: bool)
    ensures
        r == (now_ns.wrapping_sub(start_ns) < target_ns),
{
    now_ns.wrapping_sub(start_ns) < target_ns
}

/// A part of a melody.
#[derive(Clone, Copy, Debug, PartialEq, Eq, Structural)]
pub enum Sound {
    /// Frequency and milliseconds.
    Tone(u32, u32),
    /// Milliseconds of silence.
    Pause(u32),
}

/// The startup chime: C5, E5, G5 and a long C6.
pub open spec fn chime() -> Seq<Sound> {
    seq![
        Sound::Tone(523, 60),
        Sound::Pause(20),
        Sound::Tone(659, 60),
        Sound::Pause(20),
        Sound::Tone(784, 60),
        Sound::Pause(20),
        Sound::Tone(1047, 120),
    ]
}

pub fn boot_chime() -> (r: Vec<Sound>)
    ensures
        r@ == chime(),
{
    let r: Vec<Sound> = vec![
        Sound::Tone(523, 60),
        Sound::Pause(20),
        Sound::Tone(659, 60),
        Sound::Pause(20),
        Sound::Tone(784, 60),
        Sound::Pause(20),
        Sound::Tone(1047, 120),
    ];
    assert(r@ =~= chime());
    r
}

/// The divisor that sets a tone is written low byte first, and is the number of ticks
/// of the interval timer in one period.
pub proof fn law_tone_setup(freq_hz: u32)
    requires
        19 <= freq_hz <= 1_193_182,
    ensures
        ({
            let t = tone_setup(freq_hz);
            let d = t[1].1 + 256 * t[2].1;
            &&& t.len() == 3
            &&& t[0] == (0x43u16, 0xB6u8)
            &&& t[1].0 == 0x42 && t[2].0 == 0x42
            &&& d * freq_hz <= 1_193_182 < (d + 1) * freq_hz
        }),
{
    let f = freq_hz as int;
    let d = 1_193_182int / f;
    vstd::arithmetic::div_mod::lemma_fundamental_div_mod(1_193_182, f);
    assert(0 <= d < 65536) by (nonlinear_arith)
        requires
            1_193_182 == f * d + 1_193_182int % f,
            0 <= 1_193_182int % f < f,
            f >= 19,
    ;
    assert(d * f <= 1_193_182 < (d + 1) * f) by (nonlinear_arith)
        requires
            1_193_182 == f * d + 1_193_182int % f,
            0 <= 1_193_182int % f < f,
    ;
}

} // verus!
