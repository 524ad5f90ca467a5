//! The small tasks around the desktop: the round-trip probe, the supervised
//! test services and the keyboard.
use vstd::prelude::*;

use crate::abi::tag;
use crate::abi::Message;
use crate::metrics;
use crate::metrics::{Metrics, Snapshot};

verus! {

/// The probe's question: when it was asked.
pub fn ping_message(start_ns: u64) -> (msg: Message)
    ensures
        msg.tag == tag::PING,
        msg.sender == 0,
        msg.len == 8,
        msg.payload@ == seq![start_ns, 0u64, 0u64, 0u64],
{
    let payload: [u64; 4] = [start_ns, 0, 0, 0];
    assert(payload@ =~= seq![start_ns, 0u64, 0u64, 0u64]);
    Message { tag: tag::PING, sender: 0, len: 8, payload }
}

/// The round trip that a reply received at `now_ns` ends, in microseconds.
pub open spec fn round_trip(reply: Message, now_ns: u64) -> Option<u64> {
    if reply.tag == tag::PONG && reply.payload[0] > 0 && now_ns > reply.payload[0] {
        Some(((now_ns - reply.payload[0]) / 1000) as u64)
    } else {
        None
    }
}

/// The ping side of the probe has a reply, received at `now_ns`. Records the
/// round trip, and returns it for every 64th, to be logged.
pub fn ipc_probe_ping_el1(m: &mut Metrics, samples: &mut u64, reply: &Message, now_ns: u64) -> (log:
    Option<u64>)
    requires
        old(m).wf(),
        *old(samples) < u64::MAX,
    ensures
        final(m).wf(),
        match round_trip(*reply, now_ns) {
            Some(us) => {
                &&& final(m)@ == old(m)@.with_samples(
                    (Snapshot {
                        ipc_rtt_us: old(m)@.samples.ipc_rtt_us.stored(us),
                        ..old(m)@.samples
                    }),
                )
                &&& *final(samples) == *old(samples) + 1
                &&& log == if *final(samples) % 64 == 0 {
                    Some(us)
                } else {
                    None
                }
            },
            None => final(m)@ == old(m)@ && *final(samples) == *old(samples) && log is None,
        },
{
    if reply.tag != tag::PONG {
        return None;
    }
    let sent_ns: u64 = reply.payload[0];
    if sent_ns > 0 && now_ns > sent_ns {
        let rtt_us: u64 = (now_ns - sent_ns) / 1000;
        metrics::record_ipc_rtt_us(m, rtt_us);
        *samples = *samples + 1;
        if *samples % 64 == 0 {
            return Some(rtt_us);
        }
    }
    None
}

/// The pong side of the probe answers every message with its first word.
pub fn ipc_probe_pong_el1(msg: &Message) -> (reply: Message)
    ensures
        reply.tag == tag::PONG,
        reply.sender == 0,
        reply.len == 8,
        reply.payload@ == seq![msg.payload[0], 0u64, 0u64, 0u64],
{
    let payload: [u64; 4] = [msg.payload[0], 0, 0, 0];
    assert(payload@ =~= seq![msg.payload[0], 0u64, 0u64, 0u64]);
    Message { tag: tag::PONG, sender: 0, len: 8, payload }
}

/// A question that is answered at once measures the time since it was asked.
pub proof fn law_probe_measures_round_trip(ping: Message, pong: Message, start_ns: u64, now_ns: u64)
    requires
        ping.payload@ == seq![start_ns, 0u64, 0u64, 0u64],
        pong.tag == tag::PONG,
        pong.payload@ == seq![ping.payload[0], 0u64, 0u64, 0u64],
        0 < start_ns < now_ns,
    ensures
        round_trip(pong, now_ns) == Some(((now_ns - start_ns) / 1000) as u64),
{
    assert(ping.payload@[0] == start_ns);
    assert(pong.payload@[0] == ping.payload[0]);
}

/// What a supervised test service does next.
#[derive(Clone, Copy, Debug, PartialEq, Eq, Structural)]
pub enum Step {
    /// Give up the processor.
    Yield,
    /// Say that a beat has passed, and which.
    Beat(u64),
    /// All beats have passed.
    Done,
}

/// After `ticks` turns of a service that beats `beats` times, every `period`
/// turns.
pub open spec fn beat_step(ticks: u64, period: u64, beats: u64) -> Step {
    if ticks > period * beats {
        Step::Done
    } else if ticks == 0 || ticks % period != 0 {
        Step::Yield
    } else {
        Step::Beat((ticks / period) as u64)
    }
}

/// The pulse service beats three times, every 500 turns; then it exits cleanly.
/// `ticks` counts its turns, and goes up by one after each.
pub fn supervised_pulse_el1(ticks: u64) -> (s: Step)
    ensures
        s == beat_step(ticks, 500, 3),
{
    if ticks > 1500 {
        Step::Done
    } else if ticks % 500 != 0 || ticks == 0 {
        Step::Yield
    } else {
        Step::Beat(ticks / 500)
    }
}

/// The fault service beats twice, every 300 turns; then it faults.
pub fn supervised_fault_el1(ticks: u64) -> (s: Step)
    ensures
        s == beat_step(ticks, 300, 2),
{
    if ticks > 600 {
        Step::Done
    } else if ticks % 300 != 0 || ticks == 0 {
        Step::Yield
    } else {
        Step::Beat(ticks / 300)
    }
}

/// The key that a byte of the serial line stands for: Return is a line feed.
pub open spec fn key_of(byte: u8) -> u8 {
    if byte == 0x0D {
        0x0A
    } else {
        byte
    }
}

/// The message for a byte that came over the serial line at `now_ns`, which is
/// kept to measure the latency.
pub fn keyboard_el1(byte: Option<u8>, now_ns: u64) -> (msg: Option<Message>)
    ensures
        match byte {
            None => msg is None,
            Some(b) => msg matches Some(m) && m.tag == tag::KEY_DOWN && m.sender == 0 && m.len == 0
                && m.payload@ == seq![key_of(b) as u64, 0u64, now_ns, 0u64],
        },
{
    match byte {
        None => None,
        Some(byte) => {
            let ch: u8 = if byte == 0x0D { 0x0A } else { byte };
            let payload: [u64; 4] = [ch as u64, 0, now_ns, 0];
            assert(payload@ =~= seq![key_of(byte) as u64, 0u64, now_ns, 0u64]);
            Some(Message { tag: tag::KEY_DOWN, sender: 0, len: 0, payload })
        },
    }
}

/// Only an answer (tag 2) that carries when it was asked, before now, is measured, in
/// whole microseconds.
pub proof fn law_round_trip(reply: Message, now_ns: u64)
    ensures
        round_trip(reply, now_ns) is Some <==> reply.tag == 2 && 0 < reply.payload[0] < now_ns,
        round_trip(reply, now_ns) matches Some(us) ==> us == (now_ns - reply.payload[0]) / 1000,
{
}

/// A service that beats every `period` turns beats at each multiple of it, numbered
/// from one, and is done once the last beat has passed.
pub proof fn law_beats(ticks: u64, period: u64, beats: u64, n: u64)
    requires
        0 < period <= 10_000,
        beats <= 10_000,
    ensures
        1 <= n <= beats && ticks == n * period ==> beat_step(ticks, period, beats) == Step::Beat(n),
        ticks > period * beats <==> beat_step(ticks, period, beats) == Step::Done,
        beat_step(ticks, period, beats) == Step::Beat(n) ==> ticks == n * period && 1 <= n <= beats,
{
    let (t, p) = (ticks as int, period as int);
    if 1 <= n <= beats && t == n * p {
        assert(n * p <= p * beats) by (nonlinear_arith)
            requires
                n <= beats,
                p > 0,
        ;
        assert(t > 0) by (nonlinear_arith)
            requires
                t == n * p,
                n >= 1,
                p > 0,
        ;
        vstd::arithmetic::div_mod::lemma_div_multiples_vanish(n as int, p);
        vstd::arithmetic::div_mod::lemma_mod_multiples_basic(n as int, p);
        assert(p * n == n * p) by (nonlinear_arith);
    }
    vstd::arithmetic::div_mod::lemma_fundamental_div_mod(t, p);
    if beat_step(ticks, period, beats) == Step::Beat(n) {
        assert(t / p == n);
        assert(t == p * n);
        assert(p * n == n * p) by (nonlinear_arith);
        assert(1 <= n <= beats) by (nonlinear_arith)
            requires
                t == p * n,
                0 < t <= p * beats,
                p > 0,
        ;
    }
}

/// Return is the end of a line; every other byte is the key that it is.
pub proof fn law_keys(byte: u8)
    ensures
        byte == 13 ==> key_of(byte) == 10,
        byte != 13 ==> key_of(byte) == byte,
{
}

} // verus!
