//! The small user programs: what each does between its system calls.
use vstd::prelude::*;

use crate::abi::{Error, Message};
use crate::probes::Step;
use crate::rt;
use crate::text;

verus! {

/// The round trips of one batch that `ping` measures.
pub struct Batch {
    pub rtts: Vec<u64>,
    pub failures: usize,
}

impl Batch {
    pub open spec fn wf(&self) -> bool {
        self.rtts@.len() + self.failures <= rt::SAMPLES
    }

    pub fn new() -> (b: Batch)
        ensures
            b.wf(),
            b.rtts@ == Seq::<u64>::empty(),
            b.failures == 0,
    {
        Batch { rtts: Vec::new(), failures: 0 }
    }

    pub open spec fn spec_finished(&self) -> bool {
        self.rtts@.len() + self.failures == rt::SAMPLES
    }

    /// Whether every round trip of the batch was tried.
    pub fn finished(&self) -> (r: bool)
        requires
            self.wf(),
        ensures
            r == self.spec_finished(),
    {
        self.rtts.len() + self.failures == rt::SAMPLES
    }

    /// A question could not be sent, or its reply not received.
    pub fn failed(&mut self)
        requires
            old(self).wf(),
            !old(self).spec_finished(),
        ensures
            final(self).wf(),
            final(self).rtts@ == old(self).rtts@,
            final(self).failures == old(self).failures + 1,
    {
        self.failures = self.failures + 1;
    }

    /// A reply, received at `now_ns`, says when its question was sent.
    pub fn replied(&mut self, reply: &Message, now_ns: u64)
        requires
            old(self).wf(),
            !old(self).spec_finished(),
        ensures
            final(self).wf(),
            final(self).rtts@ == old(self).rtts@.push(
                if now_ns > reply.payload[0] {
                    (now_ns - reply.payload[0]) as u64
                } else {
                    0
                },
            ),
            final(self).failures == old(self).failures,
    {
        let sent_ns: u64 = reply.payload[0];
        self.rtts.push(if now_ns > sent_ns { now_ns - sent_ns } else { 0 });
    }

    /// The line that tells of the batch.
    pub fn report(&self) -> (line: Vec<char>)
        requires
            self.wf(),
        ensures
            line@ == "rtt_median_ns="@ + text::decimal(rt::spec_median(self.rtts@) as nat)
                + " samples="@ + text::decimal(self.rtts@.len()) + " failures="@ + text::decimal(
                self.failures as nat,
            ),
    {
        let mut line: Vec<char> = Vec::new();
        text::push_str(&mut line, "rtt_median_ns=");
        text::push_u64(&mut line, rt::median(&self.rtts));
        text::push_str(&mut line, " samples=");
        text::push_u64(&mut line, self.rtts.len() as u64);
        text::push_str(&mut line, " failures=");
        text::push_u64(&mut line, self.failures as u64);
        assert(line@ =~= "rtt_median_ns="@ + text::decimal(rt::spec_median(self.rtts@) as nat)
            + " samples="@ + text::decimal(self.rtts@.len()) + " failures="@ + text::decimal(
            self.failures as nat,
        ));
        line
    }
}

/// What a program does in its `turn`-th turn that gives up the processor
/// `yields` times before each of `beats` beats.
pub open spec fn turn_step(turn: u64, yields: int, beats: int) -> Step {
    if turn >= beats * (yields + 1) {
        Step::Done
    } else if turn as int % (yields + 1) == yields {
        Step::Beat((turn as int / (yields + 1) + 1) as u64)
    } else {
        Step::Yield
    }
}

/// `pulse` beats three times and exits cleanly.
pub fn pulse(turn: u64) -> (s: Step)
    ensures
        s == turn_step(turn, 500, 3),
{
    if turn >= 1503 {
        Step::Done
    } else if turn % 501 == 500 {
        Step::Beat(turn / 501 + 1)
    } else {
        Step::Yield
    }
}

/// `fault` beats twice and crashes.
pub fn fault(turn: u64) -> (s: Step)
    ensures
        s == turn_step(turn, 300, 2),
{
    if turn >= 602 {
        Step::Done
    } else if turn % 301 == 300 {
        Step::Beat(turn / 301 + 1)
    } else {
        Step::Yield
    }
}

/// A forbidden access.
#[derive(Clone, Copy, Debug, PartialEq, Eq, Structural)]
pub enum Attempt {
    WriteOwnCode,
    OverflowStack,
    Read(u64),
}

/// What `probe-bad` attempts, by its argument.
pub fn attempt(arg: u64) -> (a: Attempt)
    ensures
        a == if arg == 0 {
            Attempt::WriteOwnCode
        } else if arg == 1 {
            Attempt::OverflowStack
        } else {
            Attempt::Read(arg)
        },
{
    match arg {
        0 => Attempt::WriteOwnCode,
        1 => Attempt::OverflowStack,
        address => Attempt::Read(address),
    }
}

/// What `probe-chan` does.
#[derive(Clone, Copy, Debug, PartialEq, Eq, Structural)]
pub enum Role {
    /// Uses channels and pointers wrongly, and reports each refusal.
    Misuse,
    /// Receives, and exits after the first message.
    BufferReceiver,
    /// Sends three messages, and exits.
    BufferSender,
}

/// What `probe-chan` does, by its argument.
pub fn role(arg: u64) -> (r: Role)
    ensures
        r == if arg == 1 {
            Role::BufferReceiver
        } else if arg == 2 {
            Role::BufferSender
        } else {
            Role::Misuse
        },
{
    match arg {
        1 => Role::BufferReceiver,
        2 => Role::BufferSender,
        _ => Role::Misuse,
    }
}

/// The message that carries a sequence number.
pub fn buffer_message(seq: u64) -> (m: Message)
    ensures
        m.tag == 0,
        m.sender == 0,
        m.len == 8,
        m.payload@ == seq![seq, 0u64, 0u64, 0u64],
{
    let m: Message = Message::new(0).with_data(0, seq);
    assert(m.payload@ =~= seq![seq, 0u64, 0u64, 0u64]);
    m
}

/// The line for a message that the receiver got, and whether it exits: after
/// the first, so that the others can only reach a restarted instance.
pub fn buffer_received(m: &Message) -> (r: (Vec<char>, bool))
    ensures
        r.0@ == "[buf] got seq="@ + text::decimal(m.payload[0] as nat),
        r.1 == (m.payload[0] == 1),
{
    let mut line: Vec<char> = Vec::new();
    text::push_str(&mut line, "[buf] got seq=");
    text::push_u64(&mut line, m.payload[0]);
    assert(line@ =~= "[buf] got seq="@ + text::decimal(m.payload[0] as nat));
    (line, m.payload[0] == 1)
}

/// How a line tells of a result.
pub open spec fn outcome_text(result: Result<(), Error>) -> Seq<char> {
    match result {
        Ok(()) => " result=ok code=0"@,
        Err(e) => " result=refused code=-"@ + text::decimal((-e.spec_code()) as nat),
    }
}

fn push_outcome(line: &mut Vec<char>, result: Result<(), Error>)
    ensures
        final(line)@ == old(line)@ + outcome_text(result),
{
    match result {
        Ok(()) => text::push_str(line, " result=ok code=0"),
        Err(e) => {
            let code: i64 = e.code();
            text::push_str(line, " result=refused code=-");
            text::push_u64(line, (-code) as u64);
            assert(line@ =~= old(line)@ + outcome_text(result));
        },
    }
}

/// The line for one deliberate mistake.
pub fn report(case: &str, result: Result<(), Error>) -> (line: Vec<char>)
    ensures
        line@ == "[test] "@ + case@ + outcome_text(result),
{
    let mut line: Vec<char> = Vec::new();
    text::push_str(&mut line, "[test] ");
    text::push_str(&mut line, case);
    push_outcome(&mut line, result);
    assert(line@ =~= "[test] "@ + case@ + outcome_text(result));
    line
}

/// The line for filling a queue: after how many messages the last result came.
pub fn queue_report(result: Result<(), Error>, sent: u64) -> (line: Vec<char>)
    ensures
        line@ == "[test] queue-full"@ + outcome_text(result) + " after="@ + text::decimal(
            sent as nat,
        ),
{
    let mut line: Vec<char> = report("queue-full", result);
    text::push_str(&mut line, " after=");
    text::push_u64(&mut line, sent);
    proof {
        reveal_strlit("[test] ");
        reveal_strlit("queue-full");
        reveal_strlit("[test] queue-full");
        assert("[test] "@ + "queue-full"@ =~= "[test] queue-full"@);
        assert(line@ =~= "[test] queue-full"@ + outcome_text(result) + " after="@ + text::decimal(
            sent as nat,
        ));
    }
    line
}

/// A service that gives up the processor `yields` times before each beat.
pub proof fn law_turns(turn: u64, yields: int, beats: int, n: int)
    requires
        0 <= yields <= 10_000,
        1 <= n <= beats <= 10_000,
    ensures
        turn == n * (yields + 1) - 1 ==> turn_step(turn, yields, beats) == Step::Beat(n as u64),
        turn >= beats * (yields + 1) <==> turn_step(turn, yields, beats) == Step::Done,
        (n - 1) * (yields + 1) <= turn < n * (yields + 1) - 1 ==> turn_step(turn, yields, beats)
            == Step::Yield,
{
    let p = yields + 1;
    let t = turn as int;
    assert(n * p <= beats * p && n * p == (n - 1) * p + p) by (nonlinear_arith)
        requires
            n <= beats,
            p > 0,
    ;
    if (n - 1) * p <= t < n * p {
        let r = t - (n - 1) * p;
        assert(t == (n - 1) * p + r);
        vstd::arithmetic::div_mod::lemma_fundamental_div_mod_converse(t, p, n - 1, r);
    }
}

/// The outcome of a probe is told with its code.
pub proof fn law_outcome_text(e: Error)
    ensures
        outcome_text(Ok(())) == " result=ok code=0"@,
        e == Error::NoRight ==> outcome_text(Err(e)) == " result=refused code=-"@ + text::decimal(3),
        e == Error::NoSuchHandle ==> outcome_text(Err(e)) == " result=refused code=-"@
            + text::decimal(2),
        e == Error::BadPointer ==> outcome_text(Err(e)) == " result=refused code=-"@
            + text::decimal(4),
        e == Error::NotPermitted ==> outcome_text(Err(e)) == " result=refused code=-"@
            + text::decimal(8),
{
}

} // verus!
