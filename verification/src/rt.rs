//! What a service starts with, and the small tools it runs on.
use vstd::prelude::*;

use crate::abi::{Error, Handle, MAX_LOG};
use crate::text;

verus! {

/// What a service is started with: its granted handles, numbered from 0 in the
/// order of its grants, and its argument.
#[derive(Clone, Copy, Debug, PartialEq, Eq, Structural)]
pub struct Startup {
    handles: u32,
    arg: u64,
}

impl Startup {
    pub closed spec fn spec_handles(self) -> u32 {
        self.handles
    }

    pub closed spec fn spec_arg(self) -> u64 {
        self.arg
    }

    pub fn new(handles: u64, arg: u64) -> (s: Startup)
        ensures
            s.spec_handles() == handles as u32,
            s.spec_arg() == arg,
    {
        Startup { handles: handles as u32, arg }
    }

    /// The `index`-th granted handle.
    pub fn handle(&self, index: u32) -> (h: Handle)
        requires
            index < self.spec_handles(),
        ensures
            h == Handle(index),
    {
        Handle(index)
    }

    pub fn handle_count(&self) -> (n: u32)
        ensures
            n == self.spec_handles(),
    {
        self.handles
    }

    pub fn arg(&self) -> (a: u64)
        ensures
            a == self.spec_arg(),
    {
        self.arg
    }
}

/// The result of a system call: negative numbers are errors.
pub fn check(ret: i64) -> (r: Result<u64, Error>)
    ensures
        match r {
            Ok(v) => ret >= 0 && v == ret,
            Err(e) => {
                &&& ret < 0
                &&& forall|f: Error| #[trigger] f.spec_code() == ret ==> e == f
                &&& (forall|f: Error| #[trigger] f.spec_code() != ret) ==> e == Error::Invalid
            },
        },
{
    if ret < 0 {
        Err(Error::from_code(ret))
    } else {
        Ok(ret as u64)
    }
}

/// The bytes of a line after `chars` were written to it: each character whole,
/// up to the first that does not fit.
pub open spec fn written(bytes: Seq<u8>, chars: Seq<char>) -> Seq<u8>
    decreases chars.len(),
{
    if chars.len() == 0 {
        bytes
    } else {
        let encoded = vstd::utf8::encode_utf8(seq![chars[0]]);
        if bytes.len() + encoded.len() > MAX_LOG {
            bytes
        } else {
            written(bytes + encoded, chars.drop_first())
        }
    }
}

/// A line for the log; longer text is cut between two characters.
pub struct LineBuf {
    bytes: Vec<u8>,
}

impl LineBuf {
    pub closed spec fn view(&self) -> Seq<u8> {
        self.bytes@
    }

    pub open spec fn wf(&self) -> bool {
        self@.len() <= MAX_LOG
    }

    pub fn new() -> (l: LineBuf)
        ensures
            l.wf(),
            l@ == Seq::<u8>::empty(),
    {
        LineBuf { bytes: Vec::new() }
    }

    pub fn write_str(&mut self, s: &str)
        requires
            old(self).wf(),
        ensures
            final(self).wf(),
            final(self)@ == written(old(self)@, s@),
    {
        let mut chars: Vec<char> = Vec::new();
        text::push_str(&mut chars, s);
        assert(chars@ =~= s@);
        let mut i: usize = 0;
        assert(s@.skip(0) =~= s@);
        while i < chars.len()
            invariant
                i <= chars@.len(),
                chars@ == s@,
                self.wf(),
                written(old(self)@, s@) == written(self@, s@.skip(i as int)),
            decreases chars@.len() - i,
        {
            let encoded: Vec<u8> = text::encode_char(chars[i]);
            assert(s@.skip(i as int)[0] == chars@[i as int]);
            assert(s@.skip(i as int).drop_first() =~= s@.skip(i + 1));
            if self.bytes.len() + encoded.len() > MAX_LOG {
                return ;
            }
            let mut j: usize = 0;
            let ghost before = self@;
            while j < encoded.len()
                invariant
                    j <= encoded@.len(),
                    before.len() + encoded@.len() <= MAX_LOG,
                    self.bytes@ == before + encoded@.take(j as int),
                decreases encoded@.len() - j,
            {
                self.bytes.push(encoded[j]);
                j = j + 1;
                assert(self.bytes@ =~= before + encoded@.take(j as int));
            }
            assert(encoded@.take(encoded@.len() as int) =~= encoded@);
            i = i + 1;
        }
        assert(s@.skip(s@.len() as int).len() == 0);
    }

    /// The line as text.
    pub fn as_str(&self) -> (r: &str)
        ensures
            if vstd::utf8::valid_utf8(self@) {
                vstd::utf8::encode_utf8(r@) == self@
            } else {
                r@ == "?"@
            },
    {
        match text::utf8_text(self.bytes.as_slice()) {
            Some(s) => s,
            None => "?",
        }
    }
}

/// How many round trips make a batch.
pub const SAMPLES: usize = 100;

/// In ascending order.
pub open spec fn ascending(s: Seq<u64>) -> bool {
    forall|i: int, j: int| 0 <= i < j < s.len() ==> #[trigger] s[i] <= #[trigger] s[j]
}

/// Puts the values in order.
pub fn sort(v: &mut Vec<u64>)
    ensures
        ascending(final(v)@),
        final(v)@.to_multiset() == old(v)@.to_multiset(),
        final(v)@.len() == old(v)@.len(),
{
    let ghost v0 = v@;
    let mut n: usize = 0;
    while n < v.len()
        invariant
            n <= v@.len(),
            v@.len() == v0.len(),
            v@.to_multiset() == v0.to_multiset(),
            ascending(v@.take(n as int)),
        decreases v@.len() - n,
    {
        let mut i: usize = n;
        assert forall|a: int, b: int| 0 <= a < b < n implies #[trigger] v@[a] <= #[trigger] v@[b] by {
            assert(v@.take(n as int)[a] <= v@.take(n as int)[b]);
        }
        while i > 0 && v[i - 1] > v[i]
            invariant
                i <= n < v@.len(),
                v@.len() == v0.len(),
                v@.to_multiset() == v0.to_multiset(),
                forall|a: int, b: int|
                    0 <= a < b <= n && b != i ==> #[trigger] v@[a] <= #[trigger] v@[b],
            decreases i,
        {
            let ghost before = v@;
            let x: u64 = v[i - 1];
            let y: u64 = v[i];
            v[i - 1] = y;
            v[i] = x;
            proof {
                lemma_swap(before, i - 1, i as int);
                assert(v@ =~= before.update(i - 1, y).update(i as int, x));
            }
            i = i - 1;
        }
        n = n + 1;
        assert(ascending(v@.take(n as int))) by {
            assert forall|a: int, b: int| 0 <= a < b < n implies #[trigger] v@.take(n as int)[a]
                <= #[trigger] v@.take(n as int)[b] by {
                if b == i && a < i {
                    assert(v@[i - 1] <= v@[i as int]);
                    if a < i - 1 {
                        assert(v@[a] <= v@[i - 1]);
                    }
                }
            }
        }
    }
    assert(v@.take(n as int) =~= v@);
}

proof fn lemma_swap(s: Seq<u64>, i: int, j: int)
    requires
        0 <= i < j < s.len(),
    ensures
        s.update(i, s[j]).update(j, s[i]).to_multiset() == s.to_multiset(),
{
    vstd::seq_lib::to_multiset_update(s, i, s[j]);
    vstd::seq_lib::to_multiset_update(s.update(i, s[j]), j, s[i]);
    s.to_multiset_ensures();
    assert(s.to_multiset().insert(s[j]).remove(s[i]).insert(s[i]).remove(s[j])
        =~= s.to_multiset()) by {
        assert(s.to_multiset().count(s[i]) > 0);
    }
}

/// The middle of the values in ascending order; 0 without any.
pub open spec fn spec_median(s: Seq<u64>) -> u64 {
    if s.len() == 0 {
        0
    } else {
        s.sort_by(|a: u64, b: u64| a <= b)[s.len() as int / 2]
    }
}

/// The middle of the round trips that succeeded; 0 without any. Only they
/// count: a failure must not drag it towards zero.
pub fn median(rtts: &Vec<u64>) -> (r: u64)
    ensures
        r == spec_median(rtts@),
{
    let mut v: Vec<u64> = Vec::new();
    let mut i: usize = 0;
    while i < rtts.len()
        invariant
            i <= rtts@.len(),
            v@ == rtts@.take(i as int),
        decreases rtts@.len() - i,
    {
        v.push(rtts[i]);
        i = i + 1;
        assert(v@ =~= rtts@.take(i as int));
    }
    assert(v@ =~= rtts@);
    sort(&mut v);
    if v.len() == 0 {
        0
    } else {
        proof {
            let leq = |a: u64, b: u64| a <= b;
            rtts@.lemma_sort_by_ensures(leq);
            assert(vstd::relations::sorted_by(v@, leq));
            vstd::seq_lib::lemma_sorted_unique(v@, rtts@.sort_by(leq), leq);
        }
        v[v.len() / 2]
    }
}

/// Half of the round trips are no longer than the median, and half are no shorter; it
/// is one of them.
pub proof fn law_median(s: Seq<u64>)
    requires
        s.len() > 0,
    ensures
        s.contains(spec_median(s)),
        ({
            let t = s.sort_by(|a: u64, b: u64| a <= b);
            let h = s.len() as int / 2;
            &&& t.len() == s.len()
            &&& t.to_multiset() == s.to_multiset()
            &&& forall|i: int| 0 <= i <= h ==> #[trigger] t[i] <= spec_median(s)
            &&& forall|i: int| h <= i < t.len() ==> spec_median(s) <= #[trigger] t[i]
        }),
{
    let leq = |a: u64, b: u64| a <= b;
    let t = s.sort_by(leq);
    s.lemma_sort_by_ensures(leq);
    let h = s.len() as int / 2;
    assert(t.to_multiset() == s.to_multiset());
    t.to_multiset_ensures();
    s.to_multiset_ensures();
    assert(t.len() == s.len());
    assert(t.contains(t[h]));
    assert(s.to_multiset().count(t[h]) > 0);
    assert forall|i: int, j: int| 0 <= i < j < t.len() implies #[trigger] t[i] <= #[trigger] t[j] by {
        assert(leq(t[i], t[j]));
    }
}

/// What is written to a line goes on behind what is there, character by character,
/// until one does not fit into 256 bytes.
pub proof fn law_written(bytes: Seq<u8>, chars: Seq<char>)
    requires
        bytes.len() <= 256,
    ensures
        bytes.len() + vstd::utf8::encode_utf8(chars).len() <= 256 ==> written(bytes, chars) == bytes
            + vstd::utf8::encode_utf8(chars),
        written(bytes, chars).len() <= 256,
        bytes.is_prefix_of(written(bytes, chars)),
    decreases chars.len(),
{
    if chars.len() == 0 {
        vstd::utf8::is_ascii_chars_encode_utf8(chars);
        assert(bytes + vstd::utf8::encode_utf8(chars) =~= bytes);
        assert(bytes.subrange(0, bytes.len() as int) =~= bytes);
    } else {
        let (first, rest) = (seq![chars[0]], chars.drop_first());
        assert(first + rest =~= chars);
        text::lemma_encode_concat(first, rest);
        let e = vstd::utf8::encode_utf8(first);
        if bytes.len() + e.len() <= 256 {
            law_written(bytes + e, rest);
            assert(bytes + e + vstd::utf8::encode_utf8(rest) =~= bytes + vstd::utf8::encode_utf8(
                chars,
            ));
            let w = written(bytes, chars);
            assert(w.subrange(0, bytes.len() as int) =~= w.subrange(0, (bytes + e).len() as int)
                .subrange(0, bytes.len() as int));
            assert((bytes + e).subrange(0, bytes.len() as int) =~= bytes);
        } else {
            assert(bytes.subrange(0, bytes.len() as int) =~= bytes);
        }
    }
}

} // verus!
