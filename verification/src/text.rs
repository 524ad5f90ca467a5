//! Bytes as text.
use vstd::prelude::*;
use vstd::string::{StrSliceExecFns, StringExecFns};

verus! {

/// `core::str::from_utf8`: the text that `bytes` spell, if they are UTF-8.
#[verifier::external_body]
pub(crate) fn utf8_text(bytes: &[u8]) -> (r: Option<&str>)
    ensures
        match r {
            Some(s) => vstd::utf8::valid_utf8(bytes@) && vstd::utf8::encode_utf8(s@) == bytes@,
            None => !vstd::utf8::valid_utf8(bytes@),
        },
{
    core::str::from_utf8(bytes).ok()
}

/// Whether the two byte strings are the same.
pub fn same_bytes(a: &[u8], b: &[u8]) -> (r: bool)
    ensures
        r == (a@ == b@),
{
    if a.len() != b.len() {
        return false;
    }
    let mut i: usize = 0;
    while i < a.len()
        invariant
            i <= a@.len() == b@.len(),
            forall|j: int| 0 <= j < i ==> a@[j] == b@[j],
        decreases a@.len() - i,
    {
        if a[i] != b[i] {
            return false;
        }
        i = i + 1;
    }
    assert(a@ =~= b@);
    true
}

/// Whether `a` begins with `prefix`.
pub fn starts_with(a: &[u8], prefix: &[u8]) -> (r: bool)
    ensures
        r == prefix@.is_prefix_of(a@),
{
    if a.len() < prefix.len() {
        return false;
    }
    let mut i: usize = 0;
    while i < prefix.len()
        invariant
            i <= prefix@.len() <= a@.len(),
            forall|j: int| 0 <= j < i ==> a@[j] == prefix@[j],
        decreases prefix@.len() - i,
    {
        if a[i] != prefix[i] {
            assert(a@.subrange(0, prefix@.len() as int)[i as int] != prefix@[i as int]);
            return false;
        }
        i = i + 1;
    }
    assert(a@.subrange(0, prefix@.len() as int) =~= prefix@);
    true
}

/// What `<[u8]>::utf8_chunks` makes of `bytes`: stretches of text, each with the
/// bytes behind it that are not UTF-8.
pub uninterp spec fn utf8_parts(bytes: Seq<u8>) -> Seq<(Seq<char>, Seq<u8>)>;

/// `<[u8]>::utf8_chunks`: the stretches of text in `bytes`, each with the bytes
/// behind it that are not UTF-8. Bytes that are UTF-8 throughout are one stretch.
/// How invalid bytes are cut into stretches is left to the name.
#[verifier::external_body]
fn split_utf8(bytes: &[u8]) -> (r: Vec<(String, Vec<u8>)>)
    ensures
        r@.len() == utf8_parts(bytes@).len(),
        forall|i: int|
            0 <= i < r@.len() ==> (#[trigger] r@[i]).0@ == utf8_parts(bytes@)[i].0 && r@[i].1@
                == utf8_parts(bytes@)[i].1,
        bytes@.len() > 0 && vstd::utf8::valid_utf8(bytes@) ==> r@.len() == 1 && r@[0].0@
            == vstd::utf8::decode_utf8(bytes@) && r@[0].1@.len() == 0,
{
    bytes.utf8_chunks().map(|c| (c.valid().to_string(), c.invalid().to_vec())).collect()
}

/// Appends the characters of `s`.
pub fn push_str(out: &mut Vec<char>, s: &str)
    ensures
        final(out)@ == old(out)@ + s@,
{
    let n: usize = s.unicode_len();
    let mut i: usize = 0;
    assert(out@ =~= old(out)@ + s@.subrange(0, 0));
    while i < n
        invariant
            i <= n,
            n == s@.len(),
            out@ == old(out)@ + s@.subrange(0, i as int),
        decreases n - i,
    {
        out.push(s.get_char(i));
        i = i + 1;
        assert(out@ =~= old(out)@ + s@.subrange(0, i as int));
    }
    assert(s@.subrange(0, n as int) =~= s@);
}

/// A character that could break a line: a control character, or the Unicode
/// line or paragraph separator.
pub open spec fn breaks_line(c: char) -> bool {
    c as u32 <= 0x1F || 0x7F <= c as u32 <= 0x9F || c as u32 == 0x2028 || c as u32 == 0x2029
}

/// `c`, or `?` where `c` could break a line.
pub open spec fn tamed(c: char) -> char {
    if breaks_line(c) {
        '?'
    } else {
        c
    }
}

/// What a log line shows of one stretch of text.
pub open spec fn tamed_part(part: (Seq<char>, Seq<u8>)) -> Seq<char> {
    let shown = part.0.map_values(|c: char| tamed(c));
    if part.1.len() > 0 {
        shown.push('?')
    } else {
        shown
    }
}

/// What a log line shows of the first `n` stretches.
pub open spec fn tamed_parts(parts: Seq<(Seq<char>, Seq<u8>)>, n: int) -> Seq<char>
    decreases n,
{
    if n <= 0 {
        Seq::empty()
    } else {
        tamed_parts(parts, n - 1) + tamed_part(parts[n - 1])
    }
}

fn tame(c: char) -> (r: char)
    ensures
        r == tamed(c),
{
    let n: u32 = c as u32;
    if n <= 0x1F || (0x7F <= n && n <= 0x9F) || n == 0x2028 || n == 0x2029 {
        '?'
    } else {
        c
    }
}

/// Appends one stretch of text with every character that could break a line,
/// and any invalid bytes behind it, shown as `?`.
fn push_tamed(out: &mut Vec<char>, s: &str, invalid: &Vec<u8>)
    ensures
        final(out)@ == old(out)@ + tamed_part((s@, invalid@)),
{
    let n: usize = s.unicode_len();
    let mut i: usize = 0;
    let ghost shown = s@.map_values(|c: char| tamed(c));
    assert(out@ =~= old(out)@ + shown.subrange(0, 0));
    while i < n
        invariant
            i <= n,
            n == s@.len(),
            shown == s@.map_values(|c: char| tamed(c)),
            out@ == old(out)@ + shown.subrange(0, i as int),
        decreases n - i,
    {
        out.push(tame(s.get_char(i)));
        i = i + 1;
        assert(out@ =~= old(out)@ + shown.subrange(0, i as int));
    }
    assert(shown.subrange(0, n as int) =~= shown);
    if invalid.len() > 0 {
        out.push('?');
        assert(out@ =~= old(out)@ + shown.push('?'));
    }
}

/// Appends stretches of text as a log line shows them.
pub fn push_parts(out: &mut Vec<char>, parts: &Vec<(String, Vec<u8>)>)
    ensures
        final(out)@ == old(out)@ + tamed_parts(
            Seq::new(parts@.len(), |i: int| (parts@[i].0@, parts@[i].1@)),
            parts@.len() as int,
        ),
{
    let ghost all = Seq::new(parts@.len(), |i: int| (parts@[i].0@, parts@[i].1@));
    let mut i: usize = 0;
    assert(out@ =~= old(out)@ + tamed_parts(all, 0));
    while i < parts.len()
        invariant
            i <= parts@.len(),
            all == Seq::new(parts@.len(), |i: int| (parts@[i].0@, parts@[i].1@)),
            out@ == old(out)@ + tamed_parts(all, i as int),
        decreases parts@.len() - i,
    {
        let ghost before = out@;
        push_tamed(out, parts[i].0.as_str(), &parts[i].1);
        i = i + 1;
        proof {
            assert(all[i - 1] == (parts@[i - 1].0@, parts@[i - 1].1@));
            assert(out@ =~= old(out)@ + tamed_parts(all, i as int));
        }
    }
}

/// What a log line shows of bytes that a task gave as text.
pub open spec fn tamed_bytes(bytes: Seq<u8>) -> Seq<char> {
    if vstd::utf8::valid_utf8(bytes) {
        vstd::utf8::decode_utf8(bytes).map_values(|c: char| tamed(c))
    } else {
        tamed_parts(utf8_parts(bytes), utf8_parts(bytes).len() as int)
    }
}

/// Appends bytes that a task gave as text, as a log line shows them.
pub fn push_untrusted(out: &mut Vec<char>, bytes: &[u8])
    ensures
        final(out)@ == old(out)@ + tamed_bytes(bytes@),
{
    assert(bytes.len() == bytes@.len());
    if bytes.len() == 0 {
        proof {
            vstd::utf8::decode_utf8_encode_utf8(bytes@);
            assert(bytes@ =~= Seq::<u8>::empty());
            assert(out@ =~= old(out)@ + tamed_bytes(bytes@));
        }
        return ;
    }
    let parts: Vec<(String, Vec<u8>)> = split_utf8(bytes);
    push_parts(out, &parts);
    proof {
        let all = Seq::new(parts@.len(), |i: int| (parts@[i].0@, parts@[i].1@));
        assert(all =~= utf8_parts(bytes@));
        if vstd::utf8::valid_utf8(bytes@) {
            assert(tamed_parts(all, 0) =~= Seq::<char>::empty());
            assert(tamed_parts(all, 1) =~= tamed_parts(all, 0) + tamed_part(all[0]));
            assert(tamed_parts(all, 1) =~= tamed_bytes(bytes@));
        }
    }
}

/// The stretches that a log line shows hold nothing that could break it.
proof fn lemma_parts_stay_on_their_line(parts: Seq<(Seq<char>, Seq<u8>)>, n: int, i: int)
    requires
        0 <= n <= parts.len(),
        0 <= i < tamed_parts(parts, n).len(),
    ensures
        !breaks_line(tamed_parts(parts, n)[i]),
    decreases n,
{
    if n > 0 {
        let front = tamed_parts(parts, n - 1);
        if i < front.len() {
            lemma_parts_stay_on_their_line(parts, n - 1, i);
        } else {
            let part = parts[n - 1];
            let j = i - front.len();
            assert(tamed_parts(parts, n)[i] == tamed_part(part)[j]);
        }
    }
}

/// Nothing that a task logs can break its line.
pub proof fn law_log_stays_on_its_line(bytes: Seq<u8>, i: int)
    requires
        0 <= i < tamed_bytes(bytes).len(),
    ensures
        !breaks_line(tamed_bytes(bytes)[i]),
{
    if !vstd::utf8::valid_utf8(bytes) {
        lemma_parts_stay_on_their_line(utf8_parts(bytes), utf8_parts(bytes).len() as int, i);
    }
}

/// A text without anything that could break a line is logged as it is.
pub proof fn law_plain_text_is_logged_as_it_is(s: Seq<char>)
    requires
        forall|i: int| 0 <= i < s.len() ==> !breaks_line(#[trigger] s[i]),
    ensures
        tamed_bytes(vstd::utf8::encode_utf8(s)) == s,
{
    vstd::utf8::encode_utf8_valid_utf8(s);
    vstd::utf8::encode_utf8_decode_utf8(s);
    assert(s.map_values(|c: char| tamed(c)) =~= s);
}

/// A digit as a character.
pub open spec fn digit(d: int) -> char {
    (48 + d) as u8 as char
}

/// A number in decimal.
pub open spec fn decimal(n: nat) -> Seq<char>
    decreases n,
{
    if n < 10 {
        seq![digit(n as int)]
    } else {
        decimal(n / 10).push(digit((n % 10) as int))
    }
}

/// A number below 10 to the `k` has at most `k` digits.
pub proof fn lemma_decimal_len(n: nat, k: nat)
    requires
        k >= 1,
        n < vstd::arithmetic::power::pow(10, k),
    ensures
        1 <= decimal(n).len() <= k,
    decreases n,
{
    if n >= 10 {
        vstd::arithmetic::power::lemma_pow1(10);
        assert(k > 1);
        assert(vstd::arithmetic::power::pow(10, k) == 10 * vstd::arithmetic::power::pow(
            10,
            (k - 1) as nat,
        )) by {
            reveal(vstd::arithmetic::power::pow);
        }
        lemma_decimal_len(n / 10, (k - 1) as nat);
    }
}

/// A 64-bit number has at most 20 digits.
pub proof fn lemma_u64_digits(n: u64)
    ensures
        1 <= decimal(n as nat).len() <= 20,
{
    vstd::arithmetic::power::lemma_pow_adds(10, 10, 10);
    assert(vstd::arithmetic::power::pow(10, 10) == 10_000_000_000) by {
        reveal_with_fuel(vstd::arithmetic::power::pow, 11);
    }
    lemma_decimal_len(n as nat, 20);
}

pub fn digit_char(d: u8) -> (c: char)
    requires
        d < 10,
    ensures
        c == digit(d as int),
{
    (48 + d) as char
}

/// Appends a number in decimal.
pub fn push_u64(out: &mut Vec<char>, n: u64)
    ensures
        final(out)@ == old(out)@ + decimal(n as nat),
{
    let mut rest: Vec<char> = Vec::new();
    let mut v: u64 = n;
    let ghost total = decimal(n as nat);
    while v >= 10
        invariant
            total == decimal(v as nat) + rest@.reverse(),
        decreases v,
    {
        let ghost before = rest@;
        rest.push(digit_char((v % 10) as u8));
        assert(rest@.reverse() =~= seq![digit((v % 10) as int)] + before.reverse());
        assert(total =~= decimal((v / 10) as nat) + rest@.reverse());
        v = v / 10;
    }
    let ghost before = rest@;
    rest.push(digit_char(v as u8));
    assert(rest@.reverse() =~= seq![digit(v as int)] + before.reverse());
    assert(total =~= rest@.reverse());
    let mut i: usize = rest.len();
    while i > 0
        invariant
            i <= rest@.len(),
            out@ == old(out)@ + rest@.reverse().take(rest@.len() - i),
        decreases i,
    {
        i = i - 1;
        out.push(rest[i]);
        assert(rest@.reverse().take(rest@.len() - i) =~= rest@.reverse().take(
            rest@.len() - i - 1,
        ).push(rest@[i as int]));
    }
    assert(rest@.reverse().take(rest@.len() as int) =~= rest@.reverse());
}

/// Appends characters.
pub fn push_all(out: &mut Vec<char>, chars: &Vec<char>)
    ensures
        final(out)@ == old(out)@ + chars@,
{
    let mut i: usize = 0;
    assert(out@ =~= old(out)@ + chars@.take(0));
    while i < chars.len()
        invariant
            i <= chars@.len(),
            out@ == old(out)@ + chars@.take(i as int),
        decreases chars@.len() - i,
    {
        out.push(chars[i]);
        i = i + 1;
        assert(out@ =~= old(out)@ + chars@.take(i as int));
    }
    assert(chars@.take(chars@.len() as int) =~= chars@);
}

/// The number of characters.
pub fn length(s: &str) -> (n: usize)
    ensures
        n == s@.len(),
{
    s.unicode_len()
}

/// Text as bytes, one for each character.
pub open spec fn one_byte_each(s: Seq<char>) -> Seq<u8> {
    Seq::new(s.len(), |i: int| s[i] as u8)
}

pub fn ascii_bytes(s: &str) -> (r: Vec<u8>)
    ensures
        r@ == one_byte_each(s@),
{
    let n: usize = s.unicode_len();
    let mut r: Vec<u8> = Vec::new();
    while r.len() < n
        invariant
            r@.len() <= n,
            n == s@.len(),
            forall|i: int| 0 <= i < r@.len() ==> #[trigger] r@[i] == s@[i] as u8,
        decreases n - r@.len(),
    {
        let i: usize = r.len();
        r.push(s.get_char(i) as u8);
    }
    assert(r@ =~= one_byte_each(s@));
    r
}

/// Whether `s` is exactly these characters.
pub fn is_text(s: &str, chars: &Vec<char>) -> (r: bool)
    ensures
        r == (s@ == chars@),
{
    let n: usize = s.unicode_len();
    if n != chars.len() {
        return false;
    }
    let mut i: usize = 0;
    while i < n
        invariant
            i <= n,
            n == s@.len(),
            n == chars@.len(),
            forall|j: int| 0 <= j < i ==> s@[j] == chars@[j],
        decreases n - i,
    {
        if s.get_char(i) != chars[i] {
            return false;
        }
        i = i + 1;
    }
    assert(s@ =~= chars@);
    true
}

/// What a service's log call prints: at most 256 bytes of text on a line of
/// their own, or a note of how much was not text.
pub open spec fn logged(who: Seq<char>, bytes: Seq<u8>) -> Seq<char> {
    let shown = if bytes.len() > 256 {
        bytes.subrange(0, 256)
    } else {
        bytes
    };
    if bytes.len() == 0 {
        Seq::empty()
    } else if vstd::utf8::valid_utf8(shown) {
        vstd::utf8::decode_utf8(shown).push('\n')
    } else {
        (who + " <non-utf8:"@ + decimal(bytes.len()) + " bytes>"@).push('\n')
    }
}

pub fn push_log(out: &mut Vec<char>, who: &str, bytes: &[u8])
    ensures
        final(out)@ == old(out)@ + logged(who@, bytes@),
{
    assert(bytes.len() == bytes@.len());
    if bytes.len() == 0 {
        assert(out@ =~= old(out)@ + logged(who@, bytes@));
        return ;
    }
    let n: usize = if bytes.len() > 256 { 256 } else { bytes.len() };
    let shown: &[u8] = vstd::slice::slice_subrange(bytes, 0, n);
    assert(bytes@.len() <= 256 ==> shown@ =~= bytes@);
    match utf8_text(shown) {
        Some(s) => {
            proof {
                vstd::utf8::encode_utf8_decode_utf8(s@);
            }
            push_str(out, s);
        },
        None => {
            push_str(out, who);
            push_str(out, " <non-utf8:");
            push_u64(out, bytes.len() as u64);
            push_str(out, " bytes>");
        },
    }
    out.push('\n');
    assert(out@ =~= old(out)@ + logged(who@, bytes@));
}

/// A question mark is text.
pub proof fn lemma_question_mark()
    ensures
        vstd::utf8::valid_utf8(seq![0x3Fu8]),
{
    let c = seq!['?'];
    vstd::utf8::encode_utf8_valid_utf8(c);
    vstd::utf8::is_ascii_chars_encode_utf8(c);
    assert(vstd::utf8::encode_utf8(c) =~= seq![0x3Fu8]);
}

/// Whether two texts are the same.
pub fn same_text(a: &str, b: &str) -> (r: bool)
    ensures
        r == (a@ == b@),
{
    let mut chars: Vec<char> = Vec::new();
    push_str(&mut chars, b);
    assert(chars@ =~= b@);
    is_text(a, &chars)
}

/// Two texts, one after the other.
pub fn joined(a: &str, b: &str) -> (r: String)
    ensures
        r@ == a@ + b@,
{
    let r: String = a.to_owned();
    r.concat(b)
}

/// `char::encode_utf8`: the bytes of a character.
#[verifier::external_body]
pub(crate) fn encode_char(c: char) -> (r: Vec<u8>)
    ensures
        r@ == vstd::utf8::encode_utf8(seq![c]),
        1 <= r@.len() <= 4,
{
    let mut buf = [0u8; 4];
    c.encode_utf8(&mut buf).as_bytes().to_vec()
}

/// The bytes of two texts are those of the one and then those of the other.
pub proof fn lemma_encode_concat(a: Seq<char>, b: Seq<char>)
    ensures
        vstd::utf8::encode_utf8(a + b) == vstd::utf8::encode_utf8(a) + vstd::utf8::encode_utf8(b),
    decreases a.len(),
{
    if a.len() == 0 {
        assert(a + b =~= b);
        assert(vstd::utf8::encode_utf8(a) + vstd::utf8::encode_utf8(b)
            =~= vstd::utf8::encode_utf8(b));
    } else {
        lemma_encode_concat(a.drop_first(), b);
        assert((a + b).drop_first() =~= a.drop_first() + b);
        assert(vstd::utf8::encode_utf8(a + b) =~= vstd::utf8::encode_utf8(a)
            + vstd::utf8::encode_utf8(b));
    }
}

/// Every character takes at least one byte.
pub proof fn lemma_encode_len(s: Seq<char>)
    ensures
        s.len() <= vstd::utf8::encode_utf8(s).len(),
    decreases s.len(),
{
    if s.len() > 0 {
        lemma_encode_len(s.drop_first());
    }
}

/// The bytes of a text.
pub fn utf8_bytes(chars: &Vec<char>) -> (r: Vec<u8>)
    ensures
        r@ == vstd::utf8::encode_utf8(chars@),
{
    let mut r: Vec<u8> = Vec::new();
    let mut i: usize = 0;
    assert(r@ =~= vstd::utf8::encode_utf8(chars@.take(0)));
    while i < chars.len()
        invariant
            i <= chars@.len(),
            r@ == vstd::utf8::encode_utf8(chars@.take(i as int)),
        decreases chars@.len() - i,
    {
        let mut encoded: Vec<u8> = encode_char(chars[i]);
        r.append(&mut encoded);
        proof {
            lemma_encode_concat(chars@.take(i as int), seq![chars@[i as int]]);
            assert(chars@.take(i + 1) =~= chars@.take(i as int) + seq![chars@[i as int]]);
        }
        i = i + 1;
    }
    assert(chars@.take(chars@.len() as int) =~= chars@);
    r
}

/// `s`, cut after the last character that ends within `n` bytes.
pub open spec fn fitting(s: Seq<char>, n: int) -> Seq<char>
    decreases s.len(),
{
    if s.len() == 0 || vstd::utf8::encode_utf8(s).len() <= n {
        s
    } else {
        fitting(s.drop_last(), n)
    }
}

proof fn lemma_fitting(s: Seq<char>, n: int, i: int)
    requires
        0 <= i <= s.len(),
        0 <= n,
        vstd::utf8::encode_utf8(s.take(i)).len() <= n,
        i < s.len() ==> vstd::utf8::encode_utf8(s.take(i + 1)).len() > n,
    ensures
        fitting(s, n) == s.take(i),
    decreases s.len(),
{
    if i == s.len() {
        assert(s.take(i) =~= s);
    } else {
        lemma_encode_concat(s.take(i + 1), s.skip(i + 1));
        assert(s.take(i + 1) + s.skip(i + 1) =~= s);
        let d = s.drop_last();
        assert(d.take(i) =~= s.take(i));
        if i < d.len() {
            assert(d.take(i + 1) =~= s.take(i + 1));
        }
        lemma_fitting(d, n, i);
    }
}

/// The characters of a line that fit into `n` bytes. One that lies across the
/// end is left out.
pub fn fit(s: &Vec<char>, n: usize) -> (r: Vec<char>)
    ensures
        r@ == fitting(s@, n as int),
{
    let mut r: Vec<char> = Vec::new();
    let mut used: usize = 0;
    let mut i: usize = 0;
    assert(r@ =~= s@.take(0));
    while i < s.len()
        invariant
            i <= s@.len(),
            r@ == s@.take(i as int),
            used == vstd::utf8::encode_utf8(r@).len(),
            used <= n,
        decreases s@.len() - i,
    {
        let width: usize = encode_char(s[i]).len();
        proof {
            lemma_encode_concat(s@.take(i as int), seq![s@[i as int]]);
            assert(s@.take(i + 1) =~= s@.take(i as int) + seq![s@[i as int]]);
        }
        if width > n - used {
            proof {
                lemma_fitting(s@, n as int, i as int);
            }
            return r;
        }
        r.push(s[i]);
        used = used + width;
        i = i + 1;
        assert(r@ =~= s@.take(i as int));
    }
    proof {
        lemma_fitting(s@, n as int, i as int);
    }
    r
}

/// What bytes say; `?` where they are no text.
pub open spec fn text_of(bytes: Seq<u8>) -> Seq<char> {
    if vstd::utf8::valid_utf8(bytes) {
        vstd::utf8::decode_utf8(bytes)
    } else {
        "?"@
    }
}

pub fn text_from(bytes: &[u8]) -> (r: Vec<char>)
    ensures
        r@ == text_of(bytes@),
        r@.len() <= bytes@.len() || r@.len() == 1,
        vstd::utf8::encode_utf8(r@).len() <= bytes@.len() || vstd::utf8::encode_utf8(r@).len() == 1,
{
    let mut r: Vec<char> = Vec::new();
    match utf8_text(bytes) {
        Some(s) => {
            proof {
                vstd::utf8::encode_utf8_decode_utf8(s@);
                lemma_encode_len(s@);
            }
            push_str(&mut r, s);
            assert(r@ =~= s@);
        },
        None => {
            proof {
                reveal_strlit("?");
                vstd::utf8::is_ascii_chars_encode_utf8("?"@);
            }
            push_str(&mut r, "?");
            assert(r@ =~= "?"@);
        },
    }
    r
}

/// The number that digits spell.
pub open spec fn spelled_number(s: Seq<char>) -> int
    decreases s.len(),
{
    if s.len() == 0 {
        0
    } else {
        10 * spelled_number(s.drop_last()) + (s.last() as int - '0' as int)
    }
}

/// A number in decimal is made of digits, begins with a zero only where it is zero,
/// and spells that number.
pub proof fn law_decimal(n: nat)
    ensures
        decimal(n).len() >= 1,
        forall|i: int| 0 <= i < decimal(n).len() ==> '0' <= #[trigger] decimal(n)[i] <= '9',
        n > 0 ==> decimal(n)[0] != '0',
        spelled_number(decimal(n)) == n,
    decreases n,
{
    lemma_digit(n as int % 10);
    if n >= 10 {
        law_decimal(n / 10);
        assert(decimal(n).drop_last() =~= decimal(n / 10));
    } else {
        assert(decimal(n).drop_last() =~= Seq::<char>::empty());
        assert(spelled_number(decimal(n).drop_last()) == 0);
    }
}

/// The character of a digit.
pub proof fn lemma_digit(d: int)
    requires
        0 <= d <= 9,
    ensures
        digit(d) as int == '0' as int + d,
{
}

/// A control character, and a line or paragraph separator, are logged as `?`; any
/// other character is logged as it is.
pub proof fn law_tamed(c: char)
    ensures
        (c as u32) < 0x20 ==> tamed(c) == '?',
        c == '\n' || c == '\r' || c == '\u{1b}' || c == '\u{7f}' ==> tamed(c) == '?',
        0x80 <= c as u32 && (c as u32) < 0xA0 ==> tamed(c) == '?',
        c == '\u{2028}' || c == '\u{2029}' ==> tamed(c) == '?',
        0x20 <= c as u32 && (c as u32) < 0x7F ==> tamed(c) == c,
        c as u32 >= 0xA0 && c != '\u{2028}' && c != '\u{2029}' ==> tamed(c) == c,
{
}

/// What fits into `n` bytes is the beginning of the text, takes no more than `n`
/// bytes, and one more character would not fit.
pub proof fn law_fitting(s: Seq<char>, n: int)
    requires
        n >= 0,
    ensures
        fitting(s, n) == s.take(fitting(s, n).len() as int),
        fitting(s, n).len() <= s.len(),
        vstd::utf8::encode_utf8(fitting(s, n)).len() <= n,
        fitting(s, n).len() < s.len() ==> vstd::utf8::encode_utf8(
            s.take(fitting(s, n).len() as int + 1),
        ).len() > n,
    decreases s.len(),
{
    if s.len() == 0 {
        vstd::utf8::is_ascii_chars_encode_utf8(s);
        assert(s.take(0) =~= s);
    } else if vstd::utf8::encode_utf8(s).len() <= n {
        assert(s.take(s.len() as int) =~= s);
    } else {
        let d = s.drop_last();
        law_fitting(d, n);
        let k = fitting(d, n).len() as int;
        assert(d.take(k) =~= s.take(k));
        if k < d.len() {
            assert(d.take(k + 1) =~= s.take(k + 1));
        } else {
            assert(s.take(k + 1) =~= s);
        }
    }
}

/// A service's log of a text that takes at most 256 bytes is that text on a line of
/// its own, and an empty one prints nothing.
pub proof fn law_service_log(who: Seq<char>, s: Seq<char>)
    requires
        vstd::utf8::encode_utf8(s).len() <= 256,
    ensures
        s.len() > 0 ==> logged(who, vstd::utf8::encode_utf8(s)) == s + "\n"@,
        logged(who, Seq::empty()) == Seq::<char>::empty(),
{
    reveal_strlit("\n");
    vstd::utf8::encode_utf8_valid_utf8(s);
    vstd::utf8::encode_utf8_decode_utf8(s);
    lemma_encode_len(s);
    assert(s.push('\n') =~= s + "\n"@);
}

/// A text reads back from its own bytes; bytes that are no text read as `?`.
pub proof fn law_text_of(s: Seq<char>, b: Seq<u8>)
    ensures
        text_of(vstd::utf8::encode_utf8(s)) == s,
        !vstd::utf8::valid_utf8(b) ==> text_of(b) == "?"@,
{
    vstd::utf8::encode_utf8_valid_utf8(s);
    vstd::utf8::encode_utf8_decode_utf8(s);
}

/// Text that is followed by bytes that are none is shown, and those bytes as one `?`.
pub proof fn law_broken_text(s: Seq<char>, bad: Seq<u8>)
    requires
        forall|i: int| 0 <= i < s.len() ==> 0x20 <= (#[trigger] s[i]) as u32 <= 0x7E,
    ensures
        bad.len() > 0 ==> tamed_part((s, bad)) == s + "?"@,
        bad.len() == 0 ==> tamed_part((s, bad)) == s,
{
    reveal_strlit("?");
    let t = s.map_values(|c: char| tamed(c));
    assert(t =~= s);
    assert(s.push('?') =~= s + "?"@);
}

/// The stretches of a text are shown one behind the other.
pub proof fn law_stretches(parts: Seq<(Seq<char>, Seq<u8>)>, n: int)
    requires
        0 <= n < parts.len(),
    ensures
        tamed_parts(parts, 0).len() == 0,
        tamed_parts(parts, n + 1) == tamed_parts(parts, n) + tamed_part(parts[n]),
{
}

} // verus!
