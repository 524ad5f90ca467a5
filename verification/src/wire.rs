//! How the types of the ABI lie in memory, byte by byte.
use vstd::prelude::*;

use crate::abi::{Grant, Handle, Message, Rights, SpawnRequest};
use crate::bytes;

verus! {

/// A value that crosses the boundary through user memory.
pub trait UserData: Sized {
    /// The bytes of the value.
    spec fn spelled(self) -> Seq<u8>;

    /// How many bytes a value takes.
    spec fn width() -> int;

    /// What the address of a value must be a multiple of.
    spec fn alignment() -> int;

    fn size() -> (n: usize)
        ensures
            n == Self::width(),
            n <= 4096,
    ;

    fn align() -> (n: u64)
        ensures
            n == Self::alignment(),
            n > 0,
    ;

    /// The value that `data` spells.
    fn decode(data: &[u8]) -> (v: Self)
        requires
            data@.len() == Self::width(),
        ensures
            v.spelled() == data@,
    ;

    fn encode(&self) -> (data: Vec<u8>)
        ensures
            data@ == self.spelled(),
            data@.len() == Self::width(),
    ;
}

pub open spec fn message_bytes(
    tag: u32,
    sender: u16,
    len: u16,
    payload: Seq<u64>,
) -> Seq<u8> {
    bytes::le_bytes(tag as int, 4) + bytes::le_bytes(sender as int, 2) + bytes::le_bytes(
        len as int,
        2,
    ) + bytes::le_bytes(payload[0] as int, 8) + bytes::le_bytes(payload[1] as int, 8)
        + bytes::le_bytes(payload[2] as int, 8) + bytes::le_bytes(payload[3] as int, 8)
}

impl UserData for Message {
    open spec fn spelled(self) -> Seq<u8> {
        message_bytes(self.tag, self.sender, self.len, self.payload@)
    }

    open spec fn width() -> int {
        40
    }

    open spec fn alignment() -> int {
        8
    }

    fn size() -> (n: usize) {
        40
    }

    fn align() -> (n: u64) {
        8
    }

    fn decode(data: &[u8]) -> (v: Message) {
        let m = Message {
            tag: bytes::read_u32_le(data, 0),
            sender: bytes::read_u16_le(data, 4),
            len: bytes::read_u16_le(data, 6),
            payload: [
                bytes::read_u64_le(data, 8),
                bytes::read_u64_le(data, 16),
                bytes::read_u64_le(data, 24),
                bytes::read_u64_le(data, 32),
            ],
        };
        proof {
            let s = data@;
            bytes::lemma_le_respell(s, 0, 4);
            bytes::lemma_le_respell(s, 4, 2);
            bytes::lemma_le_respell(s, 6, 2);
            bytes::lemma_le_respell(s, 8, 8);
            bytes::lemma_le_respell(s, 16, 8);
            bytes::lemma_le_respell(s, 24, 8);
            bytes::lemma_le_respell(s, 32, 8);
            assert(m.spelled() =~= s);
        }
        m
    }

    fn encode(&self) -> (data: Vec<u8>) {
        let mut out: Vec<u8> = Vec::new();
        bytes::push_le(&mut out, self.tag as u64, 4);
        bytes::push_le(&mut out, self.sender as u64, 2);
        bytes::push_le(&mut out, self.len as u64, 2);
        bytes::push_le(&mut out, self.payload[0], 8);
        bytes::push_le(&mut out, self.payload[1], 8);
        bytes::push_le(&mut out, self.payload[2], 8);
        bytes::push_le(&mut out, self.payload[3], 8);
        proof {
            lemma_message_width(*self);
            assert(out@ =~= self.spelled());
        }
        out
    }
}

pub proof fn lemma_message_width(m: Message)
    ensures
        m.spelled().len() == 40,
{
    bytes::lemma_le_bytes_len(m.tag as int, 4);
    bytes::lemma_le_bytes_len(m.sender as int, 2);
    bytes::lemma_le_bytes_len(m.len as int, 2);
    bytes::lemma_le_bytes_len(m.payload@[0] as int, 8);
    bytes::lemma_le_bytes_len(m.payload@[1] as int, 8);
    bytes::lemma_le_bytes_len(m.payload@[2] as int, 8);
    bytes::lemma_le_bytes_len(m.payload@[3] as int, 8);
}

impl UserData for Grant {
    open spec fn spelled(self) -> Seq<u8> {
        bytes::le_bytes(self.handle.0 as int, 4) + bytes::le_bytes(self.rights.0 as int, 4)
    }

    open spec fn width() -> int {
        8
    }

    open spec fn alignment() -> int {
        4
    }

    fn size() -> (n: usize) {
        8
    }

    fn align() -> (n: u64) {
        4
    }

    fn decode(data: &[u8]) -> (v: Grant) {
        let g = Grant {
            handle: Handle(bytes::read_u32_le(data, 0)),
            rights: Rights(bytes::read_u32_le(data, 4)),
        };
        proof {
            bytes::lemma_le_respell(data@, 0, 4);
            bytes::lemma_le_respell(data@, 4, 4);
            assert(g.spelled() =~= data@);
        }
        g
    }

    fn encode(&self) -> (data: Vec<u8>) {
        let mut out: Vec<u8> = Vec::new();
        bytes::push_le(&mut out, self.handle.0 as u64, 4);
        bytes::push_le(&mut out, self.rights.0 as u64, 4);
        proof {
            bytes::lemma_le_bytes_len(self.handle.0 as int, 4);
            bytes::lemma_le_bytes_len(self.rights.0 as int, 4);
            assert(out@ =~= self.spelled());
        }
        out
    }
}

impl UserData for SpawnRequest {
    open spec fn spelled(self) -> Seq<u8> {
        bytes::le_bytes(self.name_ptr as int, 8) + bytes::le_bytes(self.name_len as int, 8)
            + bytes::le_bytes(self.binary_ptr as int, 8) + bytes::le_bytes(
            self.binary_len as int,
            8,
        ) + bytes::le_bytes(self.grants_ptr as int, 8) + bytes::le_bytes(self.grants_len as int, 8)
            + bytes::le_bytes(self.arg as int, 8)
    }

    open spec fn width() -> int {
        56
    }

    open spec fn alignment() -> int {
        8
    }

    fn size() -> (n: usize) {
        56
    }

    fn align() -> (n: u64) {
        8
    }

    fn decode(data: &[u8]) -> (v: SpawnRequest) {
        let q = SpawnRequest {
            name_ptr: bytes::read_u64_le(data, 0),
            name_len: bytes::read_u64_le(data, 8),
            binary_ptr: bytes::read_u64_le(data, 16),
            binary_len: bytes::read_u64_le(data, 24),
            grants_ptr: bytes::read_u64_le(data, 32),
            grants_len: bytes::read_u64_le(data, 40),
            arg: bytes::read_u64_le(data, 48),
        };
        proof {
            bytes::lemma_le_respell(data@, 0, 8);
            bytes::lemma_le_respell(data@, 8, 8);
            bytes::lemma_le_respell(data@, 16, 8);
            bytes::lemma_le_respell(data@, 24, 8);
            bytes::lemma_le_respell(data@, 32, 8);
            bytes::lemma_le_respell(data@, 40, 8);
            bytes::lemma_le_respell(data@, 48, 8);
            assert(q.spelled() =~= data@);
        }
        q
    }

    fn encode(&self) -> (data: Vec<u8>) {
        let mut out: Vec<u8> = Vec::new();
        bytes::push_le(&mut out, self.name_ptr, 8);
        bytes::push_le(&mut out, self.name_len, 8);
        bytes::push_le(&mut out, self.binary_ptr, 8);
        bytes::push_le(&mut out, self.binary_len, 8);
        bytes::push_le(&mut out, self.grants_ptr, 8);
        bytes::push_le(&mut out, self.grants_len, 8);
        bytes::push_le(&mut out, self.arg, 8);
        proof {
            bytes::lemma_le_bytes_len(self.name_ptr as int, 8);
            bytes::lemma_le_bytes_len(self.name_len as int, 8);
            bytes::lemma_le_bytes_len(self.binary_ptr as int, 8);
            bytes::lemma_le_bytes_len(self.binary_len as int, 8);
            bytes::lemma_le_bytes_len(self.grants_ptr as int, 8);
            bytes::lemma_le_bytes_len(self.grants_len as int, 8);
            bytes::lemma_le_bytes_len(self.arg as int, 8);
            assert(out@ =~= self.spelled());
        }
        out
    }
}

/// Different numbers are spelled with different bytes.
proof fn lemma_spelled_apart(a: int, b: int, n: nat)
    requires
        0 <= a < bytes::pow256(n),
        0 <= b < bytes::pow256(n),
        bytes::le_bytes(a, n) == bytes::le_bytes(b, n),
    ensures
        a == b,
{
    bytes::lemma_le_round_trip(a, n);
    bytes::lemma_le_round_trip(b, n);
}

/// The bytes of a message tell every part of it.
pub proof fn law_message_bytes_unique(a: Message, b: Message)
    requires
        a.spelled() == b.spelled(),
    ensures
        a.tag == b.tag,
        a.sender == b.sender,
        a.len == b.len,
        a.payload@ == b.payload@,
{
    lemma_message_width(a);
    lemma_message_width(b);
    bytes::lemma_pow256();
    lemma_message_parts(a);
    lemma_message_parts(b);
    lemma_spelled_apart(a.tag as int, b.tag as int, 4);
    lemma_spelled_apart(a.sender as int, b.sender as int, 2);
    lemma_spelled_apart(a.len as int, b.len as int, 2);
    lemma_spelled_apart(a.payload@[0] as int, b.payload@[0] as int, 8);
    lemma_spelled_apart(a.payload@[1] as int, b.payload@[1] as int, 8);
    lemma_spelled_apart(a.payload@[2] as int, b.payload@[2] as int, 8);
    lemma_spelled_apart(a.payload@[3] as int, b.payload@[3] as int, 8);
    assert(a.payload@ =~= b.payload@);
}

proof fn lemma_message_parts(m: Message)
    ensures
        m.spelled().subrange(0, 4) == bytes::le_bytes(m.tag as int, 4),
        m.spelled().subrange(4, 6) == bytes::le_bytes(m.sender as int, 2),
        m.spelled().subrange(6, 8) == bytes::le_bytes(m.len as int, 2),
        m.spelled().subrange(8, 16) == bytes::le_bytes(m.payload@[0] as int, 8),
        m.spelled().subrange(16, 24) == bytes::le_bytes(m.payload@[1] as int, 8),
        m.spelled().subrange(24, 32) == bytes::le_bytes(m.payload@[2] as int, 8),
        m.spelled().subrange(32, 40) == bytes::le_bytes(m.payload@[3] as int, 8),
{
    lemma_message_width(m);
    bytes::lemma_le_bytes_len(m.tag as int, 4);
    bytes::lemma_le_bytes_len(m.sender as int, 2);
    bytes::lemma_le_bytes_len(m.len as int, 2);
    bytes::lemma_le_bytes_len(m.payload@[0] as int, 8);
    bytes::lemma_le_bytes_len(m.payload@[1] as int, 8);
    bytes::lemma_le_bytes_len(m.payload@[2] as int, 8);
    bytes::lemma_le_bytes_len(m.payload@[3] as int, 8);
    let s = m.spelled();
    assert(s.subrange(0, 4) =~= bytes::le_bytes(m.tag as int, 4));
    assert(s.subrange(4, 6) =~= bytes::le_bytes(m.sender as int, 2));
    assert(s.subrange(6, 8) =~= bytes::le_bytes(m.len as int, 2));
    assert(s.subrange(8, 16) =~= bytes::le_bytes(m.payload@[0] as int, 8));
    assert(s.subrange(16, 24) =~= bytes::le_bytes(m.payload@[1] as int, 8));
    assert(s.subrange(24, 32) =~= bytes::le_bytes(m.payload@[2] as int, 8));
    assert(s.subrange(32, 40) =~= bytes::le_bytes(m.payload@[3] as int, 8));
}

/// The request that 56 bytes spell.
pub open spec fn request_of(s: Seq<u8>) -> SpawnRequest {
    SpawnRequest {
        name_ptr: bytes::le(s, 0, 8) as u64,
        name_len: bytes::le(s, 8, 8) as u64,
        binary_ptr: bytes::le(s, 16, 8) as u64,
        binary_len: bytes::le(s, 24, 8) as u64,
        grants_ptr: bytes::le(s, 32, 8) as u64,
        grants_len: bytes::le(s, 40, 8) as u64,
        arg: bytes::le(s, 48, 8) as u64,
    }
}

/// The grant that 8 bytes spell.
pub open spec fn grant_of(s: Seq<u8>) -> Grant {
    Grant {
        handle: Handle(bytes::le(s, 0, 4) as u32),
        rights: Rights(bytes::le(s, 4, 4) as u32),
    }
}

/// A number spelled at `at` in `s` is read back.
proof fn lemma_spelled_at(s: Seq<u8>, at: int, v: int, n: nat)
    requires
        0 <= v < bytes::pow256(n),
        0 <= at,
        at + n <= s.len(),
        s.subrange(at, at + n) == bytes::le_bytes(v, n),
    ensures
        bytes::le(s, at, n) == v,
{
    bytes::lemma_le_round_trip(v, n);
    bytes::lemma_le_bytes_len(v, n);
    let t = bytes::le_bytes(v, n);
    assert forall|i: int| 0 <= i < n implies s[#[trigger] (at + i)] == t[0 + i] by {
        assert(s.subrange(at, at + n)[i] == s[at + i]);
    }
    bytes::lemma_le_same(s, at, t, 0, n);
}

/// A request is read back from its bytes.
pub proof fn law_request_round_trip(q: SpawnRequest)
    ensures
        request_of(q.spelled()) == q,
{
    let s = q.spelled();
    bytes::lemma_pow256();
    bytes::lemma_le_bytes_len(q.name_ptr as int, 8);
    bytes::lemma_le_bytes_len(q.name_len as int, 8);
    bytes::lemma_le_bytes_len(q.binary_ptr as int, 8);
    bytes::lemma_le_bytes_len(q.binary_len as int, 8);
    bytes::lemma_le_bytes_len(q.grants_ptr as int, 8);
    bytes::lemma_le_bytes_len(q.grants_len as int, 8);
    bytes::lemma_le_bytes_len(q.arg as int, 8);
    assert(s.subrange(0, 8) =~= bytes::le_bytes(q.name_ptr as int, 8));
    assert(s.subrange(8, 16) =~= bytes::le_bytes(q.name_len as int, 8));
    assert(s.subrange(16, 24) =~= bytes::le_bytes(q.binary_ptr as int, 8));
    assert(s.subrange(24, 32) =~= bytes::le_bytes(q.binary_len as int, 8));
    assert(s.subrange(32, 40) =~= bytes::le_bytes(q.grants_ptr as int, 8));
    assert(s.subrange(40, 48) =~= bytes::le_bytes(q.grants_len as int, 8));
    assert(s.subrange(48, 56) =~= bytes::le_bytes(q.arg as int, 8));
    lemma_spelled_at(s, 0, q.name_ptr as int, 8);
    lemma_spelled_at(s, 8, q.name_len as int, 8);
    lemma_spelled_at(s, 16, q.binary_ptr as int, 8);
    lemma_spelled_at(s, 24, q.binary_len as int, 8);
    lemma_spelled_at(s, 32, q.grants_ptr as int, 8);
    lemma_spelled_at(s, 40, q.grants_len as int, 8);
    lemma_spelled_at(s, 48, q.arg as int, 8);
}

/// A grant is read back from its bytes.
pub proof fn law_grant_round_trip(g: Grant)
    ensures
        grant_of(g.spelled()) == g,
{
    let s = g.spelled();
    bytes::lemma_pow256();
    bytes::lemma_le_bytes_len(g.handle.0 as int, 4);
    bytes::lemma_le_bytes_len(g.rights.0 as int, 4);
    assert(s.subrange(0, 4) =~= bytes::le_bytes(g.handle.0 as int, 4));
    assert(s.subrange(4, 8) =~= bytes::le_bytes(g.rights.0 as int, 4));
    lemma_spelled_at(s, 0, g.handle.0 as int, 4);
    lemma_spelled_at(s, 4, g.rights.0 as int, 4);
}

proof fn lemma_field(s: Seq<u8>, at: int, part: Seq<u8>, v: int, n: nat)
    requires
        part == bytes::le_bytes(v, n),
        0 <= v < bytes::pow256(n),
        0 <= at,
        at + n <= s.len(),
        s.subrange(at, at + n) == part,
    ensures
        bytes::le(s, at, n) == v,
{
    bytes::lemma_le_bytes_len(v, n);
    bytes::lemma_le_round_trip(v, n);
    assert forall|i: int| 0 <= i < n implies s[#[trigger] (at + i)] == part[0 + i] by {
        assert(s.subrange(at, at + n)[i] == s[at + i]);
    }
    bytes::lemma_le_same(s, at, part, 0, n);
}

/// A message in memory: its tag, its sender, its length and the four words that
/// it carries, one behind the other.
pub proof fn law_message_layout(m: Message)
    ensures
        m.spelled().len() == 40,
        bytes::u32_at(m.spelled(), 0) == m.tag,
        bytes::u16_at(m.spelled(), 4) == m.sender,
        bytes::u16_at(m.spelled(), 6) == m.len,
        bytes::u64_at(m.spelled(), 8) == m.payload[0],
        bytes::u64_at(m.spelled(), 16) == m.payload[1],
        bytes::u64_at(m.spelled(), 24) == m.payload[2],
        bytes::u64_at(m.spelled(), 32) == m.payload[3],
{
    lemma_message_parts(m);
    lemma_message_width(m);
    bytes::lemma_pow256();
    let s = m.spelled();
    lemma_field(s, 0, s.subrange(0, 4), m.tag as int, 4);
    lemma_field(s, 4, s.subrange(4, 6), m.sender as int, 2);
    lemma_field(s, 6, s.subrange(6, 8), m.len as int, 2);
    lemma_field(s, 8, s.subrange(8, 16), m.payload@[0] as int, 8);
    lemma_field(s, 16, s.subrange(16, 24), m.payload@[1] as int, 8);
    lemma_field(s, 24, s.subrange(24, 32), m.payload@[2] as int, 8);
    lemma_field(s, 32, s.subrange(32, 40), m.payload@[3] as int, 8);
    bytes::lemma_raw(s, 0);
    bytes::lemma_raw(s, 4);
    bytes::lemma_raw(s, 6);
    bytes::lemma_raw(s, 8);
    bytes::lemma_raw(s, 16);
    bytes::lemma_raw(s, 24);
    bytes::lemma_raw(s, 32);
}

/// A request to start a service in memory: where the name is and how long, the same of
/// the binary and of the grants, and the argument.
pub proof fn law_request_layout(q: SpawnRequest)
    ensures
        q.spelled().len() == 56,
        bytes::u64_at(q.spelled(), 0) == q.name_ptr,
        bytes::u64_at(q.spelled(), 8) == q.name_len,
        bytes::u64_at(q.spelled(), 16) == q.binary_ptr,
        bytes::u64_at(q.spelled(), 24) == q.binary_len,
        bytes::u64_at(q.spelled(), 32) == q.grants_ptr,
        bytes::u64_at(q.spelled(), 40) == q.grants_len,
        bytes::u64_at(q.spelled(), 48) == q.arg,
{
    let s = q.spelled();
    bytes::lemma_pow256();
    bytes::lemma_le_bytes_len(q.name_ptr as int, 8);
    bytes::lemma_le_bytes_len(q.name_len as int, 8);
    bytes::lemma_le_bytes_len(q.binary_ptr as int, 8);
    bytes::lemma_le_bytes_len(q.binary_len as int, 8);
    bytes::lemma_le_bytes_len(q.grants_ptr as int, 8);
    bytes::lemma_le_bytes_len(q.grants_len as int, 8);
    bytes::lemma_le_bytes_len(q.arg as int, 8);
    assert(s.subrange(0, 8) =~= bytes::le_bytes(q.name_ptr as int, 8));
    assert(s.subrange(8, 16) =~= bytes::le_bytes(q.name_len as int, 8));
    assert(s.subrange(16, 24) =~= bytes::le_bytes(q.binary_ptr as int, 8));
    assert(s.subrange(24, 32) =~= bytes::le_bytes(q.binary_len as int, 8));
    assert(s.subrange(32, 40) =~= bytes::le_bytes(q.grants_ptr as int, 8));
    assert(s.subrange(40, 48) =~= bytes::le_bytes(q.grants_len as int, 8));
    assert(s.subrange(48, 56) =~= bytes::le_bytes(q.arg as int, 8));
    lemma_spelled_at(s, 0, q.name_ptr as int, 8);
    lemma_spelled_at(s, 8, q.name_len as int, 8);
    lemma_spelled_at(s, 16, q.binary_ptr as int, 8);
    lemma_spelled_at(s, 24, q.binary_len as int, 8);
    lemma_spelled_at(s, 32, q.grants_ptr as int, 8);
    lemma_spelled_at(s, 40, q.grants_len as int, 8);
    lemma_spelled_at(s, 48, q.arg as int, 8);
    bytes::lemma_raw(s, 0);
    bytes::lemma_raw(s, 8);
    bytes::lemma_raw(s, 16);
    bytes::lemma_raw(s, 24);
    bytes::lemma_raw(s, 32);
    bytes::lemma_raw(s, 40);
    bytes::lemma_raw(s, 48);
}

/// A grant in memory: the handle and the rights.
pub proof fn law_grant_layout(g: Grant)
    ensures
        g.spelled().len() == 8,
        bytes::u32_at(g.spelled(), 0) == g.handle.0,
        bytes::u32_at(g.spelled(), 4) == g.rights.0,
{
    let s = g.spelled();
    bytes::lemma_pow256();
    bytes::lemma_le_bytes_len(g.handle.0 as int, 4);
    bytes::lemma_le_bytes_len(g.rights.0 as int, 4);
    assert(s.subrange(0, 4) =~= bytes::le_bytes(g.handle.0 as int, 4));
    assert(s.subrange(4, 8) =~= bytes::le_bytes(g.rights.0 as int, 4));
    lemma_spelled_at(s, 0, g.handle.0 as int, 4);
    lemma_spelled_at(s, 4, g.rights.0 as int, 4);
    bytes::lemma_raw(s, 0);
    bytes::lemma_raw(s, 4);
}

} // verus!
