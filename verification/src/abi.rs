//! The kernel/user ABI: every number and type that crosses the boundary,
//! defined once and used by the kernel and every user program.
use vstd::prelude::*;

use crate::bytes;

pub mod sys;
pub mod tag;

verus! {

/// Every task's private window: 1 GiB at 16 GiB.
pub const USER_BASE: u64 = 0x4_0000_0000;

pub const USER_SIZE: u64 = 0x4000_0000;

pub const USER_STACK_SIZE: u64 = 0x1_0000;

pub const MAX_HANDLES: usize = 16;

pub const NAME_LEN: usize = 16;

pub const MAX_BINARY_NAME: usize = 32;

pub const MAX_LOG: usize = 256;

pub const RIGHT_SEND: u32 = 1;

pub const RIGHT_RECV: u32 = 2;

/// Syscall errors, returned in `x0` as negative numbers.
#[derive(Clone, Copy, Debug, PartialEq, Eq, Structural)]
pub enum Error {
    NoSuchSyscall,
    NoSuchHandle,
    NoRight,
    BadPointer,
    WouldBlock,
    Timeout,
    NotFound,
    NotPermitted,
    TableFull,
    ReceiverTaken,
    Full,
    Invalid,
    OutOfMemory,
}

impl Error {
    /// The number that stands for the error at the boundary.
    pub open spec fn spec_code(self) -> int {
        match self {
            Error::NoSuchSyscall => -1,
            Error::NoSuchHandle => -2,
            Error::NoRight => -3,
            Error::BadPointer => -4,
            Error::WouldBlock => -5,
            Error::Timeout => -6,
            Error::NotFound => -7,
            Error::NotPermitted => -8,
            Error::TableFull => -9,
            Error::ReceiverTaken => -10,
            Error::Full => -11,
            Error::Invalid => -12,
            Error::OutOfMemory => -13,
        }
    }

    pub fn code(self) -> (code: i64)
        ensures
            code == self.spec_code(),
    {
        match self {
            Error::NoSuchSyscall => -1,
            Error::NoSuchHandle => -2,
            Error::NoRight => -3,
            Error::BadPointer => -4,
            Error::WouldBlock => -5,
            Error::Timeout => -6,
            Error::NotFound => -7,
            Error::NotPermitted => -8,
            Error::TableFull => -9,
            Error::ReceiverTaken => -10,
            Error::Full => -11,
            Error::Invalid => -12,
            Error::OutOfMemory => -13,
        }
    }

    /// The error for a negative syscall result. Unknown codes map to `Invalid`.
    pub fn from_code(code: i64) -> (e: Error)
        ensures
            forall|f: Error| #[trigger] f.spec_code() == code ==> e == f,
            (forall|f: Error| #[trigger] f.spec_code() != code) ==> e == Error::Invalid,
    {
        let e: Error = match code {
            -1 => Error::NoSuchSyscall,
            -2 => Error::NoSuchHandle,
            -3 => Error::NoRight,
            -4 => Error::BadPointer,
            -5 => Error::WouldBlock,
            -6 => Error::Timeout,
            -7 => Error::NotFound,
            -8 => Error::NotPermitted,
            -9 => Error::TableFull,
            -10 => Error::ReceiverTaken,
            -11 => Error::Full,
            -12 => Error::Invalid,
            -13 => Error::OutOfMemory,
            _ => Error::Invalid,
        };
        assert(e.spec_code() == code || e == Error::Invalid);
        e
    }
}

/// Two errors never share a code, and every code is negative.
pub proof fn law_error_codes(a: Error, b: Error)
    ensures
        a.spec_code() == b.spec_code() ==> a == b,
        -13 <= a.spec_code() < 0,
{
}

/// A caller tells each error from the number that it gets back.
pub proof fn law_error_numbers(e: Error)
    ensures
        e is NoSuchSyscall <==> e.spec_code() == -1,
        e is NoSuchHandle <==> e.spec_code() == -2,
        e is NoRight <==> e.spec_code() == -3,
        e is BadPointer <==> e.spec_code() == -4,
        e is WouldBlock <==> e.spec_code() == -5,
        e is Timeout <==> e.spec_code() == -6,
        e is NotFound <==> e.spec_code() == -7,
        e is NotPermitted <==> e.spec_code() == -8,
        e is TableFull <==> e.spec_code() == -9,
        e is ReceiverTaken <==> e.spec_code() == -10,
        e is Full <==> e.spec_code() == -11,
        e is Invalid <==> e.spec_code() == -12,
        e is OutOfMemory <==> e.spec_code() == -13,
{
}

/// A message: a tag and 32 bytes of inline payload. The kernel always
/// overwrites `sender` with the real sending task (0 is the kernel).
#[derive(Clone, Copy, Debug, PartialEq, Eq)]
pub struct Message {
    pub tag: u32,
    pub sender: u16,
    pub len: u16,
    pub payload: [u64; 4],
}

/// The `NAME_LEN` bytes that a name packs into: cut when longer, zeros behind it when shorter.
pub open spec fn packed_name(name: Seq<u8>) -> Seq<u8> {
    Seq::new(NAME_LEN as nat, |i: int| if i < name.len() { name[i] } else { 0u8 })
}

pub open spec fn name_cut(n: int) -> int {
    if n < NAME_LEN {
        n
    } else {
        NAME_LEN as int
    }
}

impl Message {
    pub fn empty() -> (m: Message)
        ensures
            m.tag == 0,
            m.sender == 0,
            m.len == 0,
            m.payload@ == seq![0u64, 0, 0, 0],
    {
        Message { tag: 0, sender: 0, len: 0, payload: [0, 0, 0, 0] }
    }

    pub fn new(tag: u32) -> (m: Message)
        ensures
            m.tag == tag,
            m.sender == 0,
            m.len == 0,
            m.payload@ == seq![0u64, 0, 0, 0],
    {
        Message { tag, sender: 0, len: 0, payload: [0, 0, 0, 0] }
    }

    /// Sets one payload slot and grows `len` to reach its end. A slot that does
    /// not exist changes nothing.
    pub fn with_data(self, slot: usize, value: u64) -> (m: Message)
        ensures
            slot >= 4 ==> m == self,
            slot < 4 ==> {
                &&& m.tag == self.tag
                &&& m.sender == self.sender
                &&& m.payload@ == self.payload@.update(slot as int, value)
                &&& m.len == if (slot + 1) * 8 > self.len { (slot + 1) * 8 } else { self.len as int }
            },
    {
        let mut m: Message = self;
        if slot < 4 {
            m.payload[slot] = value;
            let end: u16 = ((slot + 1) * 8) as u16;
            if end > m.len {
                m.len = end;
            }
        }
        m
    }

    /// Packs a name of up to `NAME_LEN` bytes into the first two payload slots;
    /// longer names are cut.
    pub fn with_name(self, name: &str) -> (m: Message)
        ensures
            m.tag == self.tag,
            m.sender == self.sender,
            m.len == name_cut(vstd::utf8::encode_utf8(name@).len() as int),
            m.payload@ == self.payload@.update(0, bytes::le(packed_name(vstd::utf8::encode_utf8(name@)), 0, 8) as u64).update(
                1,
                bytes::le(packed_name(vstd::utf8::encode_utf8(name@)), 8, 8) as u64,
            ),
    {
        let given: &[u8] = name.as_bytes();
        let mut packed: Vec<u8> = Vec::new();
        let mut i: usize = 0;
        while i < NAME_LEN
            invariant
                i <= NAME_LEN,
                given@ == vstd::utf8::encode_utf8(name@),
                packed@ =~= packed_name(vstd::utf8::encode_utf8(name@)).subrange(0, i as int),
            decreases NAME_LEN - i,
        {
            packed.push(if i < given.len() { given[i] } else { 0 });
            i = i + 1;
        }
        assert(packed@ =~= packed_name(vstd::utf8::encode_utf8(name@)));
        let mut m: Message = self;
        m.payload[0] = bytes::read_u64_le(packed.as_slice(), 0);
        m.payload[1] = bytes::read_u64_le(packed.as_slice(), 8);
        m.len = if given.len() < NAME_LEN { given.len() as u16 } else { NAME_LEN as u16 };
        m
    }

    /// The name packed by `with_name`: the bytes and their length.
    pub fn name(&self) -> (r: (Vec<u8>, usize))
        ensures
            r.0@ == bytes::le_bytes(self.payload@[0] as int, 8) + bytes::le_bytes(self.payload@[1] as int, 8),
            r.1 == name_cut(self.len as int),
    {
        let mut packed: Vec<u8> = Vec::new();
        bytes::push_le(&mut packed, self.payload[0], 8);
        bytes::push_le(&mut packed, self.payload[1], 8);
        assert(packed@ =~= bytes::le_bytes(self.payload@[0] as int, 8) + bytes::le_bytes(self.payload@[1] as int, 8));
        let n: usize = self.len as usize;
        (packed, if n < NAME_LEN { n } else { NAME_LEN })
    }
}

/// A name that fits comes back whole out of the message it was packed into; a
/// longer one comes back cut to its first `NAME_LEN` bytes.
pub proof fn law_name_round_trip(name: Seq<u8>, p0: u64, p1: u64)
    requires
        p0 == bytes::le(packed_name(name), 0, 8),
        p1 == bytes::le(packed_name(name), 8, 8),
    ensures
        (bytes::le_bytes(p0 as int, 8) + bytes::le_bytes(p1 as int, 8)).subrange(0, name_cut(name.len() as int))
            == name.subrange(0, name_cut(name.len() as int)),
        bytes::le_bytes(p0 as int, 8) + bytes::le_bytes(p1 as int, 8) == packed_name(name),
{
    let p = packed_name(name);
    bytes::lemma_le_respell(p, 0, 8);
    bytes::lemma_le_respell(p, 8, 8);
    assert(p.subrange(0, 8) + p.subrange(8, 16) =~= p);
    assert(p.subrange(0, name_cut(name.len() as int)) =~= name.subrange(
        0,
        name_cut(name.len() as int),
    ));
}

/// A slot in the calling task's handle table.
#[derive(Clone, Copy, Debug, PartialEq, Eq, Structural)]
pub struct Handle(pub u32);

/// What a handle allows.
#[derive(Clone, Copy, Debug, PartialEq, Eq, Structural)]
pub struct Rights(pub u32);

impl Rights {
    /// No right at all.
    pub fn none() -> (r: Rights)
        ensures
            r.0 == 0,
    {
        Rights(0)
    }

    /// The right to send.
    pub fn send() -> (r: Rights)
        ensures
            r.0 == RIGHT_SEND,
    {
        Rights(RIGHT_SEND)
    }

    /// The right to receive.
    pub fn recv() -> (r: Rights)
        ensures
            r.0 == RIGHT_RECV,
    {
        Rights(RIGHT_RECV)
    }

    /// Whether bit `i` is among the rights.
    pub open spec fn has(self, i: u32) -> bool {
        (self.0 >> i) & 1 == 1
    }

    /// Every right of `other` is among these.
    pub fn contains(self, other: Rights) -> (r: bool)
        ensures
            r == (self.0 & other.0 == other.0),
            r ==> forall|i: u32| i < 32 && #[trigger] other.has(i) ==> self.has(i),
    {
        let a: u32 = self.0;
        let b: u32 = other.0;
        assert((a & b == b) ==> forall|i: u32|
            i < 32 && (b >> i) & 1 == 1 ==> (a >> i) & 1 == 1) by (bit_vector);
        self.0 & other.0 == other.0
    }

    pub fn union(self, other: Rights) -> (r: Rights)
        ensures
            r.0 == self.0 | other.0,
            forall|i: u32| i < 32 ==> #[trigger] r.has(i) == (self.has(i) || other.has(i)),
    {
        let a: u32 = self.0;
        let b: u32 = other.0;
        assert(forall|i: u32|
            i < 32 ==> (((a | b) >> i) & 1 == 1) == ((a >> i) & 1 == 1 || (b >> i) & 1 == 1))
            by (bit_vector);
        Rights(self.0 | other.0)
    }

    pub fn without(self, other: Rights) -> (r: Rights)
        ensures
            r.0 == self.0 & !other.0,
            forall|i: u32| i < 32 ==> #[trigger] r.has(i) == (self.has(i) && !other.has(i)),
    {
        let a: u32 = self.0;
        let b: u32 = other.0;
        assert(forall|i: u32|
            i < 32 ==> (((a & !b) >> i) & 1 == 1) == ((a >> i) & 1 == 1 && (b >> i) & 1 != 1))
            by (bit_vector);
        Rights(self.0 & !other.0)
    }
}

/// A union holds both sides, and taking rights away leaves none of them.
pub proof fn law_rights(a: Rights, b: Rights)
    ensures
        (a.0 | b.0) & a.0 == a.0,
        (a.0 | b.0) & b.0 == b.0,
        (a.0 & !b.0) & b.0 == 0,
        a.0 & (a.0 & !b.0) == a.0 & !b.0,
{
    let x: u32 = a.0;
    let y: u32 = b.0;
    assert((x | y) & x == x && (x | y) & y == y && (x & !y) & y == 0 && x & (x & !y) == x & !y)
        by (bit_vector);
}

/// One handle for `spawn` to copy (SEND) or move (RECV) into the child.
#[derive(Clone, Copy, Debug, PartialEq, Eq, Structural)]
pub struct Grant {
    pub handle: Handle,
    pub rights: Rights,
}

/// `spawn`'s argument. The child's handles are the grants, in order, and its
/// `main` receives `arg`.
#[derive(Clone, Copy, Debug, PartialEq, Eq, Structural)]
pub struct SpawnRequest {
    pub name_ptr: u64,
    pub name_len: u64,
    pub binary_ptr: u64,
    pub binary_len: u64,
    pub grants_ptr: u64,
    pub grants_len: u64,
    pub arg: u64,
}

/// One life of one task slot.
#[derive(Clone, Copy, Debug, PartialEq, Eq, Structural)]
pub struct TaskRef {
    pub id: u16,
    pub generation: u32,
}

#[derive(Clone, Copy, Debug, PartialEq, Eq, Structural)]
pub enum ExitReason {
    Clean,
    Fault,
    Panic,
}

impl ExitReason {
    pub open spec fn spec_code(self) -> int {
        match self {
            ExitReason::Clean => 1,
            ExitReason::Fault => 2,
            ExitReason::Panic => 3,
        }
    }

    /// The number that stands for the reason in an exit notice.
    pub fn code(self) -> (code: u64)
        ensures
            code == self.spec_code(),
    {
        match self {
            ExitReason::Clean => 1,
            ExitReason::Fault => 2,
            ExitReason::Panic => 3,
        }
    }

    pub fn from_u64(value: u64) -> (r: Option<ExitReason>)
        ensures
            match r {
                Some(reason) => reason.spec_code() == value,
                None => forall|reason: ExitReason| #[trigger] reason.spec_code() != value,
            },
    {
        match value {
            1 => Some(ExitReason::Clean),
            2 => Some(ExitReason::Fault),
            3 => Some(ExitReason::Panic),
            _ => None,
        }
    }

    pub fn as_str(self) -> (s: &'static str)
        ensures
            s@ == match self {
                ExitReason::Clean => "clean"@,
                ExitReason::Fault => "fault"@,
                ExitReason::Panic => "panic"@,
            },
    {
        match self {
            ExitReason::Clean => "clean",
            ExitReason::Fault => "fault",
            ExitReason::Panic => "panic",
        }
    }
}

/// Every reason has a code of its own.
pub proof fn law_exit_reason_codes(a: ExitReason, b: ExitReason)
    ensures
        a.spec_code() == b.spec_code() ==> a == b,
{
}

} // verus!
