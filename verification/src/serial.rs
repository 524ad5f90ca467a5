//! The serial lines: what their registers say, and the bytes that go out.
use vstd::prelude::*;

verus! {

/// The first `n` bytes as the line carries them: a return before each line
/// feed.
pub open spec fn with_returns(s: Seq<u8>, n: int) -> Seq<u8>
    decreases n,
{
    if n <= 0 {
        Seq::empty()
    } else if s[n - 1] == 0x0A {
        with_returns(s, n - 1).push(0x0D).push(0x0A)
    } else {
        with_returns(s, n - 1).push(s[n - 1])
    }
}

/// What waits to be sent.
pub struct Serial {
    pub out: Vec<u8>,
}

impl Serial {
    /// One byte, as it is.
    pub fn write_byte_raw(&mut self, byte: u8)
        ensures
            final(self).out@ == old(self).out@.push(byte),
    {
        self.out.push(byte);
    }

    /// Text, with a return before each line feed.
    pub fn write_str(&mut self, s: &[u8])
        ensures
            final(self).out@ == old(self).out@ + with_returns(s@, s@.len() as int),
    {
        let mut i: usize = 0;
        assert(self.out@ =~= old(self).out@ + with_returns(s@, 0));
        while i < s.len()
            invariant
                i <= s@.len(),
                self.out@ == old(self).out@ + with_returns(s@, i as int),
            decreases s@.len() - i,
        {
            if s[i] == 0x0A {
                self.out.push(0x0D);
            }
            self.out.push(s[i]);
            i = i + 1;
            assert(self.out@ =~= old(self).out@ + with_returns(s@, i as int));
        }
    }
}

/// The control register of a PL011 line, from its base.
pub const UARTCR: usize = 0x30;

/// The line control register.
pub const UARTLCR_H: usize = 0x2C;

/// The writes that open a PL011 line that the firmware left alone: off, eight
/// bits with queues, then on in both directions. The speed stays as it is.
pub fn pl011_enable() -> (r: [(usize, u32); 3])
    ensures
        r@ == seq![(UARTCR, 0u32), (UARTLCR_H, 0x70u32), (UARTCR, 0x301u32)],
{
    let r: [(usize, u32); 3] = [(UARTCR, 0), (UARTLCR_H, 0x70), (UARTCR, 0x301)];
    assert(r@ =~= seq![(UARTCR, 0u32), (UARTLCR_H, 0x70u32), (UARTCR, 0x301u32)]);
    r
}

/// The register write that sends `byte`, once the flags say that there is
/// room (bit 5 clear).
pub fn serial_write_byte(flags: u32, byte: u8) -> (r: Option<u32>)
    ensures
        r == if flags / 32 % 2 == 1 {
            None
        } else {
            Some(byte as u32)
        },
{
    if flags / 32 % 2 == 1 {
        None
    } else {
        Some(byte as u32)
    }
}

/// The byte in the data register, unless the flags say that there is none
/// (bit 4 set).
pub fn serial_try_read(flags: u32, data: u32) -> (r: Option<u8>)
    ensures
        r == if flags / 16 % 2 == 1 {
            None
        } else {
            Some((data % 256) as u8)
        },
{
    if flags / 16 % 2 == 1 {
        None
    } else {
        Some((data % 256) as u8)
    }
}

/// On the line every end of a line comes with a return before it, and everything else
/// is as it was given.
pub proof fn law_returns(s: Seq<u8>, n: int)
    requires
        0 <= n < s.len(),
    ensures
        with_returns(s, 0).len() == 0,
        s[n] == 10 ==> with_returns(s, n + 1) == with_returns(s, n) + seq![13u8, 10u8],
        s[n] != 10 ==> with_returns(s, n + 1) == with_returns(s, n) + seq![s[n]],
{
    let r = with_returns(s, n);
    assert(r.push(0x0D).push(0x0A) =~= r + seq![13u8, 10u8]);
    assert(r.push(s[n]) =~= r + seq![s[n]]);
}

} // verus!
