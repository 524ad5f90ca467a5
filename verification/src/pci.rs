//! PCI configuration space, mapped into memory (ECAM).
use vstd::prelude::*;

use crate::bytes;
use crate::mem;
use crate::mem::PhysMem;

verus! {

/// No function answers.
pub const ABSENT: u16 = 0xFFFF;

pub const MCFG_HEADER_LEN: u64 = 44;

pub const MCFG_ENTRY_LEN: u64 = 16;

#[derive(Clone, Copy, Debug, PartialEq, Eq, Structural)]
pub struct PciDevice {
    pub bus: u8,
    pub slot: u8,
    pub func: u8,
    pub vendor_id: u16,
    pub device_id: u16,
}

/// Where configuration space is.
#[derive(Clone, Copy, Debug, PartialEq, Eq, Structural)]
pub struct Ecam {
    pub base: u64,
    pub start_bus: u8,
    pub end_bus: u8,
}

/// What the MCFG table at `at` says of its first segment, if it has one.
pub open spec fn first_segment(m: Seq<u8>, at: u64) -> Option<Ecam> {
    let e = at + MCFG_HEADER_LEN;
    if mem::word32(m, at + 4) < MCFG_HEADER_LEN + MCFG_ENTRY_LEN {
        None
    } else {
        Some(Ecam { base: mem::word(m, e), start_bus: m[e + 10], end_bus: m[e + 11] })
    }
}

/// Reads where configuration space is from the MCFG table at `mcfg_addr`.
pub fn init(m: &PhysMem, mcfg_addr: u64) -> (r: Option<Ecam>)
    requires
        mcfg_addr + MCFG_HEADER_LEN + MCFG_ENTRY_LEN <= m@.len(),
    ensures
        r == first_segment(m@, mcfg_addr),
{
    proof {
        m.lemma_size();
    }
    let length: u64 = m.read_u32(mcfg_addr + 4) as u64;
    if length < MCFG_HEADER_LEN + MCFG_ENTRY_LEN {
        return None;
    }
    let e: u64 = mcfg_addr + MCFG_HEADER_LEN;
    Some(
        Ecam {
            base: m.read_word(e),
            start_bus: m.read_byte(e + 10),
            end_bus: m.read_byte(e + 11),
        },
    )
}

/// Where the configuration register `offset` of a function is.
pub open spec fn config_addr(ecam: Ecam, bus: u8, slot: u8, func: u8, offset: u16) -> int {
    (ecam.base | (bus as u64) << 20 | (slot as u64) << 15 | (func as u64) << 12 | offset as u64)
        as int
}

/// A register lies no further from the function's first than its offset.
pub proof fn lemma_offset(ecam: Ecam, bus: u8, slot: u8, func: u8, offset: u16)
    requires
        config_addr(ecam, bus, slot, func, 0) + offset <= u64::MAX,
    ensures
        0 <= config_addr(ecam, bus, slot, func, offset) <= config_addr(ecam, bus, slot, func, 0)
            + offset,
{
    let x = ecam.base | (bus as u64) << 20 | (slot as u64) << 15 | (func as u64) << 12;
    let o = offset as u64;
    assert(x | 0 == x) by (bit_vector);
    lemma_or(x, o);
}

proof fn lemma_or(x: u64, y: u64)
    requires
        x + y <= u64::MAX,
    ensures
        x | y <= x + y,
{
    assert(x <= !y ==> x | y <= (x + y) as u64) by (bit_vector);
    assert(!y == u64::MAX - y) by (bit_vector);
}

/// A function's first register lies no further from the base than its number
/// says.
proof fn lemma_first_register(ecam: Ecam, bus: u8, slot: u8, func: u8)
    requires
        ecam.base + bus * 0x10_0000 + slot * 0x8000 + func * 0x1000 <= u64::MAX,
    ensures
        config_addr(ecam, bus, slot, func, 0) <= ecam.base + bus * 0x10_0000 + slot * 0x8000
            + func * 0x1000,
{
    let (base, b, s, f) = (ecam.base, bus as u64, slot as u64, func as u64);
    assert(b << 20 == b * 0x10_0000 && s << 15 == s * 0x8000 && f << 12 == f * 0x1000)
        by (bit_vector)
        requires
            b <= 255,
            s <= 255,
            f <= 255,
    ;
    let x = base | b << 20 | s << 15 | f << 12;
    assert(x | 0 == x) by (bit_vector);
    lemma_or(base, b << 20);
    lemma_or(base | b << 20, s << 15);
    lemma_or(base | b << 20 | s << 15, f << 12);
}

impl Ecam {
    /// The registers of the first `buses` buses lie in memory.
    pub open spec fn wf(self, size: int, buses: int) -> bool {
        self.base + buses * 0x10_0000 <= size
    }
}

pub open spec fn word16(m: Seq<u8>, at: int) -> u16 {
    bytes::le(m, at, 2) as u16
}

impl PciDevice {
    /// The function's registers from `offset` on, `width` bytes of them, lie in
    /// memory.
    pub open spec fn reaches(self, ecam: Ecam, size: int, offset: u16, width: int) -> bool {
        config_addr(ecam, self.bus, self.slot, self.func, offset) + width <= size
    }

    fn config_addr(&self, ecam: &Ecam, offset: u16) -> (r: u64)
        ensures
            r == config_addr(*ecam, self.bus, self.slot, self.func, offset),
    {
        ecam.base | (self.bus as u64) << 20 | (self.slot as u64) << 15 | (self.func as u64) << 12
            | offset as u64
    }

    pub fn read_u32(&self, m: &PhysMem, ecam: &Ecam, offset: u16) -> (r: u32)
        requires
            self.reaches(*ecam, m@.len() as int, offset, 4),
        ensures
            r == mem::word32(m@, config_addr(*ecam, self.bus, self.slot, self.func, offset)),
    {
        proof {
            m.lemma_size();
        }
        m.read_u32(self.config_addr(ecam, offset))
    }

    pub fn read_u16(&self, m: &PhysMem, ecam: &Ecam, offset: u16) -> (r: u16)
        requires
            self.reaches(*ecam, m@.len() as int, offset, 2),
        ensures
            r == word16(m@, config_addr(*ecam, self.bus, self.slot, self.func, offset)),
    {
        proof {
            m.lemma_size();
            reveal_with_fuel(bytes::le, 3);
        }
        let at: u64 = self.config_addr(ecam, offset);
        m.read_byte(at) as u16 + 0x100 * (m.read_byte(at + 1) as u16)
    }

    pub fn read_u8(&self, m: &PhysMem, ecam: &Ecam, offset: u16) -> (r: u8)
        requires
            self.reaches(*ecam, m@.len() as int, offset, 1),
        ensures
            r == m@[config_addr(*ecam, self.bus, self.slot, self.func, offset)],
    {
        proof {
            m.lemma_size();
        }
        m.read_byte(self.config_addr(ecam, offset))
    }

    /// The first base address register.
    pub fn get_bar0(&self, m: &PhysMem, ecam: &Ecam) -> (r: u32)
        requires
            self.reaches(*ecam, m@.len() as int, 0x10, 4),
        ensures
            r == mem::word32(m@, config_addr(*ecam, self.bus, self.slot, self.func, 0x10)),
    {
        self.read_u32(m, ecam, 0x10)
    }
}

/// Function `n` in the order in which functions are looked at: eight for each
/// slot, 32 slots for each bus.
pub open spec fn function(m: Seq<u8>, ecam: Ecam, n: int) -> PciDevice {
    let (bus, slot, func) = ((n / 256) as u8, (n / 8 % 32) as u8, (n % 8) as u8);
    PciDevice {
        bus,
        slot,
        func,
        vendor_id: word16(m, config_addr(ecam, bus, slot, func, 0)),
        device_id: word16(m, config_addr(ecam, bus, slot, func, 2)),
    }
}

/// Function `n` answers. The functions of a slot are looked at only if its
/// first one does.
pub open spec fn present(m: Seq<u8>, ecam: Ecam, n: int) -> bool {
    function(m, ecam, n).vendor_id != ABSENT && function(m, ecam, n / 8 * 8).vendor_id != ABSENT
}

/// The first function from `n` on, among `end`, with these ids.
pub open spec fn first_match(
    m: Seq<u8>,
    ecam: Ecam,
    vendor_id: u16,
    device_id: u16,
    n: int,
    end: int,
) -> Option<PciDevice>
    decreases end - n,
{
    let f = function(m, ecam, n);
    if n >= end {
        None
    } else if present(m, ecam, n) && f.vendor_id == vendor_id && f.device_id == device_id {
        Some(f)
    } else {
        first_match(m, ecam, vendor_id, device_id, n + 1, end)
    }
}

/// The functions that answer, among the first `n`.
pub open spec fn all_present(m: Seq<u8>, ecam: Ecam, n: int) -> Seq<PciDevice>
    decreases n,
{
    if n <= 0 {
        Seq::empty()
    } else if present(m, ecam, n - 1) {
        all_present(m, ecam, n - 1).push(function(m, ecam, n - 1))
    } else {
        all_present(m, ecam, n - 1)
    }
}

/// Looks at function `n`, and at the first function of its slot.
fn look(m: &PhysMem, ecam: &Ecam, n: u64) -> (r: Option<PciDevice>)
    requires
        n < 2048,
        ecam.wf(m@.len() as int, n as int / 256 + 1),
    ensures
        r == if present(m@, *ecam, n as int) {
            Some(function(m@, *ecam, n as int))
        } else {
            None
        },
{
    let dev: PciDevice = PciDevice {
        bus: (n / 256) as u8,
        slot: (n / 8 % 32) as u8,
        func: (n % 8) as u8,
        vendor_id: 0,
        device_id: 0,
    };
    let first: PciDevice = PciDevice { func: 0, ..dev };
    proof {
        assert(n / 8 * 8 / 256 == n / 256);
        assert(n / 8 * 8 / 8 % 32 == n / 8 % 32);
        assert(n / 8 * 8 % 8 == 0);
        m.lemma_size();
        lemma_first_register(*ecam, first.bus, first.slot, first.func);
        lemma_first_register(*ecam, dev.bus, dev.slot, dev.func);
        lemma_offset(*ecam, dev.bus, dev.slot, dev.func, 2);
    }
    if first.read_u16(m, ecam, 0x00) == ABSENT {
        return None;
    }
    let v: u16 = dev.read_u16(m, ecam, 0x00);
    if v == ABSENT {
        return None;
    }
    let d: u16 = dev.read_u16(m, ecam, 0x02);
    Some(PciDevice { vendor_id: v, device_id: d, ..dev })
}

/// The first function with these ids on the first eight buses.
pub fn find_device(m: &PhysMem, ecam: &Ecam, vendor_id: u16, device_id: u16) -> (r: Option<
    PciDevice,
>)
    requires
        ecam.base == 0 || ecam.wf(m@.len() as int, 8),
    ensures
        r == if ecam.base == 0 {
            None
        } else {
            first_match(m@, *ecam, vendor_id, device_id, 0, 2048)
        },
{
    if ecam.base == 0 {
        return None;
    }
    let mut n: u64 = 0;
    while n < 2048
        invariant
            n <= 2048,
            ecam.base != 0,
            ecam.wf(m@.len() as int, 8),
            first_match(m@, *ecam, vendor_id, device_id, 0, 2048) == first_match(
                m@,
                *ecam,
                vendor_id,
                device_id,
                n as int,
                2048,
            ),
        decreases 2048 - n,
    {
        if let Some(f) = look(m, ecam, n) {
            if f.vendor_id == vendor_id && f.device_id == device_id {
                return Some(f);
            }
        }
        n = n + 1;
    }
    None
}

/// The functions on the first four buses.
pub fn scan_bus(m: &PhysMem, ecam: &Ecam) -> (r: Vec<PciDevice>)
    requires
        ecam.wf(m@.len() as int, 4),
    ensures
        r@ == all_present(m@, *ecam, 1024),
{
    let mut r: Vec<PciDevice> = Vec::new();
    let mut n: u64 = 0;
    assert(r@ =~= all_present(m@, *ecam, 0));
    while n < 1024
        invariant
            n <= 1024,
            ecam.wf(m@.len() as int, 4),
            r@ == all_present(m@, *ecam, n as int),
        decreases 1024 - n,
    {
        if let Some(f) = look(m, ecam, n) {
            r.push(f);
        }
        n = n + 1;
    }
    r
}

/// The functions are found in order: the one that is found answers, has the ids, and
/// none before it does.
pub proof fn law_first_match(
    m: Seq<u8>,
    ecam: Ecam,
    vendor_id: u16,
    device_id: u16,
    n: int,
    end: int,
    i: int,
)
    requires
        n <= i < end,
        present(m, ecam, i),
        function(m, ecam, i).vendor_id == vendor_id,
        function(m, ecam, i).device_id == device_id,
        forall|j: int|
            n <= j < i ==> !present(m, ecam, j) || (#[trigger] function(m, ecam, j)).vendor_id
                != vendor_id || function(m, ecam, j).device_id != device_id,
    ensures
        first_match(m, ecam, vendor_id, device_id, n, end) == Some(function(m, ecam, i)),
    decreases i - n,
{
    if n < i {
        assert(!present(m, ecam, n) || function(m, ecam, n).vendor_id != vendor_id || function(
            m,
            ecam,
            n,
        ).device_id != device_id);
        law_first_match(m, ecam, vendor_id, device_id, n + 1, end, i);
    }
}

/// Every function that answers is listed, in order, and no other.
pub proof fn law_all_present(m: Seq<u8>, ecam: Ecam, n: int)
    requires
        0 <= n,
    ensures
        all_present(m, ecam, 0).len() == 0,
        present(m, ecam, n) ==> all_present(m, ecam, n + 1) == all_present(m, ecam, n).push(
            function(m, ecam, n),
        ),
        !present(m, ecam, n) ==> all_present(m, ecam, n + 1) == all_present(m, ecam, n),
{
}

/// A function answers where neither it nor the first function of its slot reads as
/// all ones; there are eight functions in a slot and 32 slots on a bus.
pub proof fn law_present(m: Seq<u8>, ecam: Ecam, bus: u8, slot: u8, func: u8)
    requires
        slot < 32,
        func < 8,
    ensures
        ({
            let n = bus * 256 + slot * 8 + func;
            let f = function(m, ecam, n);
            &&& f.bus == bus && f.slot == slot && f.func == func
            &&& present(m, ecam, n) <==> f.vendor_id != 0xFFFF && function(
                m,
                ecam,
                bus * 256 + slot * 8,
            ).vendor_id != 0xFFFF
        }),
{
    let n = bus * 256 + slot * 8 + func;
    assert(n / 256 == bus && n / 8 % 32 == slot && n % 8 == func);
    assert(n / 8 * 8 == bus * 256 + slot * 8);
}

/// Configuration space has 4 KiB for each function, eight functions to a slot and 32
/// slots to a bus.
pub proof fn law_config_addr(ecam: Ecam, bus: u8, slot: u8, func: u8, offset: u16)
    requires
        ecam.base % 0x1000_0000 == 0,
        slot < 32,
        func < 8,
        offset < 4096,
    ensures
        config_addr(ecam, bus, slot, func, offset) == ecam.base + bus * 0x10_0000 + slot * 0x8000
            + func * 0x1000 + offset,
{
    let base: u64 = ecam.base;
    let (b, s, f, o) = (bus as u64, slot as u64, func as u64, offset as u64);
    assert(base | b << 20 | s << 15 | f << 12 | o == base + b * 0x10_0000 + s * 0x8000 + f * 0x1000
        + o) by (bit_vector)
        requires
            base % 0x1000_0000 == 0,
            b < 256,
            s < 32,
            f < 8,
            o < 4096,
    ;
}

/// The first segment of the table: its base behind the header, and the buses that it
/// spans; none where the table has no entry.
pub proof fn law_first_segment(m: Seq<u8>, at: u64)
    ensures
        mem::word32(m, at + 4) < 60 ==> first_segment(m, at) is None,
        mem::word32(m, at + 4) >= 60 ==> first_segment(m, at) == Some(
            Ecam { base: mem::word(m, at + 44), start_bus: m[at + 54], end_bus: m[at + 55] },
        ),
{
}

} // verus!
