//! Finding a table of the firmware: the one that says where PCI configuration
//! space is.
use vstd::prelude::*;

use crate::mem;
use crate::mem::PhysMem;

verus! {

/// `RSD PTR ` as a number.
pub const RSDP_SIGNATURE: u64 = 0x2052_5450_2044_5352;

/// `MCFG` as a number.
pub const MCFG_SIGNATURE: u32 = 0x4746_434D;

/// The length of the header that all tables begin with.
pub const HEADER_LEN: u64 = 36;

/// The table at `at` lists its `width`-byte entries in memory, and has this
/// many.
pub open spec fn entries(m: Seq<u8>, at: int, width: int) -> int {
    let length = mem::word32(m, at + 4) as int;
    if 0 <= at && at + HEADER_LEN <= m.len() && HEADER_LEN <= length {
        (length - HEADER_LEN) / width
    } else {
        0
    }
}

/// Entry `i` of the table at `at`: the address of another table.
pub open spec fn entry(m: Seq<u8>, at: int, width: int, i: int) -> u64 {
    if width == 4 {
        mem::word32(m, at + HEADER_LEN + 4 * i) as u64
    } else {
        mem::word(m, at + HEADER_LEN + 8 * i)
    }
}

pub open spec fn is_mcfg(m: Seq<u8>, at: u64) -> bool {
    at + HEADER_LEN <= m.len() && mem::word32(m, at as int) == MCFG_SIGNATURE
}

/// The first MCFG table among the entries from `i` on of the table at `at`, as
/// far as they lie in memory.
pub open spec fn first_mcfg(m: Seq<u8>, at: int, width: int, i: int) -> Option<u64>
    decreases entries(m, at, width) - i,
{
    if i >= entries(m, at, width) || at + HEADER_LEN + width * (i + 1) > m.len() {
        None
    } else if is_mcfg(m, entry(m, at, width, i)) {
        Some(entry(m, at, width, i))
    } else {
        first_mcfg(m, at, width, i + 1)
    }
}

/// Where the MCFG table is, by the root pointer at `rsdp`: from version 2 on
/// the table of 64-bit addresses is preferred, where there is one.
pub open spec fn mcfg(m: Seq<u8>, rsdp: u64) -> Option<u64> {
    if rsdp == 0 || rsdp + HEADER_LEN > m.len() || mem::word(m, rsdp as int) != RSDP_SIGNATURE {
        None
    } else if m[rsdp + 15] >= 2 && mem::word(m, rsdp + 24) != 0 {
        first_mcfg(m, mem::word(m, rsdp + 24) as int, 8, 0)
    } else {
        first_mcfg(m, mem::word32(m, rsdp + 16) as int, 4, 0)
    }
}

fn find_in(m: &PhysMem, at: u64, wide: bool) -> (r: Option<u64>)
    ensures
        r == first_mcfg(
            m@,
            at as int,
            if wide {
                8
            } else {
                4
            },
            0,
        ),
{
    let ghost width: int = if wide {
        8
    } else {
        4
    };
    proof {
        m.lemma_size();
    }
    let size: u64 = m.size();
    if size < HEADER_LEN || at > size - HEADER_LEN {
        return None;
    }
    let length: u64 = m.read_u32(at + 4) as u64;
    if length < HEADER_LEN {
        return None;
    }
    let step: u64 = if wide { 8 } else { 4 };
    let n: u64 = (length - HEADER_LEN) / step;
    let mut i: u64 = 0;
    while i < n
        invariant
            i <= n,
            step == width,
            width == if wide {
                8int
            } else {
                4int
            },
            size == m@.len() <= usize::MAX,
            at + HEADER_LEN <= size,
            n == entries(m@, at as int, width),
            n <= 0x1_0000_0000,
            first_mcfg(m@, at as int, width, 0) == first_mcfg(m@, at as int, width, i as int),
        decreases n - i,
    {
        let rest: u64 = size - at - HEADER_LEN;
        if rest / step <= i {
            assert(at + HEADER_LEN + width * (i + 1) > m@.len()) by {
                if wide {
                    assert(rest < 8 * (i + 1));
                } else {
                    assert(rest < 4 * (i + 1));
                }
            }
            return None;
        }
        let place: u64 = at + HEADER_LEN + step * i;
        assert(place + step <= size);
        let table: u64 = if wide { m.read_word(place) } else { m.read_u32(place) as u64 };
        assert(table == entry(m@, at as int, width, i as int));
        if table <= size - HEADER_LEN && m.read_u32(table) == MCFG_SIGNATURE {
            return Some(table);
        }
        i = i + 1;
    }
    None
}

/// The address of the MCFG table, by the root pointer that the firmware handed
/// over.
pub fn init(m: &PhysMem, rsdp_addr: u64) -> (r: Option<u64>)
    ensures
        r == mcfg(m@, rsdp_addr),
{
    proof {
        m.lemma_size();
    }
    let size: u64 = m.size();
    if rsdp_addr == 0 || size < HEADER_LEN || rsdp_addr > size - HEADER_LEN {
        return None;
    }
    if m.read_word(rsdp_addr) != RSDP_SIGNATURE {
        return None;
    }
    let xsdt: u64 = m.read_word(rsdp_addr + 24);
    if m.read_byte(rsdp_addr + 15) >= 2 && xsdt != 0 {
        find_in(m, xsdt, true)
    } else {
        let rsdt: u64 = m.read_u32(rsdp_addr + 16) as u64;
        find_in(m, rsdt, false)
    }
}

/// The table that is found is an entry of the list with the signature `MCFG`, and none
/// before it has it; where none is found, none of the entries in memory has it.
pub proof fn law_first_mcfg(m: Seq<u8>, at: int, width: int, i: int, j: int)
    requires
        0 <= i <= j,
        width > 0,
        0 <= at,
        at + 36 <= m.len(),
        36 <= mem::word32(m, at + 4),
        j < (mem::word32(m, at + 4) - 36) / width,
        at + 36 + width * (j + 1) <= m.len(),
        ({
            let e = entry(m, at, width, j);
            e + 36 <= m.len() && mem::word32(m, e as int) == 0x4746_434D
        }),
    ensures
        first_mcfg(m, at, width, i) is Some,
        ({
            let t = first_mcfg(m, at, width, i).unwrap();
            t + 36 <= m.len() && mem::word32(m, t as int) == 0x4746_434D
        }),
        (forall|k: int|
            i <= k < j ==> !(#[trigger] entry(m, at, width, k) + 36 <= m.len() && mem::word32(
                m,
                entry(m, at, width, k) as int,
            ) == 0x4746_434D)) ==> first_mcfg(m, at, width, i) == Some(entry(m, at, width, j)),
    decreases j - i,
{
    assert(width * (i + 1) <= width * (j + 1)) by (nonlinear_arith)
        requires
            i <= j,
            width > 0,
    ;
    if i < j && !is_mcfg(m, entry(m, at, width, i)) {
        law_first_mcfg(m, at, width, i + 1, j);
    }
}

/// A root pointer without its signature names no table; from version 2 on the list of
/// wide addresses is used where there is one, and the narrow one otherwise.
pub proof fn law_root_pointer(m: Seq<u8>, rsdp: u64)
    requires
        0 < rsdp,
        rsdp + 36 <= m.len(),
    ensures
        mem::word(m, rsdp as int) != 0x2052_5450_2044_5352 ==> mcfg(m, rsdp) is None,
        mem::word(m, rsdp as int) == 0x2052_5450_2044_5352 && m[rsdp + 15] >= 2 && mem::word(
            m,
            rsdp + 24,
        ) != 0 ==> mcfg(m, rsdp) == first_mcfg(m, mem::word(m, rsdp + 24) as int, 8, 0),
        mem::word(m, rsdp as int) == 0x2052_5450_2044_5352 && (m[rsdp + 15] < 2 || mem::word(
            m,
            rsdp + 24,
        ) == 0) ==> mcfg(m, rsdp) == first_mcfg(m, mem::word32(m, rsdp + 16) as int, 4, 0),
{
}

} // verus!
