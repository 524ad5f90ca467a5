//! The 8259 interrupt controllers of the PC: what is written to their ports.
use vstd::prelude::*;

verus! {

/// The timer's vector, above those of the processor's own exceptions.
pub const TIMER_VECTOR: u8 = 32;

pub const PIC1_CMD: u16 = 0x20;

pub const PIC1_DATA: u16 = 0x21;

pub const PIC2_CMD: u16 = 0xA0;

pub const PIC2_DATA: u16 = 0xA1;

/// A write to this port does nothing but take time.
pub const WAIT_PORT: u16 = 0x80;

/// One pair of initialisation words, each with a pause after it.
pub open spec fn both(port1: u16, v1: u8, port2: u16, v2: u8) -> Seq<(u16, u8)> {
    seq![(port1, v1), (WAIT_PORT, 0u8), (port2, v2), (WAIT_PORT, 0u8)]
}

/// Both controllers start anew: vectors from 32 and from 40 on, the second on
/// line 2 of the first, and every line masked.
pub open spec fn initialisation() -> Seq<(u16, u8)> {
    both(PIC1_CMD, 0x11, PIC2_CMD, 0x11) + both(PIC1_DATA, 32, PIC2_DATA, 40) + both(
        PIC1_DATA,
        4,
        PIC2_DATA,
        2,
    ) + both(PIC1_DATA, 1, PIC2_DATA, 1) + seq![(PIC1_DATA, 0xFFu8), (PIC2_DATA, 0xFFu8)]
}

fn push_both(out: &mut Vec<(u16, u8)>, port1: u16, v1: u8, port2: u16, v2: u8)
    ensures
        final(out)@ == old(out)@ + both(port1, v1, port2, v2),
{
    out.push((port1, v1));
    out.push((WAIT_PORT, 0));
    out.push((port2, v2));
    out.push((WAIT_PORT, 0));
    assert(out@ =~= old(out)@ + both(port1, v1, port2, v2));
}

/// The writes that reinitialise both controllers.
pub fn init() -> (r: Vec<(u16, u8)>)
    ensures
        r@ == initialisation(),
{
    let mut r: Vec<(u16, u8)> = Vec::new();
    push_both(&mut r, PIC1_CMD, 0x11, PIC2_CMD, 0x11);
    push_both(&mut r, PIC1_DATA, 32, PIC2_DATA, 40);
    push_both(&mut r, PIC1_DATA, 4, PIC2_DATA, 2);
    push_both(&mut r, PIC1_DATA, 1, PIC2_DATA, 1);
    r.push((PIC1_DATA, 0xFF));
    r.push((PIC2_DATA, 0xFF));
    assert(r@ =~= initialisation());
    r
}

/// The port that holds the mask of a line.
pub open spec fn spec_mask_port(irq: u8) -> u16 {
    if irq < 8 {
        PIC1_DATA
    } else {
        PIC2_DATA
    }
}

pub fn mask_port(irq: u8) -> (port: u16)
    ensures
        port == spec_mask_port(irq),
{
    if irq < 8 {
        PIC1_DATA
    } else {
        PIC2_DATA
    }
}

proof fn lemma_unmask(mask: u8, bit: u8, other: u8)
    by (bit_vector)
    requires
        bit < 8,
        other < 8,
    ensures
        (mask & !(1u8 << bit)) & (1u8 << bit) == 0,
        other != bit ==> (mask & !(1u8 << bit)) & (1u8 << other) == mask & (1u8 << other),
{
}

/// The mask of a line's controller with that line open and every other as it
/// was.
pub fn unmask(irq: u8, mask: u8) -> (r: u8)
    requires
        irq < 16,
    ensures
        r & (1u8 << (irq % 8)) == 0,
        forall|other: u8|
            other < 8 && other != irq % 8 ==> #[trigger] (1u8 << other) & r == (1u8 << other) & mask,
{
    let bit: u8 = irq % 8;
    proof {
        lemma_unmask(mask, bit, bit);
        assert forall|other: u8| other < 8 && other != bit implies #[trigger] (1u8 << other) & (mask
            & !(1u8 << bit)) == (1u8 << other) & mask by {
            lemma_unmask(mask, bit, other);
            assert((1u8 << other) & (mask & !(1u8 << bit)) == (mask & !(1u8 << bit)) & (1u8
                << other) && (1u8 << other) & mask == mask & (1u8 << other)) by (bit_vector);
        }
    }
    mask & !(1u8 << bit)
}

/// The end of an interrupt on `irq`: both controllers are told of one on the
/// second.
pub fn eoi(irq: u8) -> (r: Vec<(u16, u8)>)
    ensures
        r@ == if irq >= 8 {
            seq![(PIC2_CMD, 0x20u8), (PIC1_CMD, 0x20u8)]
        } else {
            seq![(PIC1_CMD, 0x20u8)]
        },
{
    let mut r: Vec<(u16, u8)> = Vec::new();
    if irq >= 8 {
        r.push((PIC2_CMD, 0x20));
    }
    r.push((PIC1_CMD, 0x20));
    assert(r@ =~= if irq >= 8 {
        seq![(PIC2_CMD, 0x20u8), (PIC1_CMD, 0x20u8)]
    } else {
        seq![(PIC1_CMD, 0x20u8)]
    });
    r
}

/// The mask of each line is in its own controller, and both begin with every line
/// masked and vectors from 32 and 40 on.
pub proof fn law_lines(irq: u8)
    ensures
        irq < 8 ==> spec_mask_port(irq) == 0x21,
        8 <= irq ==> spec_mask_port(irq) == 0xA1,
        initialisation().len() == 18,
        initialisation()[4] == (0x21u16, 32u8),
        initialisation()[6] == (0xA1u16, 40u8),
        initialisation()[16] == (0x21u16, 0xFFu8),
        initialisation()[17] == (0xA1u16, 0xFFu8),
{
}

} // verus!
