//! The symbol encoder: one 8-bit channel value becomes 24 carrier bits
//! (3 wire bytes), one 3-bit pulse pattern per data bit.

use vstd::prelude::*;

verus! {

/// Number of zero bytes in a reset/latch flush. At the oversampled bit rate
/// this exceeds the LEDs' minimum latch duration.
pub const RESET_BYTES: usize = 20;

/// The 3-bit pulse pattern for one logical data bit, given as 0 or 1:
/// `0b110` (long high, short low) for a 1, `0b100` (short high, long low)
/// for a 0.
pub open spec fn pulse(bit: u32) -> u32 {
    4u32 | (bit << 1)
}

/// Bit `i` of `d`, as 0 or 1.
pub open spec fn bit_at(d: u8, i: u32) -> u32 {
    ((d as u32) >> i) & 1
}

/// The 24-bit carrier accumulator for one channel byte: the pulse patterns
/// of bits 7 down to 0 of `d`, most significant data bit first.
pub open spec fn encode24(d: u8) -> u32 {
    (pulse(bit_at(d, 7)) << 21) | (pulse(bit_at(d, 6)) << 18) | (pulse(bit_at(d, 5)) << 15)
        | (pulse(bit_at(d, 4)) << 12) | (pulse(bit_at(d, 3)) << 9) | (pulse(bit_at(d, 2)) << 6)
        | (pulse(bit_at(d, 1)) << 3) | pulse(bit_at(d, 0))
}

/// The three wire bytes for one channel byte: the accumulator split
/// most significant byte first.
pub open spec fn symbol_seq(d: u8) -> Seq<u8> {
    seq![
        ((encode24(d) >> 16) & 0xff) as u8,
        ((encode24(d) >> 8) & 0xff) as u8,
        (encode24(d) & 0xff) as u8,
    ]
}

/// `n` zero bytes.
pub open spec fn zeros(n: nat) -> Seq<u8> {
    Seq::new(n, |i: int| 0u8)
}

/// The reset/latch flush as it appears on the wire.
pub open spec fn reset_seq() -> Seq<u8> {
    zeros(RESET_BYTES as nat)
}

/// The pulse pattern of bit `i` of `d`.
fn pulse_at(d: u8, i: u32) -> (r: u32)
    requires
        i < 8,
    ensures
        r == pulse(bit_at(d, i)),
{
    4u32 | ((((d as u32) >> i) & 1) << 1)
}

/// Compute the 24-bit carrier accumulator for one channel byte.
pub fn encode_byte(d: u8) -> (r: u32)
    ensures
        r == encode24(d),
{
    let p7: u32 = pulse_at(d, 7);
    let p6: u32 = pulse_at(d, 6);
    let p5: u32 = pulse_at(d, 5);
    let p4: u32 = pulse_at(d, 4);
    let p3: u32 = pulse_at(d, 3);
    let p2: u32 = pulse_at(d, 2);
    let p1: u32 = pulse_at(d, 1);
    let p0: u32 = pulse_at(d, 0);
    (p7 << 21) | (p6 << 18) | (p5 << 15) | (p4 << 12) | (p3 << 9) | (p2 << 6) | (p1 << 3) | p0
}

/// Law: every 3-bit group of the 24-bit encoding is the pulse pattern of the
/// corresponding data bit — `0b110` where bit `i` of `d` is set, `0b100`
/// where it is clear.
pub proof fn lemma_encode_bit_groups(d: u8, i: u32)
    requires
        i < 8,
    ensures
        bit_at(d, i) == 1 ==> (encode24(d) >> (3 * i)) & 7 == 0b110,
        bit_at(d, i) == 0 ==> (encode24(d) >> (3 * i)) & 7 == 0b100,
{
    assert((bit_at(d, i) == 1 ==> (encode24(d) >> (3 * i)) & 7 == 0b110) && (bit_at(d, i) == 0
        ==> (encode24(d) >> (3 * i)) & 7 == 0b100)) by (bit_vector)
        requires
            i < 8,
    ;
}

/// Law: the three wire bytes, concatenated most significant byte first, are
/// exactly the 24-bit encoding (which fits in 24 bits).
pub proof fn lemma_symbol_seq_concat(d: u8)
    ensures
        symbol_seq(d).len() == 3,
        ((symbol_seq(d)[0] as u32) << 16) | ((symbol_seq(d)[1] as u32) << 8) | (symbol_seq(d)[2] as u32)
            == encode24(d),
        encode24(d) < 0x1000000,
{
    assert(((((encode24(d) >> 16) & 0xff) as u8 as u32) << 16) | ((((encode24(d) >> 8) & 0xff) as u8 as u32) << 8)
        | ((encode24(d) & 0xff) as u8 as u32) == encode24(d) && encode24(d) < 0x1000000)
        by (bit_vector);
}

} // verus!
