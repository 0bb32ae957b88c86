//! How a parameter is seeded, and the entropy its uniform draws walk.
use vstd::prelude::*;

verus! {

/// How a parameter is seeded. The numbers are the bit patterns of 32-bit floats.
#[derive(Clone, Copy, PartialEq, Eq, Debug, Hash, Structural)]
pub enum Init {
    Zero,
    Constant(u32),
    Uniform { low: u32, high: u32 },
}

/// One xorshift step of a 32-bit entropy word.
pub open spec fn xorshift(e: u32) -> u32 {
    let a = e ^ (e << 13u32);
    let b = a ^ (a >> 17u32);
    b ^ (b << 5u32)
}

/// Steps the entropy and returns its top 24 bits: the numerator of a draw in
/// the unit interval whose denominator is two to the 24th.
pub fn unit_numerator(entropy: &mut u32) -> (r: u32)
    ensures
        *final(entropy) == xorshift(*old(entropy)),
        r == *final(entropy) >> 8u32,
        r < 0x0100_0000,
{
    let e = *entropy;
    let a = e ^ (e << 13u32);
    let b = a ^ (a >> 17u32);
    let c = b ^ (b << 5u32);
    *entropy = c;
    assert(c >> 8u32 < 0x0100_0000) by (bit_vector);
    c >> 8u32
}

} // verus!
