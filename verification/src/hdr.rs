//! The integer core of the HDR pseudo-random generator: a 5-component seed
//! (counter, entity, variable, two extra seeds) is mixed with SplitMix64 into
//! a 53-bit odd mantissa, which divided by 2^53 is a uniform value strictly
//! between 0 and 1.  Also the HDR seed records of a SIPmath library.

use vstd::prelude::*;

verus! {

/// One SplitMix64 mixing step.
pub open spec fn splitmix_spec(x: u64) -> u64 {
    let a = x.wrapping_add(0x9E37_79B9_7F4A_7C15);
    let b = (a ^ (a >> 30u64)).wrapping_mul(0xBF58_476D_1CE4_E5B9);
    let c = (b ^ (b >> 27u64)).wrapping_mul(0x94D0_49BB_1331_11EB);
    c ^ (c >> 31u64)
}

/// SplitMix64 mixing function.
pub fn splitmix(x: u64) -> (r: u64)
    ensures
        r == splitmix_spec(x),
{
    let a = x.wrapping_add(0x9E37_79B9_7F4A_7C15);
    let b = (a ^ (a >> 30u64)).wrapping_mul(0xBF58_476D_1CE4_E5B9);
    let c = (b ^ (b >> 27u64)).wrapping_mul(0x94D0_49BB_1331_11EB);
    c ^ (c >> 31u64)
}

/// The 64-bit state the seed mixes into.
pub open spec fn hdr_state(counter: u64, entity: u32, var_id: u32, seed3: u32, seed4: u32) -> u64 {
    let h0 = counter.wrapping_add((entity as u64).wrapping_mul(0x9E37_79B9_7F4A_7C15));
    let h1 = splitmix_spec(h0);
    let h2 = h1.wrapping_add((var_id as u64).wrapping_mul(0x6C62_272E_07BB_0142));
    let h3 = splitmix_spec(h2);
    let h4 = h3.wrapping_add((seed3 as u64).wrapping_mul(0x94D0_49BB_1331_11EB));
    let h5 = h4.wrapping_add((seed4 as u64).wrapping_mul(0x5555_5555_5555_5555));
    splitmix_spec(h5)
}

/// The top 53 bits of the mixed state with the lowest bit set: the numerator
/// of the uniform value over 2^53.  It is odd and below 2^53, so the value is
/// strictly between 0 and 1.
pub fn hdr_mantissa(counter: u64, entity: u32, var_id: u32, seed3: u32, seed4: u32) -> (r: u64)
    ensures
        r == ((hdr_state(counter, entity, var_id, seed3, seed4) >> 11u64) | 1u64),
        1 <= r < 0x20_0000_0000_0000,
        r % 2 == 1,
{
    let mut h: u64 = counter;
    h = h.wrapping_add((entity as u64).wrapping_mul(0x9E37_79B9_7F4A_7C15));
    h = splitmix(h);
    h = h.wrapping_add((var_id as u64).wrapping_mul(0x6C62_272E_07BB_0142));
    h = splitmix(h);
    h = h.wrapping_add((seed3 as u64).wrapping_mul(0x94D0_49BB_1331_11EB));
    h = h.wrapping_add((seed4 as u64).wrapping_mul(0x5555_5555_5555_5555));
    h = splitmix(h);
    let m = (h >> 11u64) | 1u64;
    assert(((h >> 11u64) | 1u64) >= 1 && ((h >> 11u64) | 1u64) < 0x20_0000_0000_0000 && ((h >> 11u64) | 1u64) % 2 == 1)
        by (bit_vector);
    m
}

/// HDR 2.0 seed arguments.
#[derive(Debug, Clone)]
pub struct RngArguments {
    pub counter: String,
    pub entity: u32,
    pub var_id: u32,
    pub seed3: u32,
    pub seed4: u32,
}

/// An RNG definition of a SIPmath library.
#[derive(Debug, Clone)]
pub struct RngDef {
    pub function: String,
    pub arguments: RngArguments,
}

} // verus!
