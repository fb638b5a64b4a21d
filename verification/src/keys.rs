//! Order keys for `f32` bit patterns.
//!
//! The crate never computes with floating point.  A similarity produced by a
//! caller's kernel arrives as the `f32`'s raw bits; [`sim_key_from_bits`]
//! maps those bits to a `u32` whose unsigned order agrees with the order of
//! the finite floats they encode (sign bit set and the rest kept for
//! non-negative floats, all bits flipped for negative ones).  The result set
//! and the query pipeline compare these keys with plain integer `<`.

use vstd::prelude::*;

verus! {

/// The sign bit of an `f32` bit pattern.
pub const SIGN_BIT: u32 = 0x8000_0000;

/// The order key of the `f32` with bit pattern `bits`.
pub open spec fn spec_sim_key(bits: u32) -> u32 {
    if bits & SIGN_BIT != 0 {
        !bits
    } else {
        bits | SIGN_BIT
    }
}

/// The bit pattern whose order key is `key` (inverse of [`spec_sim_key`]).
pub open spec fn spec_bits_of_key(key: u32) -> u32 {
    if key & SIGN_BIT != 0 {
        key ^ SIGN_BIT
    } else {
        !key
    }
}

/// The magnitude of an `f32` bit pattern: its bits with the sign cleared.
/// For finite floats, unsigned order of magnitudes is the order of their
/// absolute values.
pub open spec fn spec_magnitude(bits: u32) -> u32 {
    bits & 0x7FFF_FFFF
}

/// Whether the encoded float is strictly positive (sign clear and not +0.0).
/// A NaN with clear sign counts as positive here; callers are responsible
/// for keeping non-finite values out, as nothing checks them on hot paths.
pub open spec fn spec_is_positive(bits: u32) -> bool {
    bits & SIGN_BIT == 0 && bits != 0
}

/// Maps an `f32` bit pattern to its total-order key.
pub fn sim_key_from_bits(bits: u32) -> (r: u32)
    ensures
        r == spec_sim_key(bits),
{
    if bits & SIGN_BIT != 0 {
        !bits
    } else {
        bits | SIGN_BIT
    }
}

/// Recovers the `f32` bit pattern from its order key.
pub fn bits_from_sim_key(key: u32) -> (r: u32)
    ensures
        r == spec_bits_of_key(key),
{
    if key & SIGN_BIT != 0 {
        key ^ SIGN_BIT
    } else {
        !key
    }
}

/// The key encoding loses nothing: decoding a key gives back the bits it
/// was made from, in both directions.
pub proof fn lemma_sim_key_round_trip(bits: u32, key: u32)
    ensures
        spec_bits_of_key(spec_sim_key(bits)) == bits,
        spec_sim_key(spec_bits_of_key(key)) == key,
{
    assert(spec_bits_of_key(spec_sim_key(bits)) == bits) by (bit_vector);
    assert(spec_sim_key(spec_bits_of_key(key)) == key) by (bit_vector);
}

} // verus!
