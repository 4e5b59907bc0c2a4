//! A total order on IEEE 754 binary64 bit patterns.
//!
//! A binary64 pattern carries its sign in the top bit and the magnitude of
//! the encoded value (exponent and fraction together) in the remaining 63
//! bits. For patterns that do not encode a NaN, ordering by sign first and
//! then by magnitude — descending on the negative side — is exactly the
//! numeric order of the encoded values; the negative zero sits immediately
//! below the positive one, which refines the numeric order into a total one.

use vstd::prelude::*;

verus! {

/// Sign bit of a binary64 pattern.
pub const SIGN_MASK: u64 = 0x8000_0000_0000_0000;

/// Exponent and fraction bits of a binary64 pattern.
pub const MAGNITUDE_MASK: u64 = 0x7fff_ffff_ffff_ffff;

/// True when the pattern has its sign bit set.
pub open spec fn is_negative(bits: u64) -> bool {
    bits & SIGN_MASK != 0
}

/// The pattern's bits below the sign. Their unsigned order is the order of
/// the encoded values' distances from zero.
pub open spec fn magnitude(bits: u64) -> u64 {
    bits & MAGNITUDE_MASK
}

/// Numeric order of two binary64 patterns: negatives below non-negatives,
/// larger magnitude further from zero on either side.
pub open spec fn value_le(a: u64, b: u64) -> bool {
    if is_negative(a) != is_negative(b) {
        is_negative(a)
    } else if is_negative(a) {
        magnitude(b) <= magnitude(a)
    } else {
        magnitude(a) <= magnitude(b)
    }
}

/// The order key of a pattern: a negative pattern is complemented, any other
/// has the sign bit set. Unsigned comparison of keys is then `value_le`.
pub open spec fn spec_order_key(bits: u64) -> u64 {
    if is_negative(bits) {
        !bits
    } else {
        bits | SIGN_MASK
    }
}

/// Order-preserving key of a binary64 pattern.
pub fn order_key(bits: u64) -> (key: u64)
    ensures
        key == spec_order_key(bits),
{
    if bits & SIGN_MASK != 0 {
        !bits
    } else {
        bits | SIGN_MASK
    }
}

/// `value_le` is reflexive, antisymmetric, transitive and total.
pub proof fn lemma_value_le_total(a: u64, b: u64, c: u64)
    by (bit_vector)
    ensures
        value_le(a, a),
        value_le(a, b) && value_le(b, a) ==> a == b,
        value_le(a, b) && value_le(b, c) ==> value_le(a, c),
        value_le(a, b) || value_le(b, a),
{
}

/// Unsigned comparison of keys agrees with the value order of the patterns.
pub proof fn lemma_order_key_monotone(a: u64, b: u64)
    by (bit_vector)
    ensures
        spec_order_key(a) <= spec_order_key(b) <==> value_le(a, b),
{
}

} // verus!
