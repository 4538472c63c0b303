//! Ordering of IEEE-754 binary64 numbers, read off their bit patterns.
//!
//! A pattern is a sign bit above a 63-bit magnitude. Magnitudes above that of
//! infinity are NaNs; every other pattern stands for a number whose place in the
//! order is its magnitude, negated when the sign bit is set. Both zeros share
//! place 0, so they compare equal, and a NaN compares with nothing.

use vstd::prelude::*;

verus! {

/// The sign bit of a binary64 pattern.
pub const SIGN_BIT: u64 = 0x8000_0000_0000_0000;

/// The magnitude of the two infinities; every larger magnitude is a NaN.
pub const INFINITY_MAGNITUDE: u64 = 0x7ff0_0000_0000_0000;

/// The pattern of positive zero.
pub const POSITIVE_ZERO: u64 = 0;

/// Whether the sign bit is set.
pub open spec fn is_negative(bits: u64) -> bool {
    bits >= SIGN_BIT
}

/// The pattern without its sign bit.
pub open spec fn magnitude(bits: u64) -> int {
    if is_negative(bits) {
        bits - SIGN_BIT
    } else {
        bits as int
    }
}

/// Whether the pattern is a NaN.
pub open spec fn is_nan(bits: u64) -> bool {
    magnitude(bits) > INFINITY_MAGNITUDE
}

/// The place of a number in the order of binary64; meaningful for patterns that
/// are not NaNs.
pub open spec fn rank(bits: u64) -> int {
    if is_negative(bits) {
        -magnitude(bits)
    } else {
        magnitude(bits)
    }
}

/// `a < b` as binary64 numbers: false whenever either is a NaN.
pub open spec fn lt(a: u64, b: u64) -> bool {
    !is_nan(a) && !is_nan(b) && rank(a) < rank(b)
}

/// `a <= b` as binary64 numbers: false whenever either is a NaN.
pub open spec fn le(a: u64, b: u64) -> bool {
    !is_nan(a) && !is_nan(b) && rank(a) <= rank(b)
}

/// `a == b` as binary64 numbers: false whenever either is a NaN, true of the
/// two zeros.
pub open spec fn eq(a: u64, b: u64) -> bool {
    !is_nan(a) && !is_nan(b) && rank(a) == rank(b)
}

/// The minimum that ignores a NaN operand. Where the operands compare equal, as
/// the two zeros do, the first is taken; no comparison tells it from the second.
pub open spec fn min_of(a: u64, b: u64) -> u64 {
    if is_nan(a) {
        b
    } else if is_nan(b) {
        a
    } else if lt(b, a) {
        b
    } else {
        a
    }
}

/// The maximum that ignores a NaN operand. Where the operands compare equal, as
/// the two zeros do, the first is taken; no comparison tells it from the second.
pub open spec fn max_of(a: u64, b: u64) -> u64 {
    if is_nan(a) {
        b
    } else if is_nan(b) {
        a
    } else if lt(a, b) {
        b
    } else {
        a
    }
}

/// The magnitude of a pattern.
fn magnitude_bits(bits: u64) -> (m: u64)
    ensures
        m == magnitude(bits),
{
    if bits >= SIGN_BIT {
        bits - SIGN_BIT
    } else {
        bits
    }
}

/// Tells whether a pattern is a NaN.
pub fn test_nan(bits: u64) -> (r: bool)
    ensures
        r == is_nan(bits),
{
    magnitude_bits(bits) > INFINITY_MAGNITUDE
}

/// Decides `a < b`.
pub fn test_lt(a: u64, b: u64) -> (r: bool)
    ensures
        r == lt(a, b),
{
    if test_nan(a) || test_nan(b) {
        return false;
    }
    let am: u64 = magnitude_bits(a);
    let bm: u64 = magnitude_bits(b);
    if a >= SIGN_BIT {
        if b >= SIGN_BIT {
            bm < am
        } else {
            am > 0 || bm > 0
        }
    } else {
        b < SIGN_BIT && am < bm
    }
}

/// Decides `a <= b`.
pub fn test_le(a: u64, b: u64) -> (r: bool)
    ensures
        r == le(a, b),
{
    if test_nan(a) || test_nan(b) {
        return false;
    }
    let am: u64 = magnitude_bits(a);
    let bm: u64 = magnitude_bits(b);
    if a >= SIGN_BIT {
        b < SIGN_BIT || bm <= am
    } else if b >= SIGN_BIT {
        am == 0 && bm == 0
    } else {
        am <= bm
    }
}

/// Decides `a == b`.
pub fn test_eq(a: u64, b: u64) -> (r: bool)
    ensures
        r == eq(a, b),
{
    if test_nan(a) || test_nan(b) {
        return false;
    }
    let am: u64 = magnitude_bits(a);
    let bm: u64 = magnitude_bits(b);
    a == b || (am == 0 && bm == 0)
}

/// Computes the NaN-ignoring minimum.
pub fn pick_min(a: u64, b: u64) -> (m: u64)
    ensures
        m == min_of(a, b),
{
    if test_nan(a) {
        b
    } else if test_nan(b) {
        a
    } else if test_lt(b, a) {
        b
    } else {
        a
    }
}

/// Computes the NaN-ignoring maximum.
pub fn pick_max(a: u64, b: u64) -> (m: u64)
    ensures
        m == max_of(a, b),
{
    if test_nan(a) {
        b
    } else if test_nan(b) {
        a
    } else if test_lt(a, b) {
        b
    } else {
        a
    }
}

/// A minimum lies below `c` exactly when one of its operands does, NaNs
/// included.
pub proof fn lemma_min_below(a: u64, b: u64, c: u64)
    ensures
        lt(min_of(a, b), c) == (lt(a, c) || lt(b, c)),
{
}

/// `c` is at most a maximum exactly when it is at most one of the operands,
/// NaNs included.
pub proof fn lemma_max_above(a: u64, b: u64, c: u64)
    ensures
        le(c, max_of(a, b)) == (le(c, a) || le(c, b)),
{
}

} // verus!
