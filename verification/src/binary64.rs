//! Real numbers as the library's logic sees them.
//!
//! The copula routines read and compare binary64 values (`f64`). The library
//! holds such a value as its IEEE-754 bit pattern (`f64::to_bits`), and every
//! comparison, finiteness test or range test it makes is computed here, on
//! integers, with its meaning stated over [`order_key`].
//!
//! For a value that is not NaN, `order_key` is an integer that orders the
//! values exactly as `<` on `f64` does: positive values by their bit pattern,
//! negative values by the negated magnitude, and both zeros at 0. NaN is
//! unordered, as it is for `f64`: every comparison with it is false.

use vstd::prelude::*;

verus! {

/// The sign bit of a binary64 bit pattern.
pub const SIGN_BIT: u64 = 0x8000_0000_0000_0000;

/// The bit pattern of positive infinity; every larger magnitude is a NaN.
pub const INFINITY_BITS: u64 = 0x7FF0_0000_0000_0000;

/// The bit pattern of `0.0`.
pub const ZERO_BITS: u64 = 0;

/// The bit pattern of `1.0`.
pub const ONE_BITS: u64 = 0x3FF0_0000_0000_0000;

/// The bit pattern of `-1.0`.
pub const MINUS_ONE_BITS: u64 = 0xBFF0_0000_0000_0000;

/// The bit pattern of `f64::EPSILON` (2^-52).
pub const EPSILON_BITS: u64 = 0x3CB0_0000_0000_0000;

/// The magnitude of a value: its bit pattern without the sign bit.
pub open spec fn magnitude(b: u64) -> int {
    if b < SIGN_BIT {
        b as int
    } else {
        b - SIGN_BIT
    }
}

/// `b` is the bit pattern of a NaN.
pub open spec fn is_nan_bits(b: u64) -> bool {
    magnitude(b) > INFINITY_BITS
}

/// `b` is the bit pattern of a finite value (neither infinite nor NaN).
pub open spec fn is_finite_bits(b: u64) -> bool {
    magnitude(b) < INFINITY_BITS
}

/// The position of a non-NaN value on the real line, as an integer.
pub open spec fn order_key(b: u64) -> int {
    if b < SIGN_BIT {
        b as int
    } else {
        -(b - SIGN_BIT)
    }
}

/// `a <= b` on `f64`.
pub open spec fn le_bits(a: u64, b: u64) -> bool {
    !is_nan_bits(a) && !is_nan_bits(b) && order_key(a) <= order_key(b)
}

/// `a < b` on `f64`.
pub open spec fn lt_bits(a: u64, b: u64) -> bool {
    !is_nan_bits(a) && !is_nan_bits(b) && order_key(a) < order_key(b)
}

/// `a == b` on `f64` (so `-0.0 == 0.0`, and a NaN equals nothing).
pub open spec fn eq_bits(a: u64, b: u64) -> bool {
    !is_nan_bits(a) && !is_nan_bits(b) && order_key(a) == order_key(b)
}

/// `0.0 <= b && b <= 1.0`.
pub open spec fn in_unit_interval(b: u64) -> bool {
    le_bits(ZERO_BITS, b) && le_bits(b, ONE_BITS)
}

/// The key of `f64::total_cmp`: a strict total order on all bit patterns,
/// which puts `-0.0` before `0.0` and NaNs at the two ends.
pub open spec fn total_key(b: u64) -> int {
    if b < SIGN_BIT {
        b as int
    } else {
        -(b - SIGN_BIT) - 1
    }
}

/// Two bit patterns with the same total key are the same pattern.
pub proof fn lemma_total_key_injective(a: u64, b: u64)
    ensures
        total_key(a) == total_key(b) ==> a == b,
{
}

/// The magnitude of `b`, computed.
pub fn magnitude_of(b: u64) -> (m: u64)
    ensures
        m == magnitude(b),
        m < SIGN_BIT,
{
    if b < SIGN_BIT {
        b
    } else {
        b - SIGN_BIT
    }
}

/// `f64::is_nan`.
pub fn is_nan(b: u64) -> (r: bool)
    ensures
        r == is_nan_bits(b),
{
    magnitude_of(b) > INFINITY_BITS
}

/// `f64::is_finite`.
pub fn is_finite(b: u64) -> (r: bool)
    ensures
        r == is_finite_bits(b),
{
    magnitude_of(b) < INFINITY_BITS
}

/// The order key of `b` as a machine integer.
pub fn order_key_of(b: u64) -> (k: i64)
    ensures
        k == order_key(b),
{
    if b < SIGN_BIT {
        b as i64
    } else {
        let m = b - SIGN_BIT;
        -(m as i64)
    }
}

/// The total-order key of `b` (`f64::total_cmp`) as a machine integer.
pub fn total_key_of(b: u64) -> (k: i64)
    ensures
        k == total_key(b),
{
    if b < SIGN_BIT {
        b as i64
    } else {
        let m = b - SIGN_BIT;
        -(m as i64) - 1
    }
}

/// `a <= b` on `f64`.
pub fn le(a: u64, b: u64) -> (r: bool)
    ensures
        r == le_bits(a, b),
{
    !is_nan(a) && !is_nan(b) && order_key_of(a) <= order_key_of(b)
}

/// `a < b` on `f64`.
pub fn lt(a: u64, b: u64) -> (r: bool)
    ensures
        r == lt_bits(a, b),
{
    !is_nan(a) && !is_nan(b) && order_key_of(a) < order_key_of(b)
}

/// `a == b` on `f64`.
pub fn eq(a: u64, b: u64) -> (r: bool)
    ensures
        r == eq_bits(a, b),
{
    !is_nan(a) && !is_nan(b) && order_key_of(a) == order_key_of(b)
}

/// `(0.0..=1.0).contains(&b)`.
pub fn is_in_unit_interval(b: u64) -> (r: bool)
    ensures
        r == in_unit_interval(b),
{
    le(ZERO_BITS, b) && le(b, ONE_BITS)
}

/// `f64::total_cmp(a, b) == Less`.
pub fn total_lt(a: u64, b: u64) -> (r: bool)
    ensures
        r == (total_key(a) < total_key(b)),
{
    total_key_of(a) < total_key_of(b)
}

/// The comparisons agree with the real order of binary64 values, with the
/// IEEE-754 encoding written out: a pattern below 2^63 is the non-negative
/// value whose bits it is (its key is the pattern), the others are negative
/// (their key is minus the pattern without its sign bit); the patterns with
/// magnitude above that of infinity (0x7FF0_0000_0000_0000) are NaN, and
/// NaN compares false with everything. `[0, 1]` runs from key 0 to the key
/// of 1.0, 0x3FF0_0000_0000_0000.
pub proof fn lemma_comparisons_follow_the_real_order(a: u64, b: u64)
    ensures
        order_key(a) == (if a < 0x8000_0000_0000_0000 {
            a as int
        } else {
            -(a - 0x8000_0000_0000_0000)
        }),
        is_nan_bits(a) <==> (if a < 0x8000_0000_0000_0000 {
            a as int
        } else {
            a - 0x8000_0000_0000_0000
        }) > 0x7FF0_0000_0000_0000,
        is_finite_bits(a) <==> (if a < 0x8000_0000_0000_0000 {
            a as int
        } else {
            a - 0x8000_0000_0000_0000
        }) < 0x7FF0_0000_0000_0000,
        le_bits(a, b) <==> !is_nan_bits(a) && !is_nan_bits(b) && order_key(a) <= order_key(b),
        lt_bits(a, b) <==> !is_nan_bits(a) && !is_nan_bits(b) && order_key(a) < order_key(b),
        eq_bits(a, b) <==> !is_nan_bits(a) && !is_nan_bits(b) && order_key(a) == order_key(b),
        in_unit_interval(a) <==> !is_nan_bits(a) && 0 <= order_key(a) <= 0x3FF0_0000_0000_0000,
{
}

} // verus!
