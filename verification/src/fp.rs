//! Scalar arithmetic on IEEE-754 binary32 values, represented by their
//! 32-bit patterns.
//!
//! The whole numeric pipeline stores every scalar as the `u32` bit pattern
//! of an IEEE-754 binary32 number. The arithmetic itself is carried out by
//! `rustc_apfloat` (the software implementation of IEEE-754 binary
//! arithmetic that rustc itself uses for compile-time evaluation), behind
//! the trusted wrappers below. Each operation's result is a function of the
//! operand bit patterns alone, so each is given a name that contracts can
//! speak about.

use rustc_apfloat::Float;
use rustc_apfloat::Round;
use rustc_apfloat::ieee::Single;
use vstd::prelude::*;

verus! {

/// Bit pattern of positive zero.
pub const ZERO_BITS: u32 = 0x0000_0000;

/// Bit pattern of negative zero.
pub const NEG_ZERO_BITS: u32 = 0x8000_0000;

/// Bit pattern of one.
pub const ONE_BITS: u32 = 0x3f80_0000;

/// The exponent field is all ones and the fraction is not zero: not a number.
pub open spec fn fp_is_nan(a: u32) -> bool {
    (a & 0x7f80_0000) == 0x7f80_0000 && (a & 0x007f_ffff) != 0
}

/// The exponent field is not all ones: a zero, subnormal or normal number.
pub open spec fn fp_is_finite(a: u32) -> bool {
    (a & 0x7f80_0000) != 0x7f80_0000
}

/// The sign bit is set.
pub open spec fn fp_is_sign_neg(a: u32) -> bool {
    (a & 0x8000_0000) != 0
}

/// The value compares strictly below zero: the sign bit is set and the
/// value is neither negative zero nor a NaN.
pub open spec fn fp_lt_zero(a: u32) -> bool {
    fp_is_sign_neg(a) && a != NEG_ZERO_BITS && !fp_is_nan(a)
}

/// The binary32 sum of the two operands, rounded to nearest, ties to even.
pub uninterp spec fn fp_add(a: u32, b: u32) -> u32;

/// The binary32 difference of the two operands, rounded to nearest, ties to even.
pub uninterp spec fn fp_sub(a: u32, b: u32) -> u32;

/// The binary32 product of the two operands, rounded to nearest, ties to even.
pub uninterp spec fn fp_mul(a: u32, b: u32) -> u32;

/// The binary32 quotient of the two operands, rounded to nearest, ties to even.
pub uninterp spec fn fp_div(a: u32, b: u32) -> u32;

/// The binary32 value nearest to the given unsigned integer.
pub uninterp spec fn fp_of_u64(v: u64) -> u32;

/// The binary32 value nearest to the given signed integer.
pub uninterp spec fn fp_of_i64(v: i64) -> u32;

/// Decides `fp_lt_zero` on a bit pattern.
pub fn lt_zero(a: u32) -> (r: bool)
    ensures
        r == fp_lt_zero(a),
{
    (a & 0x8000_0000) != 0 && a != NEG_ZERO_BITS && !((a & 0x7f80_0000) == 0x7f80_0000 && (a
        & 0x007f_ffff) != 0)
}

/// Relies on `rustc_apfloat::ieee::Single::add_r`: IEEE-754 binary32
/// addition, rounded to nearest, ties to even.
#[verifier::external_body]
pub(crate) fn add_bits(a: u32, b: u32) -> (r: u32)
    ensures
        r == fp_add(a, b),
{
    Single::from_bits(a as u128).add_r(Single::from_bits(b as u128), Round::NearestTiesToEven)
        .value
        .to_bits() as u32
}

/// Relies on `rustc_apfloat::ieee::Single::sub_r`: IEEE-754 binary32
/// subtraction, rounded to nearest, ties to even. Under that rounding the
/// difference of a finite value and itself is exactly positive zero.
#[verifier::external_body]
pub(crate) fn sub_bits(a: u32, b: u32) -> (r: u32)
    ensures
        r == fp_sub(a, b),
        a == b && fp_is_finite(a) ==> r == ZERO_BITS,
{
    Single::from_bits(a as u128).sub_r(Single::from_bits(b as u128), Round::NearestTiesToEven)
        .value
        .to_bits() as u32
}

/// Relies on `rustc_apfloat::ieee::Single::mul_r`: IEEE-754 binary32
/// multiplication, rounded to nearest, ties to even. That operation is
/// symmetric in its operands whenever neither is a NaN; a product with
/// positive zero is the zero carrying the other operand's sign; and a
/// product with one returns the other operand unchanged.
#[verifier::external_body]
pub(crate) fn mul_bits(a: u32, b: u32) -> (r: u32)
    ensures
        r == fp_mul(a, b),
        !fp_is_nan(a) && !fp_is_nan(b) ==> r == fp_mul(b, a),
        b == ZERO_BITS && fp_is_finite(a) ==> r == (if fp_is_sign_neg(a) {
            NEG_ZERO_BITS
        } else {
            ZERO_BITS
        }),
        b == ONE_BITS && !fp_is_nan(a) ==> r == a,
{
    Single::from_bits(a as u128).mul_r(Single::from_bits(b as u128), Round::NearestTiesToEven)
        .value
        .to_bits() as u32
}

/// Relies on `rustc_apfloat::ieee::Single::div_r`: IEEE-754 binary32
/// division, rounded to nearest, ties to even. Positive zero divided by a
/// value that is positive and neither zero nor NaN is exactly positive zero.
#[verifier::external_body]
pub(crate) fn div_bits(a: u32, b: u32) -> (r: u32)
    ensures
        r == fp_div(a, b),
        a == ZERO_BITS && !fp_is_nan(b) && !fp_is_sign_neg(b) && b != ZERO_BITS ==> r == ZERO_BITS,
{
    Single::from_bits(a as u128).div_r(Single::from_bits(b as u128), Round::NearestTiesToEven)
        .value
        .to_bits() as u32
}

/// Relies on `rustc_apfloat::ieee::Single::from_u128_r`: conversion of an
/// unsigned integer to the nearest binary32 value, ties to even.
#[verifier::external_body]
pub(crate) fn bits_of_u64(v: u64) -> (r: u32)
    ensures
        r == fp_of_u64(v),
{
    Single::from_u128_r(v as u128, Round::NearestTiesToEven).value.to_bits() as u32
}

/// Relies on `rustc_apfloat::ieee::Single::from_i128_r`: conversion of a
/// signed integer to the nearest binary32 value, ties to even.
#[verifier::external_body]
pub(crate) fn bits_of_i64(v: i64) -> (r: u32)
    ensures
        r == fp_of_i64(v),
{
    Single::from_i128_r(v as i128, Round::NearestTiesToEven).value.to_bits() as u32
}

} // verus!
