//! IEEE 754 binary64 arithmetic on bit patterns.
//!
//! The language's floating-point values are carried as `u64` bit patterns
//! (see [`crate::element::Element::Float`]). Every arithmetic or comparison
//! step on such a value is a pure function of the operand bits alone; those
//! functions are named here and computed by the `rustc_apfloat` soft-float
//! library, which implements IEEE 754 binary64 independently of the host's
//! floating-point hardware.

use vstd::prelude::*;
use rustc_apfloat::Float;
use rustc_apfloat::Round;
use rustc_apfloat::ieee::Double;

verus! {

/// The bit pattern of the IEEE 754 binary64 sum of two binary64 values,
/// rounded to nearest, ties to even.
pub uninterp spec fn add_bits(a: u64, b: u64) -> u64;

/// The bit pattern of the binary64 difference `a - b`, rounded to nearest.
pub uninterp spec fn sub_bits(a: u64, b: u64) -> u64;

/// The bit pattern of the binary64 product, rounded to nearest.
pub uninterp spec fn mul_bits(a: u64, b: u64) -> u64;

/// The bit pattern of the binary64 quotient `a / b`, rounded to nearest.
pub uninterp spec fn div_bits(a: u64, b: u64) -> u64;

/// The bit pattern of the binary64 remainder `a % b` with the semantics of
/// C `fmod` (truncated division; exact, no rounding).
pub uninterp spec fn fmod_bits(a: u64, b: u64) -> u64;

/// The IEEE 754 `a < b` comparison of two binary64 bit patterns; false
/// whenever either operand is a NaN.
pub uninterp spec fn lt_bits(a: u64, b: u64) -> bool;

/// The IEEE 754 `a <= b` comparison of two binary64 bit patterns.
pub uninterp spec fn le_bits(a: u64, b: u64) -> bool;

/// The IEEE 754 equality of two binary64 bit patterns: positive and negative
/// zero are equal, a NaN equals nothing.
pub uninterp spec fn eq_bits(a: u64, b: u64) -> bool;

/// The bit pattern of the binary64 value nearest to the 64-bit signed
/// integer `i` (rounded to nearest, ties to even).
pub uninterp spec fn float_of_int(i: i64) -> u64;

/// The binary64 bit pattern denoted by a token, if the token is a
/// floating-point literal: an optional sign followed by a decimal or
/// hexadecimal significand with an optional exponent, or a spelled-out
/// infinity or NaN; `None` for any other token.
pub uninterp spec fn float_of_text(s: Seq<char>) -> Option<u64>;

/// Relies on `rustc_apfloat::ieee::Double::add_r`: IEEE 754 binary64
/// addition, rounded to nearest, ties to even.
#[verifier::external_body]
pub(crate) fn f_add(a: u64, b: u64) -> (r: u64)
    ensures
        r == add_bits(a, b),
{
    let x = Double::from_bits(a as u128);
    let y = Double::from_bits(b as u128);
    x.add_r(y, Round::NearestTiesToEven).value.to_bits() as u64
}

/// Relies on `rustc_apfloat::ieee::Double::sub_r`: IEEE 754 binary64
/// subtraction, rounded to nearest, ties to even.
#[verifier::external_body]
pub(crate) fn f_sub(a: u64, b: u64) -> (r: u64)
    ensures
        r == sub_bits(a, b),
{
    let x = Double::from_bits(a as u128);
    let y = Double::from_bits(b as u128);
    x.sub_r(y, Round::NearestTiesToEven).value.to_bits() as u64
}

/// Relies on `rustc_apfloat::ieee::Double::mul_r`: IEEE 754 binary64
/// multiplication, rounded to nearest, ties to even.
#[verifier::external_body]
pub(crate) fn f_mul(a: u64, b: u64) -> (r: u64)
    ensures
        r == mul_bits(a, b),
{
    let x = Double::from_bits(a as u128);
    let y = Double::from_bits(b as u128);
    x.mul_r(y, Round::NearestTiesToEven).value.to_bits() as u64
}

/// Relies on `rustc_apfloat::ieee::Double::div_r`: IEEE 754 binary64
/// division, rounded to nearest, ties to even.
#[verifier::external_body]
pub(crate) fn f_div(a: u64, b: u64) -> (r: u64)
    ensures
        r == div_bits(a, b),
{
    let x = Double::from_bits(a as u128);
    let y = Double::from_bits(b as u128);
    x.div_r(y, Round::NearestTiesToEven).value.to_bits() as u64
}

/// Relies on `rustc_apfloat::ieee::Double::c_fmod`: the C `fmod` remainder,
/// which is what `%` computes on binary64 values.
#[verifier::external_body]
pub(crate) fn f_fmod(a: u64, b: u64) -> (r: u64)
    ensures
        r == fmod_bits(a, b),
{
    let x = Double::from_bits(a as u128);
    let y = Double::from_bits(b as u128);
    x.c_fmod(y).value.to_bits() as u64
}

/// Relies on `rustc_apfloat::ieee::Double`'s `PartialOrd`: the IEEE 754
/// ordering, in which a NaN compares with nothing.
#[verifier::external_body]
pub(crate) fn f_lt(a: u64, b: u64) -> (r: bool)
    ensures
        r == lt_bits(a, b),
{
    let x = Double::from_bits(a as u128);
    let y = Double::from_bits(b as u128);
    x < y
}

/// Relies on `rustc_apfloat::ieee::Double`'s `PartialOrd`: the IEEE 754
/// ordering, in which a NaN compares with nothing.
#[verifier::external_body]
pub(crate) fn f_le(a: u64, b: u64) -> (r: bool)
    ensures
        r == le_bits(a, b),
{
    let x = Double::from_bits(a as u128);
    let y = Double::from_bits(b as u128);
    x <= y
}

/// Relies on `rustc_apfloat::ieee::Double`'s `PartialEq`: IEEE 754 equality,
/// under which the two zeroes are equal and a NaN equals nothing.
#[verifier::external_body]
pub(crate) fn f_eq(a: u64, b: u64) -> (r: bool)
    ensures
        r == eq_bits(a, b),
{
    let x = Double::from_bits(a as u128);
    let y = Double::from_bits(b as u128);
    x == y
}

/// Relies on `Double::from_i128`: conversion of a
/// signed integer to the nearest binary64 value.
#[verifier::external_body]
pub(crate) fn f_of_int(i: i64) -> (r: u64)
    ensures
        r == float_of_int(i),
{
    Double::from_i128(i as i128).value.to_bits() as u64
}

/// Relies on `rustc_apfloat::ieee::Double`'s `FromStr`: correctly rounded
/// conversion of a decimal or hexadecimal literal to binary64; the result
/// depends on the characters alone.
#[verifier::external_body]
pub(crate) fn f_parse(chars: &Vec<char>) -> (r: Option<u64>)
    ensures
        r == float_of_text(chars@),
{
    let s: String = chars.iter().collect();
    match s.parse::<Double>() {
        Ok(v) => Some(v.to_bits() as u64),
        Err(_) => None,
    }
}

/// Whether a binary64 bit pattern denotes a value that is exactly zero:
/// positive or negative zero, and nothing else.
pub open spec fn f_is_zero(bits: u64) -> bool {
    bits == 0u64 || bits == 0x8000_0000_0000_0000u64
}

/// Exact-zero test on a binary64 bit pattern.
pub(crate) fn f_zero_test(bits: u64) -> (r: bool)
    ensures
        r == f_is_zero(bits),
{
    bits == 0u64 || bits == 0x8000_0000_0000_0000u64
}

} // verus!
