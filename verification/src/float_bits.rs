//! Trusted bridge to IEEE-754 binary64 arithmetic.
//!
//! Float values travel through the library as their bit patterns (`u64`).
//! The numeric work on them — reading a decimal spelling and the four
//! arithmetic operations with round-to-nearest-even, together with IEEE
//! equality — is done by the software float implementation of the
//! `rustc_apfloat` crate. Each entry point below is a thin wrapper whose
//! contract names the result; nothing about the numeric values themselves is
//! assumed beyond determinism.

use core::str::FromStr;
use rustc_apfloat::ieee::Double;
use rustc_apfloat::Float;
use rustc_apfloat::Round;
use vstd::prelude::*;

verus! {

/// The bit pattern that reading the decimal spelling `w` yields.
pub uninterp spec fn float_bits_of(w: Seq<char>) -> u64;

/// The bit pattern of the IEEE-754 sum of two bit patterns.
pub uninterp spec fn float_add_bits(a: u64, b: u64) -> u64;

/// The bit pattern of the IEEE-754 difference of two bit patterns.
pub uninterp spec fn float_sub_bits(a: u64, b: u64) -> u64;

/// The bit pattern of the IEEE-754 product of two bit patterns.
pub uninterp spec fn float_mul_bits(a: u64, b: u64) -> u64;

/// The bit pattern of the IEEE-754 quotient of two bit patterns.
pub uninterp spec fn float_div_bits(a: u64, b: u64) -> u64;

/// Whether two bit patterns are equal as IEEE-754 values.
pub uninterp spec fn float_eq_bits(a: u64, b: u64) -> bool;

/// Relies on `rustc_apfloat::ieee::Double::from_str`: reads a decimal float
/// spelling with correct rounding. Its parser accepts every word made of an
/// optional sign, digits with at most one decimal point and at least one
/// digit, and an optional exponent part, which is what
/// `crate::lexer::is_plain_number` describes.
#[verifier::external_body]
pub(crate) fn parse_float_bits(s: &str) -> (r: Option<u64>)
    ensures
        r matches Some(b) ==> b == float_bits_of(s@),
        crate::lexer::is_plain_number(s@) ==> r.is_some(),
{
    match Double::from_str(s) {
        Ok(d) => Some(d.to_bits() as u64),
        Err(_) => None,
    }
}

/// Relies on `rustc_apfloat::Float::add_r` on `Double` with
/// round-to-nearest-even, the IEEE-754 default.
#[verifier::external_body]
pub(crate) fn add_bits(a: u64, b: u64) -> (r: u64)
    ensures
        r == float_add_bits(a, b),
{
    (Double::from_bits(a as u128).add_r(Double::from_bits(b as u128), Round::NearestTiesToEven))
        .value
        .to_bits() as u64
}

/// Relies on `rustc_apfloat::Float::sub_r` on `Double` with
/// round-to-nearest-even, the IEEE-754 default.
#[verifier::external_body]
pub(crate) fn sub_bits(a: u64, b: u64) -> (r: u64)
    ensures
        r == float_sub_bits(a, b),
{
    (Double::from_bits(a as u128).sub_r(Double::from_bits(b as u128), Round::NearestTiesToEven))
        .value
        .to_bits() as u64
}

/// Relies on `rustc_apfloat::Float::mul_r` on `Double` with
/// round-to-nearest-even, the IEEE-754 default.
#[verifier::external_body]
pub(crate) fn mul_bits(a: u64, b: u64) -> (r: u64)
    ensures
        r == float_mul_bits(a, b),
{
    (Double::from_bits(a as u128).mul_r(Double::from_bits(b as u128), Round::NearestTiesToEven))
        .value
        .to_bits() as u64
}

/// Relies on `rustc_apfloat::Float::div_r` on `Double` with
/// round-to-nearest-even, the IEEE-754 default; division by zero follows the
/// IEEE-754 rules and yields an infinity or a not-a-number pattern.
#[verifier::external_body]
pub(crate) fn div_bits(a: u64, b: u64) -> (r: u64)
    ensures
        r == float_div_bits(a, b),
{
    (Double::from_bits(a as u128).div_r(Double::from_bits(b as u128), Round::NearestTiesToEven))
        .value
        .to_bits() as u64
}

/// Relies on `PartialEq` for `rustc_apfloat::ieee::Double`: IEEE-754
/// equality, under which no not-a-number equals anything and the two zeros
/// are equal.
#[verifier::external_body]
pub(crate) fn eq_bits(a: u64, b: u64) -> (r: bool)
    ensures
        r == float_eq_bits(a, b),
{
    Double::from_bits(a as u128) == Double::from_bits(b as u128)
}

} // verus!
