//! Runtime numbers.
//!
//! A Lox number is an IEEE 754 binary64 value.  Verified code stores only the
//! raw 64-bit pattern, so equality, ordering, negation and truthiness can be
//! stated and proved as plain bit logic.  Rounding arithmetic, decimal
//! parsing and decimal printing go through trusted wrappers around the
//! `rustc_apfloat` software implementation of binary64; each such result is
//! named by an uninterpreted spec function, since writing the IEEE algorithms
//! out here would state nothing that could be checked.

use vstd::prelude::*;

use rustc_apfloat::Float;
use rustc_apfloat::ieee::Double;

verus! {

pub const SIGN_MASK: u64 = 0x8000_0000_0000_0000;

/// Sign bit of a binary64 pattern: 1 for negative.
pub open spec fn f_sign(b: u64) -> u64 {
    b >> 63
}

/// Biased exponent field (11 bits).
pub open spec fn f_exp(b: u64) -> u64 {
    (b >> 52) & 0x7ff
}

/// Fraction field (52 bits).
pub open spec fn f_frac(b: u64) -> u64 {
    b & 0xf_ffff_ffff_ffff
}

/// The pattern encodes a NaN.
pub open spec fn f_is_nan(b: u64) -> bool {
    f_exp(b) == 0x7ff && f_frac(b) != 0
}

/// The pattern encodes a zero (of either sign).
pub open spec fn f_is_zero(b: u64) -> bool {
    b & 0x7fff_ffff_ffff_ffff == 0
}

/// The pattern encodes a normal number: nonzero, finite, not subnormal.
pub open spec fn f_is_normal(b: u64) -> bool {
    1 <= f_exp(b) && f_exp(b) <= 2046
}

/// IEEE 754 equality on binary64 patterns: NaN equals nothing, the two
/// zeros are equal, and otherwise equal patterns are equal values.
pub open spec fn f_eq(a: u64, b: u64) -> bool {
    &&& !f_is_nan(a)
    &&& !f_is_nan(b)
    &&& (a == b || (f_is_zero(a) && f_is_zero(b)))
}

/// IEEE 754 "less than" on binary64 patterns: false whenever either side is
/// NaN; otherwise sign-magnitude order on the patterns.
pub open spec fn f_lt(a: u64, b: u64) -> bool {
    &&& !f_is_nan(a)
    &&& !f_is_nan(b)
    &&& !(f_is_zero(a) && f_is_zero(b))
    &&& if f_sign(a) != f_sign(b) {
        f_sign(a) == 1
    } else if f_sign(a) == 0 {
        a < b
    } else {
        b < a
    }
}

pub open spec fn f_le(a: u64, b: u64) -> bool {
    f_lt(a, b) || f_eq(a, b)
}

/// IEEE 754 negation is exactly a flip of the sign bit.
pub open spec fn f_neg(b: u64) -> u64 {
    b ^ 0x8000_0000_0000_0000
}

pub fn num_eq(a: u64, b: u64) -> (r: bool)
    ensures
        r == f_eq(a, b),
{
    let nan_a: bool = (a >> 52) & 0x7ff == 0x7ff && a & 0xf_ffff_ffff_ffff != 0;
    let nan_b: bool = (b >> 52) & 0x7ff == 0x7ff && b & 0xf_ffff_ffff_ffff != 0;
    let zero_a: bool = a & 0x7fff_ffff_ffff_ffff == 0;
    let zero_b: bool = b & 0x7fff_ffff_ffff_ffff == 0;
    !nan_a && !nan_b && (a == b || (zero_a && zero_b))
}

pub fn num_lt(a: u64, b: u64) -> (r: bool)
    ensures
        r == f_lt(a, b),
{
    let nan_a: bool = (a >> 52) & 0x7ff == 0x7ff && a & 0xf_ffff_ffff_ffff != 0;
    let nan_b: bool = (b >> 52) & 0x7ff == 0x7ff && b & 0xf_ffff_ffff_ffff != 0;
    let zero_a: bool = a & 0x7fff_ffff_ffff_ffff == 0;
    let zero_b: bool = b & 0x7fff_ffff_ffff_ffff == 0;
    if nan_a || nan_b || (zero_a && zero_b) {
        false
    } else if (a >> 63) != (b >> 63) {
        a >> 63 == 1
    } else if a >> 63 == 0 {
        a < b
    } else {
        b < a
    }
}

pub fn num_le(a: u64, b: u64) -> (r: bool)
    ensures
        r == f_le(a, b),
{
    num_lt(a, b) || num_eq(a, b)
}

pub fn num_neg(b: u64) -> (r: u64)
    ensures
        r == f_neg(b),
{
    b ^ SIGN_MASK
}

pub fn num_is_normal(b: u64) -> (r: bool)
    ensures
        r == f_is_normal(b),
{
    let e: u64 = (b >> 52) & 0x7ff;
    1 <= e && e <= 2046
}

pub uninterp spec fn add_bits(a: u64, b: u64) -> u64;

pub uninterp spec fn sub_bits(a: u64, b: u64) -> u64;

pub uninterp spec fn mul_bits(a: u64, b: u64) -> u64;

pub uninterp spec fn div_bits(a: u64, b: u64) -> u64;

pub uninterp spec fn rem_bits(a: u64, b: u64) -> u64;

/// Relies on `rustc_apfloat::ieee::Double`'s `Add` (IEEE 754 binary64
/// addition, round to nearest, ties to even): the sum is a function of the
/// two bit patterns alone.
#[verifier::external_body]
pub(crate) fn num_add(a: u64, b: u64) -> (r: u64)
    ensures
        r == add_bits(a, b),
{
    (Double::from_bits(a as u128) + Double::from_bits(b as u128)).value.to_bits() as u64
}

/// Relies on `rustc_apfloat::ieee::Double`'s `Sub` (IEEE 754 binary64
/// subtraction, round to nearest, ties to even).
#[verifier::external_body]
pub(crate) fn num_sub(a: u64, b: u64) -> (r: u64)
    ensures
        r == sub_bits(a, b),
{
    (Double::from_bits(a as u128) - Double::from_bits(b as u128)).value.to_bits() as u64
}

/// Relies on `rustc_apfloat::ieee::Double`'s `Mul` (IEEE 754 binary64
/// multiplication, round to nearest, ties to even).
#[verifier::external_body]
pub(crate) fn num_mul(a: u64, b: u64) -> (r: u64)
    ensures
        r == mul_bits(a, b),
{
    (Double::from_bits(a as u128) * Double::from_bits(b as u128)).value.to_bits() as u64
}

/// Relies on `rustc_apfloat::ieee::Double`'s `Div` (IEEE 754 binary64
/// division, round to nearest, ties to even).
#[verifier::external_body]
pub(crate) fn num_div(a: u64, b: u64) -> (r: u64)
    ensures
        r == div_bits(a, b),
{
    (Double::from_bits(a as u128) / Double::from_bits(b as u128)).value.to_bits() as u64
}

/// Relies on `rustc_apfloat::ieee::Double`'s `Rem` (the C `fmod` remainder,
/// which is what `%` computes on hardware doubles).
#[verifier::external_body]
pub(crate) fn num_rem(a: u64, b: u64) -> (r: u64)
    ensures
        r == rem_bits(a, b),
{
    (Double::from_bits(a as u128) % Double::from_bits(b as u128)).value.to_bits() as u64
}

/// The shape of number literals the lexer produces: one or more digits,
/// optionally followed by a point and one or more digits.
pub open spec fn is_digit(c: char) -> bool {
    '0' <= c && c <= '9'
}

pub open spec fn is_num_lit(s: Seq<char>) -> bool {
    &&& s.len() > 0
    &&& is_digit(s[0])
    &&& is_digit(s[s.len() - 1])
    &&& forall|i: int| 0 <= i < s.len() ==> is_digit(s[i]) || s[i] == '.'
    &&& forall|i: int, j: int|
        0 <= i < s.len() && 0 <= j < s.len() && s[i] == '.' && s[j] == '.' ==> i == j
}

pub uninterp spec fn bits_of_decimal(s: Seq<char>) -> u64;

/// Relies on `rustc_apfloat::ieee::Double`'s `FromStr` (correctly rounded
/// decimal-to-binary64 conversion, round to nearest, ties to even).  A string
/// of the `is_num_lit` shape is valid decimal syntax, so the error branch is
/// unreachable for admitted inputs.
#[verifier::external_body]
pub(crate) fn num_parse(s: &str) -> (r: u64)
    requires
        is_num_lit(s@),
    ensures
        r == bits_of_decimal(s@),
{
    match s.parse::<Double>() {
        Ok(d) => d.to_bits() as u64,
        Err(_) => 0,
    }
}

pub uninterp spec fn display_of(b: u64) -> Seq<char>;

/// Relies on `rustc_apfloat::ieee::Double`'s `Display` (decimal rendering
/// with enough digits to round-trip): the text is a function of the bit
/// pattern alone.  The width parameter only raises the threshold below which
/// the rendering stays in plain decimal notation; this implementation never
/// pads.
#[verifier::external_body]
pub(crate) fn num_display(b: u64) -> (r: String)
    ensures
        r@ == display_of(b),
{
    format!("{:400}", Double::from_bits(b as u128))
}

pub uninterp spec fn bits_of_u64(n: u64) -> u64;

/// Relies on `rustc_apfloat::ieee::Double::from_u128` (integer-to-binary64
/// conversion, round to nearest, ties to even).
#[verifier::external_body]
pub(crate) fn num_from_u64(n: u64) -> (r: u64)
    ensures
        r == bits_of_u64(n),
{
    Double::from_u128(n as u128).value.to_bits() as u64
}

} // verus!
