//! Arithmetic on the bit patterns of IEEE-754 doubles.
//!
//! The language's numbers are 64-bit IEEE-754 doubles, carried everywhere as
//! their raw bit pattern in a `u64`. Comparison and negation are defined
//! directly on the bits and verified; rounding arithmetic, decimal parsing
//! and decimal rendering are delegated to the `rustc_apfloat` soft-float
//! library, whose results are named by uninterpreted spec functions.

use vstd::prelude::*;
use rustc_apfloat::Float;

verus! {

/// Sign bit of a double's bit pattern.
pub const SIGN_BIT: u64 = 0x8000_0000_0000_0000;

/// The bits of a double below the sign bit: exponent and significand.
pub const MAGNITUDE_MASK: u64 = 0x7fff_ffff_ffff_ffff;

/// Exponent field of a double, shifted down.
pub open spec fn exponent_bits(a: u64) -> u64 {
    (a >> 52) & 0x7ff
}

/// The bit pattern denotes an IEEE-754 NaN: exponent all ones, nonzero
/// significand.
pub open spec fn is_nan_bits(a: u64) -> bool {
    exponent_bits(a) == 0x7ff && a & 0x000f_ffff_ffff_ffff != 0
}

/// The bit pattern denotes a zero of either sign.
pub open spec fn is_zero_bits(a: u64) -> bool {
    a & MAGNITUDE_MASK == 0
}

/// IEEE-754 equality of the doubles with bit patterns `a` and `b`:
/// NaN equals nothing, the two zeroes are equal, and otherwise equal
/// values have equal bit patterns.
pub open spec fn ieee_eq(a: u64, b: u64) -> bool {
    &&& !is_nan_bits(a)
    &&& !is_nan_bits(b)
    &&& (a == b || (is_zero_bits(a) && is_zero_bits(b)))
}

/// The signed key under which non-NaN doubles are ordered: the magnitude
/// bits, negated for negative numbers. IEEE-754 order coincides with the
/// order of these keys.
pub open spec fn order_key(a: u64) -> int {
    if a & SIGN_BIT == SIGN_BIT {
        -((a & MAGNITUDE_MASK) as int)
    } else {
        (a & MAGNITUDE_MASK) as int
    }
}

/// IEEE-754 `<` on bit patterns; false whenever either side is NaN.
pub open spec fn ieee_lt(a: u64, b: u64) -> bool {
    &&& !is_nan_bits(a)
    &&& !is_nan_bits(b)
    &&& order_key(a) < order_key(b)
}

/// IEEE-754 negation: flip the sign bit.
pub open spec fn ieee_neg(a: u64) -> u64 {
    a ^ SIGN_BIT
}

/// Names the bit pattern of the rounded IEEE-754 sum of the doubles `a`
/// and `b`, under round-to-nearest-ties-to-even.
pub uninterp spec fn add_bits(a: u64, b: u64) -> u64;

/// Names the bit pattern of the rounded IEEE-754 difference `a - b`.
pub uninterp spec fn sub_bits(a: u64, b: u64) -> u64;

/// Names the bit pattern of the rounded IEEE-754 product of `a` and `b`.
pub uninterp spec fn mul_bits(a: u64, b: u64) -> u64;

/// Names the bit pattern of the rounded IEEE-754 quotient `a / b`.
pub uninterp spec fn div_bits(a: u64, b: u64) -> u64;

/// Names the double obtained by reading a decimal numeral, rounded to
/// nearest-ties-to-even.
pub uninterp spec fn parse_bits(text: Seq<char>) -> u64;

/// Names the decimal rendering of the double with bit pattern `a`.
pub uninterp spec fn render_bits(a: u64) -> Seq<char>;

/// The text is a decimal numeral as the scanner produces it: one or more
/// digits, optionally followed by a point and one or more digits.
pub open spec fn is_number_text(s: Seq<char>) -> bool {
    ||| (s.len() > 0 && all_digits(s))
    ||| (exists|k: int|
        0 < k < s.len() as int - 1 && s[k] == '.' && all_digits(s.subrange(0, k)) && all_digits(
            s.subrange(k + 1, s.len() as int),
        ))
}

/// Every character of the sequence is a decimal digit.
pub open spec fn all_digits(s: Seq<char>) -> bool {
    forall|i: int| 0 <= i < s.len() ==> '0' <= #[trigger] s[i] <= '9'
}

/// Relies on `rustc_apfloat::ieee::Double::add_r` with round-to-nearest-
/// ties-to-even, the IEEE-754 addition of binary64; the sum is a function
/// of the two bit patterns alone.
#[verifier::external_body]
pub(crate) fn num_add(a: u64, b: u64) -> (r: u64)
    ensures
        r == add_bits(a, b),
{
    let x = rustc_apfloat::ieee::Double::from_bits(a as u128);
    let y = rustc_apfloat::ieee::Double::from_bits(b as u128);
    x.add_r(y, rustc_apfloat::Round::NearestTiesToEven).value.to_bits() as u64
}

/// Relies on `rustc_apfloat::ieee::Double::sub_r`, the IEEE-754
/// subtraction of binary64 under round-to-nearest-ties-to-even.
#[verifier::external_body]
pub(crate) fn num_sub(a: u64, b: u64) -> (r: u64)
    ensures
        r == sub_bits(a, b),
{
    let x = rustc_apfloat::ieee::Double::from_bits(a as u128);
    let y = rustc_apfloat::ieee::Double::from_bits(b as u128);
    x.sub_r(y, rustc_apfloat::Round::NearestTiesToEven).value.to_bits() as u64
}

/// Relies on `rustc_apfloat::ieee::Double::mul_r`, the IEEE-754
/// multiplication of binary64 under round-to-nearest-ties-to-even.
#[verifier::external_body]
pub(crate) fn num_mul(a: u64, b: u64) -> (r: u64)
    ensures
        r == mul_bits(a, b),
{
    let x = rustc_apfloat::ieee::Double::from_bits(a as u128);
    let y = rustc_apfloat::ieee::Double::from_bits(b as u128);
    x.mul_r(y, rustc_apfloat::Round::NearestTiesToEven).value.to_bits() as u64
}

/// Relies on `rustc_apfloat::ieee::Double::div_r`, the IEEE-754 division
/// of binary64 under round-to-nearest-ties-to-even.
#[verifier::external_body]
pub(crate) fn num_div(a: u64, b: u64) -> (r: u64)
    ensures
        r == div_bits(a, b),
{
    let x = rustc_apfloat::ieee::Double::from_bits(a as u128);
    let y = rustc_apfloat::ieee::Double::from_bits(b as u128);
    x.div_r(y, rustc_apfloat::Round::NearestTiesToEven).value.to_bits() as u64
}

/// Relies on `rustc_apfloat::ieee::Double::from_str`, which reads a
/// decimal numeral with correct rounding to nearest-ties-to-even and
/// accepts every numeral of the scanner's shape; the result is a function
/// of the text alone.
#[verifier::external_body]
pub(crate) fn num_parse(text: &str) -> (r: u64)
    requires
        is_number_text(text@),
    ensures
        r == parse_bits(text@),
{
    let d: rustc_apfloat::ieee::Double = text.parse().unwrap();
    d.to_bits() as u64
}

/// Relies on the `Display` rendering of `rustc_apfloat::ieee::Double`,
/// a decimal rendering of the value that depends on the bit pattern alone.
/// Its style differs from the host's own double formatting at the edges:
/// infinities print as `+Inf`/`-Inf`, not-a-number as `NaN`, and very
/// large or small magnitudes in scientific `E` notation.
#[verifier::external_body]
pub(crate) fn num_render(a: u64) -> (r: String)
    ensures
        r@ == render_bits(a),
{
    let d = rustc_apfloat::ieee::Double::from_bits(a as u128);
    format!("{}", d)
}

/// IEEE-754 equality of two doubles, computed on their bit patterns.
pub fn num_eq(a: u64, b: u64) -> (r: bool)
    ensures
        r == ieee_eq(a, b),
{
    let nan_a = (a >> 52) & 0x7ff == 0x7ff && a & 0x000f_ffff_ffff_ffff != 0;
    let nan_b = (b >> 52) & 0x7ff == 0x7ff && b & 0x000f_ffff_ffff_ffff != 0;
    !nan_a && !nan_b && (a == b || (a & MAGNITUDE_MASK == 0 && b & MAGNITUDE_MASK == 0))
}

/// IEEE-754 `<` of two doubles, computed on their bit patterns.
pub fn num_lt(a: u64, b: u64) -> (r: bool)
    ensures
        r == ieee_lt(a, b),
{
    let nan_a = (a >> 52) & 0x7ff == 0x7ff && a & 0x000f_ffff_ffff_ffff != 0;
    let nan_b = (b >> 52) & 0x7ff == 0x7ff && b & 0x000f_ffff_ffff_ffff != 0;
    if nan_a || nan_b {
        return false;
    }
    let ma = a & MAGNITUDE_MASK;
    let mb = b & MAGNITUDE_MASK;
    let neg_a = a & SIGN_BIT == SIGN_BIT;
    let neg_b = b & SIGN_BIT == SIGN_BIT;
    if neg_a && neg_b {
        mb < ma
    } else if neg_a {
        ma != 0 || mb != 0
    } else if neg_b {
        false
    } else {
        ma < mb
    }
}

/// IEEE-754 `>` of two doubles: the reverse of `<`.
pub fn num_gt(a: u64, b: u64) -> (r: bool)
    ensures
        r == ieee_lt(b, a),
{
    num_lt(b, a)
}

/// IEEE-754 negation: the sign bit flipped.
pub fn num_neg(a: u64) -> (r: u64)
    ensures
        r == ieee_neg(a),
{
    a ^ SIGN_BIT
}

} // verus!
