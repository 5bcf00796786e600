//! Trusted boundary around IEEE 754 single-precision arithmetic.
//!
//! Verified code holds a single-precision float as its 32-bit IEEE
//! interchange pattern, a plain `u32`. The arithmetic itself is done by
//! `rustc_apfloat`'s software implementation of IEEE 754 (`ieee::Single`,
//! rounding to nearest, ties to even). Each operation the engine needs is
//! wrapped exactly once here; the result of every wrapped operation is a
//! function of the operand bits alone, and an uninterpreted spec function
//! gives that result a name, so that contracts can speak of it exactly.

use rustc_apfloat::ieee::Single;
use rustc_apfloat::Float;
use vstd::prelude::*;

verus! {

/// The bit pattern `rustc_apfloat`'s string parsing gives a string, if it
/// accepts it as a single-precision literal.
pub uninterp spec fn f32_of_str(s: Seq<char>) -> Option<u32>;

/// The bit pattern of the sum of the two floats the operand bits denote.
pub uninterp spec fn f32_add(a: u32, b: u32) -> u32;

/// The bit pattern of the difference of the two floats the operand bits denote.
pub uninterp spec fn f32_sub(a: u32, b: u32) -> u32;

/// The bit pattern of the product of the two floats the operand bits denote.
pub uninterp spec fn f32_mul(a: u32, b: u32) -> u32;

/// The bit pattern of the quotient of the two floats the operand bits denote.
/// By IEEE 754 semantics a zero divisor gives an infinity or a NaN, never a fault.
pub uninterp spec fn f32_div(a: u32, b: u32) -> u32;

/// The bit pattern of the negation of the float the operand bits denote.
pub uninterp spec fn f32_neg(a: u32) -> u32;

/// Whether the float the bits `a` denote is strictly greater than the one `b` denotes.
pub uninterp spec fn f32_gt(a: u32, b: u32) -> bool;

/// Whether the float the bits `a` denote is strictly less than the one `b` denotes.
pub uninterp spec fn f32_lt(a: u32, b: u32) -> bool;

/// Relies on `<rustc_apfloat::ieee::Single as FromStr>::from_str`: whether a
/// string is accepted as a float literal, and the value it then denotes,
/// depend on the characters alone (decimal literals are rounded to nearest).
///
/// Note that this parser is not std's: on plain decimal lexemes the two give
/// the same bits, but on special lexemes they differ — `from_str` takes
/// `inf`, `INFINITY`, `nan`/`NaN` with an optional digit payload (`nan123`)
/// and an `s`-prefixed signalling form, while it rejects other casings
/// (`Infinity`, `NAN`) that std would accept. A lexeme it rejects becomes a
/// `Variable` token.
#[verifier::external_body]
pub(crate) fn parse_f32_bits(s: &str) -> (r: Option<u32>)
    ensures
        r == f32_of_str(s@),
{
    match s.parse::<Single>() {
        Ok(value) => Some(value.to_bits() as u32),
        Err(_) => None,
    }
}

/// Relies on `rustc_apfloat::ieee::Single`'s addition: IEEE 754 addition of
/// the floats the operand bits denote, a function of those bits alone.
#[verifier::external_body]
pub(crate) fn add_bits(a: u32, b: u32) -> (r: u32)
    ensures
        r == f32_add(a, b),
{
    (Single::from_bits(a as u128) + Single::from_bits(b as u128)).value.to_bits() as u32
}

/// Relies on `rustc_apfloat::ieee::Single`'s subtraction: IEEE 754
/// subtraction of the floats the operand bits denote.
#[verifier::external_body]
pub(crate) fn sub_bits(a: u32, b: u32) -> (r: u32)
    ensures
        r == f32_sub(a, b),
{
    (Single::from_bits(a as u128) - Single::from_bits(b as u128)).value.to_bits() as u32
}

/// Relies on `rustc_apfloat::ieee::Single`'s multiplication: IEEE 754
/// multiplication of the floats the operand bits denote.
#[verifier::external_body]
pub(crate) fn mul_bits(a: u32, b: u32) -> (r: u32)
    ensures
        r == f32_mul(a, b),
{
    (Single::from_bits(a as u128) * Single::from_bits(b as u128)).value.to_bits() as u32
}

/// Relies on `rustc_apfloat::ieee::Single`'s division: IEEE 754 division of
/// the floats the operand bits denote; a zero divisor gives an infinity or a
/// NaN, never a fault.
#[verifier::external_body]
pub(crate) fn div_bits(a: u32, b: u32) -> (r: u32)
    ensures
        r == f32_div(a, b),
{
    (Single::from_bits(a as u128) / Single::from_bits(b as u128)).value.to_bits() as u32
}

/// Relies on `rustc_apfloat::ieee::Single`'s negation: flips the sign of the
/// float the operand bits denote.
#[verifier::external_body]
pub(crate) fn neg_bits(a: u32) -> (r: u32)
    ensures
        r == f32_neg(a),
{
    (-Single::from_bits(a as u128)).to_bits() as u32
}

/// Relies on `rustc_apfloat::ieee::Single`'s `PartialOrd`: IEEE 754 strict
/// `>` on the floats the operand bits denote (false when either is a NaN).
#[verifier::external_body]
pub(crate) fn gt_bits(a: u32, b: u32) -> (r: bool)
    ensures
        r == f32_gt(a, b),
{
    Single::from_bits(a as u128) > Single::from_bits(b as u128)
}

/// Relies on `rustc_apfloat::ieee::Single`'s `PartialOrd`: IEEE 754 strict
/// `<` on the floats the operand bits denote (false when either is a NaN).
#[verifier::external_body]
pub(crate) fn lt_bits(a: u32, b: u32) -> (r: bool)
    ensures
        r == f32_lt(a, b),
{
    Single::from_bits(a as u128) < Single::from_bits(b as u128)
}

/// Relies on `String::push`: appends the character to the end of the string.
#[verifier::external_body]
pub(crate) fn string_push(s: &mut String, c: char)
    ensures
        final(s)@ == old(s)@.push(c),
{
    s.push(c);
}

} // verus!
