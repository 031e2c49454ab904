use vstd::prelude::*;

verus! {

// Runtime numbers are IEEE-754 binary64 values, carried everywhere as their
// 64-bit pattern. The arithmetic itself is done by the `rustc_apfloat`
// software-float library; equality is stated concretely on the bit patterns,
// and each remaining operation's result is named by an uninterpreted spec
// function of the operand bits, so contracts further up can speak about the
// results exactly.

/// The double denoted by a numeric lexeme, as a bit pattern.
pub uninterp spec fn dbl_of_text(text: Seq<u8>) -> u64;

/// The IEEE sum (round to nearest, ties to even) of two doubles, on bits.
pub uninterp spec fn dbl_add(a: u64, b: u64) -> u64;

/// The IEEE difference of two doubles, on bits.
pub uninterp spec fn dbl_sub(a: u64, b: u64) -> u64;

/// The IEEE product of two doubles, on bits.
pub uninterp spec fn dbl_mul(a: u64, b: u64) -> u64;

/// The IEEE quotient of two doubles, on bits.
pub uninterp spec fn dbl_div(a: u64, b: u64) -> u64;

/// A bit pattern that is an IEEE NaN: exponent all ones, mantissa nonzero.
pub open spec fn dbl_is_nan(b: u64) -> bool {
    (b & 0x7FF0_0000_0000_0000) == 0x7FF0_0000_0000_0000 && (b & 0x000F_FFFF_FFFF_FFFF) != 0
}

/// A bit pattern that is an IEEE zero of either sign.
pub open spec fn dbl_is_zero(b: u64) -> bool {
    (b & 0x7FFF_FFFF_FFFF_FFFF) == 0
}

/// IEEE equality of two doubles: NaN equals nothing, the two zeros equal
/// each other, and every other value equals exactly its own bit pattern.
pub open spec fn dbl_eq(a: u64, b: u64) -> bool {
    !dbl_is_nan(a) && !dbl_is_nan(b) && (a == b || (dbl_is_zero(a) && dbl_is_zero(b)))
}

/// The equality laws of the doubles: a NaN equals nothing, not even itself;
/// every other value equals itself; and equality is symmetric.
pub proof fn lemma_ieee_equality(a: u64, b: u64)
    ensures
        !dbl_is_nan(a) ==> dbl_eq(a, a),
        dbl_is_nan(a) ==> !dbl_eq(a, b) && !dbl_eq(b, a),
        dbl_eq(a, b) == dbl_eq(b, a),
{
}

/// IEEE strict less-than of two doubles.
pub uninterp spec fn dbl_lt(a: u64, b: u64) -> bool;

/// IEEE strict greater-than of two doubles.
pub uninterp spec fn dbl_gt(a: u64, b: u64) -> bool;

/// The decimal rendering of a double, as bytes.
pub uninterp spec fn dbl_text(bits: u64) -> Seq<u8>;

/// IEEE negation is exactly a flip of the sign bit, so it needs no library.
pub open spec fn dbl_negate(bits: u64) -> u64 {
    bits ^ 0x8000_0000_0000_0000u64
}

pub open spec fn is_digit_byte(b: u8) -> bool {
    48 <= b <= 57
}

pub open spec fn all_digit_bytes(s: Seq<u8>) -> bool {
    forall|i: int| 0 <= i < s.len() ==> is_digit_byte(#[trigger] s[i])
}

/// A numeric lexeme: one or more ASCII digits, optionally followed by a
/// decimal point and one or more further digits.
pub open spec fn is_number_text(s: Seq<u8>) -> bool {
    exists|k: int|
        1 <= k <= s.len() && all_digit_bytes(#[trigger] s.subrange(0, k)) && (k == s.len() || (
        s[k] == 46 && k + 1 < s.len() && all_digit_bytes(s.subrange(k + 1, s.len() as int))))
}

/// Flip the sign bit: IEEE-754 negation on the bit pattern.
pub fn negate_double(bits: u64) -> (r: u64)
    ensures
        r == dbl_negate(bits),
{
    bits ^ 0x8000_0000_0000_0000u64
}

/// Relies on rustc_apfloat's `Double` `FromStr`: decimal parsing with round
/// to nearest; a string of digits with an optional fractional part always
/// parses.
#[verifier::external_body]
pub fn parse_double(text: &[u8]) -> (r: Option<u64>)
    ensures
        r matches Some(bits) ==> bits == dbl_of_text(text@),
        is_number_text(text@) ==> r is Some,
{
    let s = core::str::from_utf8(text).ok()?;
    let d: rustc_apfloat::ieee::Double = s.parse().ok()?;
    Some(rustc_apfloat::Float::to_bits(d) as u64)
}

/// Relies on rustc_apfloat's `add_r` on `Double` with round to nearest.
#[verifier::external_body]
pub fn add_doubles(a: u64, b: u64) -> (r: u64)
    ensures
        r == dbl_add(a, b),
{
    let x = <rustc_apfloat::ieee::Double as rustc_apfloat::Float>::from_bits(a as u128);
    let y = <rustc_apfloat::ieee::Double as rustc_apfloat::Float>::from_bits(b as u128);
    let z = rustc_apfloat::Float::add_r(x, y, rustc_apfloat::Round::NearestTiesToEven).value;
    rustc_apfloat::Float::to_bits(z) as u64
}

/// Relies on rustc_apfloat's `sub_r` on `Double` with round to nearest.
#[verifier::external_body]
pub fn sub_doubles(a: u64, b: u64) -> (r: u64)
    ensures
        r == dbl_sub(a, b),
{
    let x = <rustc_apfloat::ieee::Double as rustc_apfloat::Float>::from_bits(a as u128);
    let y = <rustc_apfloat::ieee::Double as rustc_apfloat::Float>::from_bits(b as u128);
    let z = rustc_apfloat::Float::sub_r(x, y, rustc_apfloat::Round::NearestTiesToEven).value;
    rustc_apfloat::Float::to_bits(z) as u64
}

/// Relies on rustc_apfloat's `mul_r` on `Double` with round to nearest.
#[verifier::external_body]
pub fn mul_doubles(a: u64, b: u64) -> (r: u64)
    ensures
        r == dbl_mul(a, b),
{
    let x = <rustc_apfloat::ieee::Double as rustc_apfloat::Float>::from_bits(a as u128);
    let y = <rustc_apfloat::ieee::Double as rustc_apfloat::Float>::from_bits(b as u128);
    let z = rustc_apfloat::Float::mul_r(x, y, rustc_apfloat::Round::NearestTiesToEven).value;
    rustc_apfloat::Float::to_bits(z) as u64
}

/// Relies on rustc_apfloat's `div_r` on `Double` with round to nearest.
#[verifier::external_body]
pub fn div_doubles(a: u64, b: u64) -> (r: u64)
    ensures
        r == dbl_div(a, b),
{
    let x = <rustc_apfloat::ieee::Double as rustc_apfloat::Float>::from_bits(a as u128);
    let y = <rustc_apfloat::ieee::Double as rustc_apfloat::Float>::from_bits(b as u128);
    let z = rustc_apfloat::Float::div_r(x, y, rustc_apfloat::Round::NearestTiesToEven).value;
    rustc_apfloat::Float::to_bits(z) as u64
}

/// Relies on rustc_apfloat's `PartialEq` on `Double`: IEEE equality.
#[verifier::external_body]
pub fn eq_doubles(a: u64, b: u64) -> (r: bool)
    ensures
        r == dbl_eq(a, b),
{
    let x = <rustc_apfloat::ieee::Double as rustc_apfloat::Float>::from_bits(a as u128);
    let y = <rustc_apfloat::ieee::Double as rustc_apfloat::Float>::from_bits(b as u128);
    x == y
}

/// Relies on rustc_apfloat's `PartialOrd::lt` on `Double`: IEEE ordering.
#[verifier::external_body]
pub fn lt_doubles(a: u64, b: u64) -> (r: bool)
    ensures
        r == dbl_lt(a, b),
{
    let x = <rustc_apfloat::ieee::Double as rustc_apfloat::Float>::from_bits(a as u128);
    let y = <rustc_apfloat::ieee::Double as rustc_apfloat::Float>::from_bits(b as u128);
    x < y
}

/// Relies on rustc_apfloat's `PartialOrd::gt` on `Double`: IEEE ordering.
#[verifier::external_body]
pub fn gt_doubles(a: u64, b: u64) -> (r: bool)
    ensures
        r == dbl_gt(a, b),
{
    let x = <rustc_apfloat::ieee::Double as rustc_apfloat::Float>::from_bits(a as u128);
    let y = <rustc_apfloat::ieee::Double as rustc_apfloat::Float>::from_bits(b as u128);
    x > y
}

/// Relies on rustc_apfloat's `Display` on `Double`: a decimal rendering that
/// depends on the bit pattern alone. It agrees with the platform's default
/// rendering on ordinary values; it spells infinities `+Inf`/`-Inf` and
/// falls back to scientific notation for extreme magnitudes, where the
/// platform default would write them out in full.
#[verifier::external_body]
pub fn double_text(bits: u64) -> (r: Vec<u8>)
    ensures
        r@ == dbl_text(bits),
{
    let d = <rustc_apfloat::ieee::Double as rustc_apfloat::Float>::from_bits(bits as u128);
    format!("{}", d).into_bytes()
}

} // verus!
