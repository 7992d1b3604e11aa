use vstd::prelude::*;

verus! {

/// Names the IEEE-754 single-precision bit pattern that correctly rounded
/// decimal parsing assigns to a token, or `None` where the token is not a
/// valid float literal.
pub uninterp spec fn f32_bits_of_ascii(t: Seq<u8>) -> Option<u32>;

/// Names the decimal text that formatting an IEEE-754 single-precision
/// bit pattern yields.
pub uninterp spec fn ascii_of_f32_bits(b: u32) -> Seq<u8>;

/// Names the IEEE-754 double-precision bit pattern that correctly rounded
/// decimal parsing assigns to a token, or `None` where the token is not a
/// valid float literal.
pub uninterp spec fn f64_bits_of_ascii(t: Seq<u8>) -> Option<u64>;

/// Names the decimal text that formatting an IEEE-754 double-precision
/// bit pattern yields.
pub uninterp spec fn ascii_of_f64_bits(b: u64) -> Seq<u8>;

/// The pattern holds a NaN: exponent all ones and significand non-zero.
pub open spec fn f32_is_nan_bits(b: u32) -> bool {
    (b >> 23) & 0xff == 0xff && b & 0x7f_ffff != 0
}

/// The pattern holds a NaN: exponent all ones and significand non-zero.
pub open spec fn f64_is_nan_bits(b: u64) -> bool {
    (b >> 52) & 0x7ff == 0x7ff && b & 0xf_ffff_ffff_ffff != 0
}

/// Formatting these bits as text and parsing the text back returns the
/// same bits: every pattern that is not a NaN, and the canonical quiet
/// NaN (all NaN payloads print alike, so the others cannot round-trip).
pub open spec fn f32_text_round_trips(b: u32) -> bool {
    !f32_is_nan_bits(b) || b == 0x7fc0_0000
}

/// Formatting these bits as text and parsing the text back returns the
/// same bits: every pattern that is not a NaN, and the canonical quiet
/// NaN (all NaN payloads print alike, so the others cannot round-trip).
pub open spec fn f64_text_round_trips(b: u64) -> bool {
    !f64_is_nan_bits(b) || b == 0x7ff8_0000_0000_0000
}

/// Relies on `rustc_apfloat::ieee::Single`'s `FromStr`: correctly rounded
/// IEEE-754 single-precision decimal parsing, a function of the token text
/// alone, that refuses tokens which are not float literals.
#[verifier::external_body]
pub(crate) fn parse_f32_ascii(t: &Vec<u8>) -> (r: Option<u32>)
    ensures
        r == f32_bits_of_ascii(t@),
{
    match core::str::from_utf8(t) {
        Ok(s) => match s.parse::<rustc_apfloat::ieee::Single>() {
            Ok(v) => Some(rustc_apfloat::Float::to_bits(v) as u32),
            Err(_) => None,
        },
        Err(_) => None,
    }
}

/// Relies on `rustc_apfloat::ieee::Double`'s `FromStr`: correctly rounded
/// IEEE-754 double-precision decimal parsing, a function of the token text
/// alone, that refuses tokens which are not float literals.
#[verifier::external_body]
pub(crate) fn parse_f64_ascii(t: &Vec<u8>) -> (r: Option<u64>)
    ensures
        r == f64_bits_of_ascii(t@),
{
    match core::str::from_utf8(t) {
        Ok(s) => match s.parse::<rustc_apfloat::ieee::Double>() {
            Ok(v) => Some(rustc_apfloat::Float::to_bits(v) as u64),
            Err(_) => None,
        },
        Err(_) => None,
    }
}

/// Relies on `Display` of `rustc_apfloat::ieee::Single`, which by its own
/// statement prints enough decimal digits that the value can be parsed
/// back unchanged, prints every NaN as `NaN`, and writes one word of
/// sign, digit, point and exponent characters, never whitespace.
#[verifier::external_body]
pub(crate) fn format_f32_ascii(b: u32) -> (r: Vec<u8>)
    ensures
        r@ == ascii_of_f32_bits(b),
        f32_text_round_trips(b) ==> f32_bits_of_ascii(r@) == Some(b),
        crate::tokens::wf_token(r@),
{
    let v = <rustc_apfloat::ieee::Single as rustc_apfloat::Float>::from_bits(b as u128);
    format!("{}", v).into_bytes()
}

/// Relies on `Display` of `rustc_apfloat::ieee::Double`, which by its own
/// statement prints enough decimal digits that the value can be parsed
/// back unchanged, prints every NaN as `NaN`, and writes one word of
/// sign, digit, point and exponent characters, never whitespace.
#[verifier::external_body]
pub(crate) fn format_f64_ascii(b: u64) -> (r: Vec<u8>)
    ensures
        r@ == ascii_of_f64_bits(b),
        f64_text_round_trips(b) ==> f64_bits_of_ascii(r@) == Some(b),
        crate::tokens::wf_token(r@),
{
    let v = <rustc_apfloat::ieee::Double as rustc_apfloat::Float>::from_bits(b as u128);
    format!("{}", v).into_bytes()
}

} // verus!
