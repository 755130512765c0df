use vstd::prelude::*;
use crate::types::EntityPropertyType;

verus! {

// ---------------------------------------------------------------------------
// Decimal integer grammar (what std's `FromStr` for the integer widths
// accepts): an optional sign, then one or more ASCII digits, value in range.
// ---------------------------------------------------------------------------

pub open spec fn is_digit(c: char) -> bool {
    48 <= c as u32 && c as u32 <= 57
}

pub open spec fn digit_val(c: char) -> nat {
    (c as u32 - 48) as nat
}

pub open spec fn all_digits(s: Seq<char>) -> bool {
    forall|i: int| 0 <= i < s.len() ==> is_digit(s[i])
}

/// Value of a digit string read in base 10.
pub open spec fn dec_val(s: Seq<char>) -> nat
    decreases s.len(),
{
    if s.len() == 0 {
        0
    } else {
        dec_val(s.drop_last()) * 10 + digit_val(s.last())
    }
}

/// The digit part of an unsigned literal: everything after an optional `+`.
pub open spec fn digits_part(s: Seq<char>) -> Seq<char> {
    if s.len() > 0 && s[0] == '+' {
        s.skip(1)
    } else {
        s
    }
}

/// `s` is a well-formed unsigned decimal literal.
pub open spec fn is_dec_uint(s: Seq<char>) -> bool {
    digits_part(s).len() > 0 && all_digits(digits_part(s))
}

/// `s` parses as an unsigned integer no larger than `max`.
pub open spec fn parses_uint_up_to(s: Seq<char>, max: nat) -> bool {
    is_dec_uint(s) && dec_val(digits_part(s)) <= max
}

pub open spec fn parses_u8(s: Seq<char>) -> bool {
    parses_uint_up_to(s, 0xFF)
}

pub open spec fn parses_u16(s: Seq<char>) -> bool {
    parses_uint_up_to(s, 0xFFFF)
}

pub open spec fn parses_u32(s: Seq<char>) -> bool {
    parses_uint_up_to(s, 0xFFFF_FFFF)
}

/// `s` parses as a signed 32-bit integer: `-` followed by digits with value
/// at most 2^31, or an unsigned literal of value at most 2^31 - 1.
pub open spec fn parses_i32(s: Seq<char>) -> bool {
    if s.len() > 0 && s[0] == '-' {
        s.skip(1).len() > 0 && all_digits(s.skip(1)) && dec_val(s.skip(1)) <= 0x8000_0000
    } else {
        parses_uint_up_to(s, 0x7FFF_FFFF)
    }
}

// ---------------------------------------------------------------------------
// Boolean and tri-state token sets.
// ---------------------------------------------------------------------------

/// The truthy/falsy token set of the boolean cascade step.
pub open spec fn bool_token_value(s: Seq<char>) -> Option<bool> {
    if s == "0"@ || s == "no"@ {
        Some(false)
    } else if s == "1"@ || s == "yes"@ {
        Some(true)
    } else {
        None
    }
}

pub open spec fn parses_bool(s: Seq<char>) -> bool {
    bool_token_value(s) is Some
}

/// The three tokens of the tri-state type.
pub open spec fn parses_negated(s: Seq<char>) -> bool {
    s == "1"@ || s == "0"@ || s == "allow entities that match criteria"@
}

// ---------------------------------------------------------------------------
// Results of the grammars that are not worth restating (floating point and
// the whitespace-separated component grammars built on it). Each name
// stands for "this string is accepted" of one parser of the map-data crate;
// the result depends on the characters alone.
// ---------------------------------------------------------------------------

pub uninterp spec fn parses_f32(s: Seq<char>) -> bool;

pub uninterp spec fn parses_color(s: Seq<char>) -> bool;

pub uninterp spec fn parses_light_color(s: Seq<char>) -> bool;

pub uninterp spec fn parses_angles(s: Seq<char>) -> bool;

pub uninterp spec fn parses_vector(s: Seq<char>) -> bool;

// ---------------------------------------------------------------------------
// Exec entry points.
// ---------------------------------------------------------------------------

/// The boolean reading of a raw property value, if it has one.
pub fn get_bool(value: &str) -> (r: Option<bool>)
    ensures
        r == bool_token_value(value@),
{
    if crate::strutil::str_eq(value, "0") || crate::strutil::str_eq(value, "no") {
        Some(false)
    } else if crate::strutil::str_eq(value, "1") || crate::strutil::str_eq(value, "yes") {
        Some(true)
    } else {
        None
    }
}

/// Relies on `vbsp::Negated`'s `FromStr`, which accepts exactly the tokens
/// `1`, `0` and `allow entities that match criteria`.
#[verifier::external_body]
fn negated_ok(s: &str) -> (r: bool)
    ensures
        r == parses_negated(s@),
{
    s.parse::<vbsp::Negated>().is_ok()
}

/// Relies on `vbsp::EntityProp` for `u8`, which is std's `u8::from_str`:
/// an optional `+`, one or more decimal digits, value at most 255.
#[verifier::external_body]
fn u8_ok(s: &str) -> (r: bool)
    ensures
        r == parses_u8(s@),
{
    <u8 as vbsp::EntityProp>::parse(s).is_ok()
}

/// Relies on `vbsp::EntityProp` for `u16` (std's `u16::from_str`).
#[verifier::external_body]
fn u16_ok(s: &str) -> (r: bool)
    ensures
        r == parses_u16(s@),
{
    <u16 as vbsp::EntityProp>::parse(s).is_ok()
}

/// Relies on `vbsp::EntityProp` for `u32` (std's `u32::from_str`).
#[verifier::external_body]
fn u32_ok(s: &str) -> (r: bool)
    ensures
        r == parses_u32(s@),
{
    <u32 as vbsp::EntityProp>::parse(s).is_ok()
}

/// Relies on `vbsp::EntityProp` for `i32` (std's `i32::from_str`): an
/// optional sign, decimal digits, value within the 32-bit signed range.
#[verifier::external_body]
fn i32_ok(s: &str) -> (r: bool)
    ensures
        r == parses_i32(s@),
{
    <i32 as vbsp::EntityProp>::parse(s).is_ok()
}

/// Relies on the single-precision float parser behind `vbsp::EntityProp`,
/// which is std's `FromStr` (the component type of `vbsp::Vector`, named
/// here through inference); whether a string is accepted depends on its
/// characters alone.
#[verifier::external_body]
fn float_ok(s: &str) -> (r: bool)
    ensures
        r == parses_f32(s@),
{
    let reference = <vbsp::Vector as vbsp::EntityProp>::parse("0 0 0");
    let parsed = s.parse();
    if let (Ok(a), Ok(v)) = (&parsed, &reference) {
        let _same_type = [*a, v.x];
    }
    parsed.is_ok()
}

/// Relies on `vbsp::Color`'s parser: exactly three whitespace-separated
/// `u8` components; acceptance depends on the characters alone.
#[verifier::external_body]
fn color_ok(s: &str) -> (r: bool)
    ensures
        r == parses_color(s@),
{
    <vbsp::Color as vbsp::EntityProp>::parse(s).is_ok()
}

/// Relies on `vbsp::LightColor`'s parser: four whitespace-separated numeric
/// components; acceptance depends on the characters alone.
#[verifier::external_body]
fn light_color_ok(s: &str) -> (r: bool)
    ensures
        r == parses_light_color(s@),
{
    <vbsp::LightColor as vbsp::EntityProp>::parse(s).is_ok()
}

/// Relies on `vbsp::Angles`' parser: three leading whitespace-separated
/// `f32` components; acceptance depends on the characters alone.
#[verifier::external_body]
fn angles_ok(s: &str) -> (r: bool)
    ensures
        r == parses_angles(s@),
{
    <vbsp::Angles as vbsp::EntityProp>::parse(s).is_ok()
}

/// Relies on `vbsp::Vector`'s parser: exactly three whitespace-separated
/// `f32` components; acceptance depends on the characters alone.
#[verifier::external_body]
fn vector_ok(s: &str) -> (r: bool)
    ensures
        r == parses_vector(s@),
{
    <vbsp::Vector as vbsp::EntityProp>::parse(s).is_ok()
}

/// Whether one raw value is accepted by the parser of the given candidate
/// type. `Str` accepts everything.
pub open spec fn parses_as(t: EntityPropertyType, s: Seq<char>) -> bool {
    match t {
        EntityPropertyType::Bool => parses_bool(s),
        EntityPropertyType::Negated => parses_negated(s),
        EntityPropertyType::U8 => parses_u8(s),
        EntityPropertyType::U16 => parses_u16(s),
        EntityPropertyType::U32 => parses_u32(s),
        EntityPropertyType::I32 => parses_i32(s),
        EntityPropertyType::F32 => parses_f32(s),
        EntityPropertyType::Color => parses_color(s),
        EntityPropertyType::LightColor => parses_light_color(s),
        EntityPropertyType::Angles => parses_angles(s),
        EntityPropertyType::Vector => parses_vector(s),
        EntityPropertyType::Str => true,
    }
}

/// Exec test for `parses_as`.
pub fn value_parses(t: EntityPropertyType, v: &str) -> (r: bool)
    ensures
        r == parses_as(t, v@),
{
    match t {
        EntityPropertyType::Bool => get_bool(v).is_some(),
        EntityPropertyType::Negated => negated_ok(v),
        EntityPropertyType::U8 => u8_ok(v),
        EntityPropertyType::U16 => u16_ok(v),
        EntityPropertyType::U32 => u32_ok(v),
        EntityPropertyType::I32 => i32_ok(v),
        EntityPropertyType::F32 => float_ok(v),
        EntityPropertyType::Color => color_ok(v),
        EntityPropertyType::LightColor => light_color_ok(v),
        EntityPropertyType::Angles => angles_ok(v),
        EntityPropertyType::Vector => vector_ok(v),
        EntityPropertyType::Str => true,
    }
}

} // verus!
