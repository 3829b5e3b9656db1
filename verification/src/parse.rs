//! Decimal parsing of settings, as `str::parse` does it for unsigned
//! integers.

use vstd::prelude::*;

verus! {

/// An ASCII decimal digit.
pub open spec fn is_digit(c: char) -> bool {
    '0' <= c && c <= '9'
}

/// The value of a string of decimal digits.
pub open spec fn digits_value(s: Seq<char>) -> nat
    decreases s.len(),
{
    if s.len() == 0 {
        0
    } else {
        digits_value(s.drop_last()) * 10 + ((s.last() as int) - ('0' as int)) as nat
    }
}

/// The digits of an unsigned decimal literal: an optional `+` followed by
/// at least one digit and nothing else.
pub open spec fn unsigned_digits(s: Seq<char>) -> Option<Seq<char>> {
    let d = if s.len() > 0 && s[0] == '+' {
        s.subrange(1, s.len() as int)
    } else {
        s
    };
    if d.len() > 0 && forall|i: int| 0 <= i < d.len() ==> is_digit(#[trigger] d[i]) {
        Some(d)
    } else {
        None
    }
}

/// The value `str::parse` gives an unsigned type whose largest value is
/// `max`: the literal's value when it is well formed and fits.
pub open spec fn parsed_unsigned(s: Seq<char>, max: nat) -> Option<nat> {
    match unsigned_digits(s) {
        Some(d) => if digits_value(d) <= max {
            Some(digits_value(d))
        } else {
            None
        },
        None => None,
    }
}

/// `str::parse::<u16>`: an optional `+` and decimal digits whose value
/// fits in a `u16`; any other text, and the empty text, is an error.
#[verifier::external_body]
pub(crate) fn parse_u16(s: &str) -> (r: Option<u16>)
    ensures
        r is Some <==> parsed_unsigned(s@, u16::MAX as nat) is Some,
        r matches Some(v) ==> parsed_unsigned(s@, u16::MAX as nat) == Some(v as nat),
{
    s.parse::<u16>().ok()
}

/// `str::parse::<u32>`: as for `u16`, with `u32::MAX` as the bound.
#[verifier::external_body]
pub(crate) fn parse_u32(s: &str) -> (r: Option<u32>)
    ensures
        r is Some <==> parsed_unsigned(s@, u32::MAX as nat) is Some,
        r matches Some(v) ==> parsed_unsigned(s@, u32::MAX as nat) == Some(v as nat),
{
    s.parse::<u32>().ok()
}

/// `str::parse::<usize>`: as for `u16`, with `usize::MAX` as the bound.
#[verifier::external_body]
pub(crate) fn parse_usize(s: &str) -> (r: Option<usize>)
    ensures
        r is Some <==> parsed_unsigned(s@, usize::MAX as nat) is Some,
        r matches Some(v) ==> parsed_unsigned(s@, usize::MAX as nat) == Some(v as nat),
{
    s.parse::<usize>().ok()
}

/// The value of an optional unsigned setting: the parsed value when the
/// setting is present and valid, the default otherwise.
pub open spec fn setting_or(setting: Option<Seq<char>>, max: nat, default: nat) -> nat {
    match setting {
        Some(s) => match parsed_unsigned(s, max) {
            Some(v) => v,
            None => default,
        },
        None => default,
    }
}

} // verus!
