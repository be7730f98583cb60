//! Character classification and case folding.
//!
//! The Unicode notions of upper and lower case, and the full case mappings
//! of `str`, live in the standard library; they are named here by
//! uninterpreted spec functions so that contracts can speak about them.

use vstd::prelude::*;

verus! {

/// Whether a character counts as uppercase, as `char::is_uppercase` decides it.
pub uninterp spec fn is_upper(c: char) -> bool;

/// Whether a character counts as lowercase, as `char::is_lowercase` decides it.
pub uninterp spec fn is_lower(c: char) -> bool;

/// The lowercase mapping of a character sequence, as `str::to_lowercase` computes it.
pub uninterp spec fn lower_of(s: Seq<char>) -> Seq<char>;

/// The uppercase mapping of a character sequence, as `str::to_uppercase` computes it.
pub uninterp spec fn upper_of(s: Seq<char>) -> Seq<char>;

/// Relies on `char::is_uppercase`: the Unicode uppercase property of the
/// character, which depends on the character alone.
pub assume_specification[ char::is_uppercase ](c: char) -> (r: bool)
    ensures
        r == is_upper(c),
;

/// Relies on `char::is_lowercase`: the Unicode lowercase property of the
/// character, which depends on the character alone.
pub assume_specification[ char::is_lowercase ](c: char) -> (r: bool)
    ensures
        r == is_lower(c),
;

/// Relies on `str::to_lowercase`: the result depends on the characters
/// alone, and an empty input gives an empty output.
#[verifier::external_body]
pub fn str_to_lowercase(s: &str) -> (r: String)
    ensures
        r@ == lower_of(s@),
        s@.len() == 0 ==> r@.len() == 0,
{
    s.to_lowercase()
}

/// Relies on `str::to_uppercase`: the result depends on the characters
/// alone, and an empty input gives an empty output.
#[verifier::external_body]
pub fn str_to_uppercase(s: &str) -> (r: String)
    ensures
        r@ == upper_of(s@),
        s@.len() == 0 ==> r@.len() == 0,
{
    s.to_uppercase()
}

/// Relies on `String::push`: appends the character to the end of the string.
pub assume_specification[ String::push ](s: &mut String, c: char)
    ensures
        final(s)@ == old(s)@.push(c),
;

/// Whether `b` is the other-case ASCII letter of `a`.
pub open spec fn ascii_case_variants(a: char, b: char) -> bool {
    ||| (65 <= a as int <= 90 && b as int == a as int + 32)
    ||| (65 <= b as int <= 90 && a as int == b as int + 32)
}

/// Character equality, optionally up to ASCII case.
pub open spec fn chars_eq(a: char, b: char, ignore_case: bool) -> bool {
    a == b || (ignore_case && ascii_case_variants(a, b))
}

/// Compares two characters, ignoring ASCII case when asked to.
pub fn compare_char(a: char, b: char, ignore_case: bool) -> (r: bool)
    ensures
        r == chars_eq(a, b, ignore_case),
{
    if a == b {
        true
    } else if ignore_case {
        let au = a as u32;
        let bu = b as u32;
        (65 <= au && au <= 90 && bu == au + 32) || (65 <= bu && bu <= 90 && au == bu + 32)
    } else {
        false
    }
}

} // verus!
