//! Character classes that the scanner tells apart.

use vstd::prelude::*;

verus! {

/// The five ASCII whitespace characters: space, tab, line feed, form feed and
/// carriage return.
pub open spec fn blank(c: char) -> bool {
    c == ' ' || c == '\t' || c == '\n' || c == '\x0C' || c == '\r'
}

/// The ten decimal digits `0` to `9`.
pub open spec fn decimal_digit(c: char) -> bool {
    '0' <= c <= '9'
}

/// The Latin letters `a` to `z` and `A` to `Z`.
pub open spec fn ascii_letter(c: char) -> bool {
    'a' <= c <= 'z' || 'A' <= c <= 'Z'
}

/// An ASCII letter or a decimal digit.
pub open spec fn ascii_alphanumeric(c: char) -> bool {
    ascii_letter(c) || decimal_digit(c)
}

/// Whether a character beyond ASCII has Unicode's `Alphabetic` property. Within
/// ASCII the value of this function is never looked at.
pub uninterp spec fn unicode_alphabetic(c: char) -> bool;

/// Whether a character has Unicode's `Alphabetic` property: within ASCII these
/// are the Latin letters, beyond ASCII Unicode's tables decide.
pub open spec fn alphabetic(c: char) -> bool {
    if c <= '\x7f' {
        ascii_letter(c)
    } else {
        unicode_alphabetic(c)
    }
}

/// Trusted, not proved: `char::is_alphabetic` of the standard library returns
/// whether the character has Unicode's `Alphabetic` property. Within ASCII
/// exactly the Latin letters have it. For a character beyond ASCII the answer
/// comes from Unicode's tables and is only given a name here: it depends on
/// the character alone.
pub assume_specification[ char::is_alphabetic ](c: char) -> (r: bool)
    ensures
        c <= '\x7f' ==> r == ascii_letter(c),
        c > '\x7f' ==> r == unicode_alphabetic(c),
;

/// Whether `c` is ASCII whitespace.
pub fn is_blank(c: char) -> (r: bool)
    ensures
        r == blank(c),
{
    c == ' ' || c == '\t' || c == '\n' || c == '\x0C' || c == '\r'
}

/// Whether `c` is a decimal digit.
pub fn is_decimal_digit(c: char) -> (r: bool)
    ensures
        r == decimal_digit(c),
{
    '0' <= c && c <= '9'
}

/// Whether `c` is an ASCII letter or a decimal digit.
pub fn is_ascii_alphanumeric(c: char) -> (r: bool)
    ensures
        r == ascii_alphanumeric(c),
{
    ('a' <= c && c <= 'z') || ('A' <= c && c <= 'Z') || ('0' <= c && c <= '9')
}

} // verus!
