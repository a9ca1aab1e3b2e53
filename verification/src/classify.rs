//! Classes of characters: the ASCII ranges, ASCII lower case, and the Unicode
//! class of alphanumeric characters.

use vstd::prelude::*;

verus! {

/// `c` lies in the ASCII range.
pub open spec fn ascii(c: char) -> bool {
    c <= '\u{7f}'
}

/// `c` is one of `0` to `9`.
pub open spec fn ascii_digit(c: char) -> bool {
    '0' <= c && c <= '9'
}

/// `c` is an ASCII letter or an ASCII digit.
pub open spec fn ascii_alphanumeric(c: char) -> bool {
    ascii_digit(c) || ('A' <= c && c <= 'Z') || ('a' <= c && c <= 'z')
}

/// `c` with `A` to `Z` mapped to `a` to `z`, and every other character as it is.
pub open spec fn ascii_lowercase(c: char) -> char {
    if 'A' <= c && c <= 'Z' {
        ((c as u32) + 32) as char
    } else {
        c
    }
}

/// Whether `c` is alphanumeric in the sense of Unicode, as the standard
/// library's tables have it.
pub uninterp spec fn alphanumeric(c: char) -> bool;

/// Whether `c` lies in the ASCII range.
pub fn is_ascii(c: char) -> (r: bool)
    ensures
        r == ascii(c),
{
    c <= '\u{7f}'
}

/// Whether `c` is one of `0` to `9`.
pub fn is_ascii_digit(c: char) -> (r: bool)
    ensures
        r == ascii_digit(c),
{
    '0' <= c && c <= '9'
}

/// Whether `c` is an ASCII letter or an ASCII digit.
pub fn is_ascii_alphanumeric(c: char) -> (r: bool)
    ensures
        r == ascii_alphanumeric(c),
{
    ('0' <= c && c <= '9') || ('A' <= c && c <= 'Z') || ('a' <= c && c <= 'z')
}

/// `c` in ASCII lower case: `A` to `Z` become `a` to `z`, every other
/// character stays as it is.
pub fn to_ascii_lowercase(c: char) -> (r: char)
    ensures
        r == ascii_lowercase(c),
{
    if 'A' <= c && c <= 'Z' {
        ((c as u8) + 32) as char
    } else {
        c
    }
}

/// Trusted: calls `char::is_alphanumeric` of the standard library. The result
/// depends on the character alone, so it is given the name [`alphanumeric`];
/// nothing else is claimed of it.
#[verifier::external_body]
pub(crate) fn is_alphanumeric(c: char) -> (r: bool)
    ensures
        r == alphanumeric(c),
{
    c.is_alphanumeric()
}

} // verus!
