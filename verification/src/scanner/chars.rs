//! Character classes of the lexical grammar, as spec predicates with
//! matching executable tests.

use vstd::prelude::*;

verus! {

/// Characters that only separate tokens and are never tokenized.
pub open spec fn is_space_char(c: char) -> bool {
    c == ' ' || c == '\n' || c == '\t' || c == '\r'
}

/// ASCII decimal digits.
pub open spec fn is_digit_char(c: char) -> bool {
    '0' <= c && c <= '9'
}

/// ASCII hexadecimal digits, either case.
pub open spec fn is_hex_digit_char(c: char) -> bool {
    is_digit_char(c) || ('a' <= c && c <= 'f') || ('A' <= c && c <= 'F')
}

/// Whether the character lies in the ASCII range.
pub open spec fn is_ascii_char(c: char) -> bool {
    (c as u32) < 128
}

/// What `char::is_alphabetic` returns beyond the ASCII range: the Unicode
/// Alphabetic property, too large a table to restate here.
pub uninterp spec fn unicode_alpha(c: char) -> bool;

/// What `char::is_alphanumeric` returns beyond the ASCII range.
pub uninterp spec fn unicode_alnum(c: char) -> bool;

/// Alphabetic characters, which may begin an identifier or keyword: on
/// the ASCII range exactly the letters, beyond it the Unicode Alphabetic
/// property.
pub open spec fn is_letter_char(c: char) -> bool {
    if is_ascii_char(c) {
        ('a' <= c && c <= 'z') || ('A' <= c && c <= 'Z')
    } else {
        unicode_alpha(c)
    }
}

/// Alphanumeric characters: on the ASCII range exactly the letters and
/// decimal digits, beyond it what `char::is_alphanumeric` accepts.
pub open spec fn is_alnum_char(c: char) -> bool {
    if is_ascii_char(c) {
        ('a' <= c && c <= 'z') || ('A' <= c && c <= 'Z') || is_digit_char(c)
    } else {
        unicode_alnum(c)
    }
}

/// Characters that may continue an identifier or keyword.
pub open spec fn is_word_char(c: char) -> bool {
    is_alnum_char(c) || c == '_'
}

/// Relies on `char::is_alphabetic`: on the ASCII range it accepts exactly
/// the letters `a`-`z` and `A`-`Z`; beyond ASCII it decides the Unicode
/// Alphabetic property, named here by `unicode_alpha`.
pub assume_specification[ char::is_alphabetic ](c: char) -> (r: bool)
    ensures
        r == is_letter_char(c),
        !is_ascii_char(c) ==> r == unicode_alpha(c),
;

/// Relies on `char::is_alphanumeric`: on the ASCII range it accepts
/// exactly the letters and decimal digits; beyond ASCII its result is
/// named by `unicode_alnum`.
pub assume_specification[ char::is_alphanumeric ](c: char) -> (r: bool)
    ensures
        r == is_alnum_char(c),
        !is_ascii_char(c) ==> r == unicode_alnum(c),
;

/// The numeric value of a decimal digit.
pub open spec fn digit_value(c: char) -> int {
    c as u32 - '0' as u32
}

/// The numeric value of a hexadecimal digit.
pub open spec fn hex_digit_value(c: char) -> int {
    if is_digit_char(c) {
        c as u32 - '0' as u32
    } else if 'a' <= c && c <= 'f' {
        c as u32 - 'a' as u32 + 10
    } else {
        c as u32 - 'A' as u32 + 10
    }
}

pub(crate) fn space_char(c: char) -> (r: bool)
    ensures
        r == is_space_char(c),
{
    c == ' ' || c == '\n' || c == '\t' || c == '\r'
}

pub(crate) fn digit_char(c: char) -> (r: bool)
    ensures
        r == is_digit_char(c),
{
    '0' <= c && c <= '9'
}

pub(crate) fn hex_digit_char(c: char) -> (r: bool)
    ensures
        r == is_hex_digit_char(c),
{
    ('0' <= c && c <= '9') || ('a' <= c && c <= 'f') || ('A' <= c && c <= 'F')
}

pub(crate) fn letter_char(c: char) -> (r: bool)
    ensures
        r == is_letter_char(c),
{
    c.is_alphabetic()
}

pub(crate) fn word_char(c: char) -> (r: bool)
    ensures
        r == is_word_char(c),
{
    c.is_alphanumeric() || c == '_'
}

} // verus!
