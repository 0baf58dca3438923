//! Character classes of the lexer.
//!
//! ASCII characters are classified here directly; every other character is
//! classified by the Unicode tables of `std`.
use vstd::prelude::*;

verus! {

/// What `char::is_alphabetic` returns: the Unicode `Alphabetic` property.
pub uninterp spec fn unicode_alphabetic(c: char) -> bool;

/// What `char::is_alphanumeric` returns: `Alphabetic` or `Numeric`.
pub uninterp spec fn unicode_alphanumeric(c: char) -> bool;

/// What `char::is_numeric` returns: a Unicode `Numeric` general category.
pub uninterp spec fn unicode_numeric(c: char) -> bool;

/// What `char::is_whitespace` returns: the Unicode `White_Space` property.
pub uninterp spec fn unicode_whitespace(c: char) -> bool;

/// Relies on `char::is_alphabetic`, which reads the Unicode tables.
#[verifier::external_body]
fn std_is_alphabetic(c: char) -> (r: bool)
    ensures
        r == unicode_alphabetic(c),
{
    c.is_alphabetic()
}

/// Relies on `char::is_alphanumeric`, which reads the Unicode tables.
#[verifier::external_body]
fn std_is_alphanumeric(c: char) -> (r: bool)
    ensures
        r == unicode_alphanumeric(c),
{
    c.is_alphanumeric()
}

/// Relies on `char::is_numeric`, which reads the Unicode tables.
#[verifier::external_body]
fn std_is_numeric(c: char) -> (r: bool)
    ensures
        r == unicode_numeric(c),
{
    c.is_numeric()
}

/// Relies on `char::is_whitespace`, which reads the Unicode tables.
#[verifier::external_body]
fn std_is_whitespace(c: char) -> (r: bool)
    ensures
        r == unicode_whitespace(c),
{
    c.is_whitespace()
}

pub open spec fn is_ascii_char(c: char) -> bool {
    (c as u32) < 128
}

/// Whitespace: in ASCII the space and the controls from tab to carriage return.
pub open spec fn is_space(c: char) -> bool {
    if is_ascii_char(c) {
        c == ' ' || (9 <= (c as u32) && (c as u32) <= 13)
    } else {
        unicode_whitespace(c)
    }
}

/// A digit of a numeral: an ASCII digit, or another numeric character that
/// is neither a letter nor whitespace. Only a numeral of ASCII digits has a
/// value.
pub open spec fn is_digit(c: char) -> bool {
    if is_ascii_char(c) {
        48 <= (c as u32) && (c as u32) <= 57
    } else {
        unicode_numeric(c) && !unicode_alphabetic(c) && !unicode_whitespace(c)
    }
}

/// A character that may start an identifier.
pub open spec fn is_letter(c: char) -> bool {
    if is_ascii_char(c) {
        (65 <= (c as u32) && (c as u32) <= 90) || (97 <= (c as u32) && (c as u32) <= 122)
    } else {
        unicode_alphabetic(c)
    }
}

/// A character that may continue an identifier: alphanumeric or `_`.
/// Whitespace always ends an identifier.
pub open spec fn is_word(c: char) -> bool {
    if is_ascii_char(c) {
        is_letter(c) || is_digit(c) || c == '_'
    } else {
        unicode_alphanumeric(c) && !unicode_whitespace(c)
    }
}

pub proof fn lemma_word_not_space(c: char)
    ensures
        is_word(c) ==> !is_space(c),
        is_digit(c) ==> !is_space(c),
{
}

pub fn is_space_char(c: char) -> (r: bool)
    ensures
        r == is_space(c),
{
    let u = c as u32;
    if u < 128 {
        u == 32 || (9 <= u && u <= 13)
    } else {
        std_is_whitespace(c)
    }
}

pub fn is_digit_char(c: char) -> (r: bool)
    ensures
        r == is_digit(c),
{
    let u = c as u32;
    if u < 128 {
        48 <= u && u <= 57
    } else {
        std_is_numeric(c) && !std_is_alphabetic(c) && !std_is_whitespace(c)
    }
}

pub fn is_letter_char(c: char) -> (r: bool)
    ensures
        r == is_letter(c),
{
    let u = c as u32;
    if u < 128 {
        (65 <= u && u <= 90) || (97 <= u && u <= 122)
    } else {
        std_is_alphabetic(c)
    }
}

pub fn is_word_char(c: char) -> (r: bool)
    ensures
        r == is_word(c),
{
    let u = c as u32;
    if u < 128 {
        (65 <= u && u <= 90) || (97 <= u && u <= 122) || (48 <= u && u <= 57) || u == 95
    } else {
        std_is_alphanumeric(c) && !std_is_whitespace(c)
    }
}

} // verus!
