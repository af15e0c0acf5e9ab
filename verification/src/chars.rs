//! Kinds of characters.
use vstd::prelude::*;

verus! {

/// Whether Unicode calls the character alphabetic.
pub uninterp spec fn unicode_alphabetic(c: char) -> bool;

/// Whether Unicode calls the character alphabetic or numeric.
pub uninterp spec fn unicode_alphanumeric(c: char) -> bool;

/// Whether Unicode calls the character white space.
pub uninterp spec fn unicode_white(c: char) -> bool;

/// `char::is_alphabetic`: the Unicode property of that name.
pub assume_specification[ char::is_alphabetic ](c: char) -> (r: bool)
    ensures
        r == unicode_alphabetic(c),
;

/// `char::is_alphanumeric`: alphabetic or numeric in Unicode.
pub assume_specification[ char::is_alphanumeric ](c: char) -> (r: bool)
    ensures
        r == unicode_alphanumeric(c),
;

/// `char::is_whitespace`: the Unicode property of that name.
pub assume_specification[ char::is_whitespace ](c: char) -> (r: bool)
    ensures
        r == unicode_white(c),
;

/// A decimal digit.
pub open spec fn digit_char(c: char) -> bool {
    '0' <= c <= '9'
}

/// A character that a word can begin with.
pub open spec fn word_start(c: char) -> bool {
    if (c as u32) < 128 {
        'a' <= c <= 'z' || 'A' <= c <= 'Z' || c == '_'
    } else {
        unicode_alphabetic(c)
    }
}

/// A character that a word can go on with.
pub open spec fn word_char(c: char) -> bool {
    if (c as u32) < 128 {
        'a' <= c <= 'z' || 'A' <= c <= 'Z' || c == '_' || '0' <= c <= '9'
    } else {
        unicode_alphanumeric(c)
    }
}

/// White space.
pub open spec fn white(c: char) -> bool {
    if (c as u32) < 128 {
        c == ' ' || 9 <= c as u32 <= 13
    } else {
        unicode_white(c)
    }
}

/// Whether `c` is a decimal digit.
pub fn is_digit(c: char) -> (r: bool)
    ensures
        r == digit_char(c),
{
    '0' <= c && c <= '9'
}

/// Whether a word can begin with `c`.
pub fn starts_word(c: char) -> (r: bool)
    ensures
        r == word_start(c),
{
    if (c as u32) < 128 {
        ('a' <= c && c <= 'z') || ('A' <= c && c <= 'Z') || c == '_'
    } else {
        c.is_alphabetic()
    }
}

/// Whether a word can go on with `c`.
pub fn continues_word(c: char) -> (r: bool)
    ensures
        r == word_char(c),
{
    if (c as u32) < 128 {
        ('a' <= c && c <= 'z') || ('A' <= c && c <= 'Z') || c == '_' || ('0' <= c && c <= '9')
    } else {
        c.is_alphanumeric()
    }
}

/// Whether `c` is white space.
pub fn is_white(c: char) -> (r: bool)
    ensures
        r == white(c),
{
    if (c as u32) < 128 {
        c == ' ' || (9 <= c as u32 && c as u32 <= 13)
    } else {
        c.is_whitespace()
    }
}

} // verus!
