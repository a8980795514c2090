//! Character classes and conversions between `String` and `Vec<char>`.
//!
//! The scanners in this crate work over `Vec<char>`, whose view is the same
//! `Seq<char>` as the view of the `&str` they came from.

use vstd::prelude::*;

verus! {

/// An ASCII decimal digit.
pub open spec fn is_digit(c: char) -> bool {
    '0' <= c && c <= '9'
}

/// An ASCII letter.
pub open spec fn is_letter(c: char) -> bool {
    ('a' <= c && c <= 'z') || ('A' <= c && c <= 'Z')
}

/// An ASCII letter or digit.
pub open spec fn is_alnum(c: char) -> bool {
    is_letter(c) || is_digit(c)
}

/// A word character in the sense of the `\b` boundary: letters, digits, `_`.
pub open spec fn is_word(c: char) -> bool {
    is_alnum(c) || c == '_'
}

pub fn digit(c: char) -> (r: bool)
    ensures
        r == is_digit(c),
{
    '0' <= c && c <= '9'
}

pub fn letter(c: char) -> (r: bool)
    ensures
        r == is_letter(c),
{
    ('a' <= c && c <= 'z') || ('A' <= c && c <= 'Z')
}

pub fn alnum(c: char) -> (r: bool)
    ensures
        r == is_alnum(c),
{
    letter(c) || digit(c)
}

pub fn word(c: char) -> (r: bool)
    ensures
        r == is_word(c),
{
    alnum(c) || c == '_'
}

/// Relies on `str::chars` and `Iterator::collect`: the iterator yields the
/// characters of the string in order, and collecting them into a `Vec`
/// preserves that order.
#[verifier::external_body]
pub fn str_to_chars(s: &str) -> (r: Vec<char>)
    ensures
        r@ == s@,
{
    s.chars().collect()
}

/// Relies on `String`'s `FromIterator<char>` impl: collecting characters
/// yields the string made of exactly those characters in order.
#[verifier::external_body]
pub fn chars_to_string(v: &Vec<char>) -> (r: String)
    ensures
        r@ == v@,
{
    v.iter().collect()
}

} // verus!
