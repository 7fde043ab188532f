//! Character classification and text conversion helpers.
//!
//! The Unicode character classes are functions of the character alone, so
//! they are given names here and the standard library's implementations are
//! relied upon to compute them.

use vstd::prelude::*;
use vstd::std_specs::iter::IteratorSpec;

verus! {

/// Whether a character has the Unicode `White_Space` property.
pub uninterp spec fn char_whitespace(c: char) -> bool;

/// Whether a character has the Unicode `Alphabetic` property.
pub uninterp spec fn char_alphabetic(c: char) -> bool;

/// Whether a character is in a Unicode numeric category.
pub uninterp spec fn char_numeric(c: char) -> bool;

/// Relies on `char::is_whitespace`: whether the character has the Unicode
/// `White_Space` property, decided by the character alone.
#[verifier::external_body]
pub(crate) fn is_whitespace_char(c: char) -> (r: bool)
    ensures
        r == char_whitespace(c),
{
    c.is_whitespace()
}

/// Relies on `char::is_alphabetic`: whether the character has the Unicode
/// `Alphabetic` property, decided by the character alone.
#[verifier::external_body]
pub(crate) fn is_alphabetic_char(c: char) -> (r: bool)
    ensures
        r == char_alphabetic(c),
{
    c.is_alphabetic()
}

/// Relies on `char::is_numeric`: whether the character is in a Unicode
/// numeric category, decided by the character alone.
#[verifier::external_body]
pub(crate) fn is_numeric_char(c: char) -> (r: bool)
    ensures
        r == char_numeric(c),
{
    c.is_numeric()
}

/// The characters of a buffer, in order, as a vector.
pub(crate) fn str_chars(s: &str) -> (v: Vec<char>)
    ensures
        v@ == s@,
{
    let mut v: Vec<char> = Vec::new();
    let mut it = s.chars();
    let ghost all = s@;
    loop
        invariant
            0 <= v@.len() <= all.len(),
            it.remaining() == all.skip(v@.len() as int),
            v@ == all.take(v@.len() as int),
        ensures
            v@ == all,
        decreases all.len() - v@.len(),
    {
        let ghost k = v@.len() as int;
        match it.next() {
            Some(c) => {
                proof {
                    assert(all.skip(k).len() > 0);
                    assert(all.take(k + 1) =~= all.take(k).push(all[k]));
                }
                v.push(c);
            },
            None => {
                proof {
                    assert(all.skip(k).len() == 0);
                    assert(all.take(k) =~= all);
                }
                break ;
            },
        }
    }
    v
}

/// Relies on `String::from_iter` over `char`: the string holds exactly the
/// characters collected, in order.
#[verifier::external_body]
pub(crate) fn chars_to_string(v: &Vec<char>) -> (s: String)
    ensures
        s@ == v@,
{
    v.iter().collect()
}

/// Whether a character is an ASCII decimal digit.
pub open spec fn char_ascii_digit(c: char) -> bool {
    '0' <= c <= '9'
}

/// Decide `char_ascii_digit` at run time.
pub(crate) fn is_ascii_digit_char(c: char) -> (r: bool)
    ensures
        r == char_ascii_digit(c),
{
    '0' <= c && c <= '9'
}

} // verus!
