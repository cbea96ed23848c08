//! Conversions between strings and character vectors.
//!
//! The scanner and the display code work on `Vec<char>`, whose contents
//! Verus can reason about index by index; these two helpers cross over
//! to `String` at the boundary.
use vstd::prelude::*;

verus! {

/// Relies on str::chars: yields exactly the characters of the string,
/// in order, so collecting them gives a vector with the same view.
/// A string occupies at most `isize::MAX` bytes and a character at
/// least one, so the count stays below `usize::MAX`.
#[verifier::external_body]
pub fn str_to_chars(s: &str) -> (v: Vec<char>)
    ensures
        v@ == s@,
        v@.len() < usize::MAX as int,
{
    s.chars().collect()
}

/// Relies on String's FromIterator over char: the built string holds
/// exactly the characters of the vector, in order.
#[verifier::external_body]
pub fn chars_to_string(v: &Vec<char>) -> (s: String)
    ensures
        s@ == v@,
{
    v.iter().collect()
}

/// A one-character string.
pub fn char_string(c: char) -> (s: String)
    ensures
        s@ == seq![c],
{
    let mut v: Vec<char> = Vec::new();
    v.push(c);
    proof {
        assert(v@ =~= seq![c]);
    }
    chars_to_string(&v)
}

} // verus!
