//! Trusted conversions between character vectors and strings.

use vstd::prelude::*;

verus! {

/// Relies on the standard string collector: the characters of the vector,
/// in order, become the characters of the string.
#[verifier::external_body]
pub(crate) fn string_from_chars(v: &Vec<char>) -> (s: String)
    ensures
        s@ == v@,
{
    v.iter().collect()
}

/// Relies on char::to_string: a single character becomes the one-character
/// string holding exactly it.
#[verifier::external_body]
pub(crate) fn char_to_string(c: char) -> (s: String)
    ensures
        s@ == seq![c],
{
    c.to_string()
}

} // verus!
