//! Character-level helpers for building `String`s in verified code.

use vstd::prelude::*;

verus! {

/// `String::push`: appends `c` to `s`.
/// Trusted: std documents that `push` appends the given char to the end of
/// the string; the contract says exactly that, on the string's char view.
#[verifier::external_body]
pub(crate) fn push_char(s: &mut String, c: char)
    ensures
        final(s)@ == old(s)@.push(c),
{
    s.push(c);
}

} // verus!
