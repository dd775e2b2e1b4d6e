//! Building the text a grid is drawn as.

use vstd::prelude::*;

verus! {

/// `String::push`: appends the one character `c` to the end of `s`.
#[verifier::external_body]
pub(crate) fn push_char(s: &mut String, c: char)
    ensures
        final(s)@ == old(s)@.push(c),
{
    s.push(c);
}

} // verus!
