//! Building texts.

use vstd::prelude::*;

verus! {

/// `String::push` of the standard library: appends one character to the
/// text.
#[verifier::external_body]
pub(crate) fn push_char(text: &mut String, c: char)
    ensures
        final(text)@ == old(text)@.push(c),
{
    text.push(c)
}

} // verus!
