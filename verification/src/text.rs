//! The one string operation that the library takes on trust.

use vstd::prelude::*;

verus! {

/// `String::push` of the standard library: appends the character `c` to the
/// end of `s` and changes nothing else.
#[verifier::external_body]
pub(crate) fn string_push(s: &mut String, c: char)
    ensures
        final(s)@ == old(s)@.push(c),
{
    s.push(c);
}

} // verus!
