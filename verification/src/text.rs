//! Trusted boundary around the one piece of `String` building that vstd gives
//! no specification for.

use vstd::prelude::*;

verus! {

/// Relies on `String::push`: appends exactly one character at the end of the
/// string, leaving the characters before it unchanged.
#[verifier::external_body]
pub(crate) fn string_push(s: &mut String, c: char)
    ensures
        final(s)@ == old(s)@.push(c),
{
    s.push(c)
}

} // verus!
