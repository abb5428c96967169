//! The whitespace that may stand between tokens.

use vstd::prelude::*;

verus! {

/// The four characters that JSON allows between tokens.
pub open spec fn spec_is_whitespace(c: char) -> bool {
    c == '\n' || c == '\r' || c == '\t' || c == ' '
}

/// Whether `c` is a line feed, a carriage return, a tab or a space.
#[verifier::when_used_as_spec(spec_is_whitespace)]
pub fn is_whitespace(c: char) -> (b: bool)
    ensures
        b == spec_is_whitespace(c),
{
    c == '\n' || c == '\r' || c == '\t' || c == ' '
}

} // verus!
