//! The brackets of an array.

use vstd::prelude::*;

verus! {

pub const ARRAY_START: char = '[';

pub const ARRAY_END: char = ']';

/// Whether `c` opens an array.
pub fn is_first_char_of_array_start(c: char) -> (b: bool)
    ensures
        b == (c == '['),
{
    c == ARRAY_START
}

/// Whether `c` closes an array.
pub fn is_first_char_of_array_end(c: char) -> (b: bool)
    ensures
        b == (c == ']'),
{
    c == ARRAY_END
}

} // verus!
