//! The braces of an object, and the colon between a key and its value.

use vstd::prelude::*;

verus! {

pub const OBJECT_VALUE_INDICATOR: char = ':';

pub const OBJECT_START: char = '{';

pub const OBJECT_END: char = '}';

/// Whether `c` opens an object.
pub fn is_first_char_of_object_start(c: char) -> (b: bool)
    ensures
        b == (c == '{'),
{
    c == OBJECT_START
}

/// Whether `c` closes an object.
pub fn is_first_char_of_object_end(c: char) -> (b: bool)
    ensures
        b == (c == '}'),
{
    c == OBJECT_END
}

/// Whether `c` separates a key from its value.
pub fn is_first_char_of_object_value_indicator(c: char) -> (b: bool)
    ensures
        b == (c == ':'),
{
    c == OBJECT_VALUE_INDICATOR
}

} // verus!
