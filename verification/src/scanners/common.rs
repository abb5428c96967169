//! The comma, and the characters that end a number.

use crate::scanners::array::ARRAY_END;
use crate::scanners::object::OBJECT_END;
use vstd::prelude::*;

verus! {

pub const COMMA: char = ',';

/// Whether `c` separates two members or two elements.
pub fn is_first_char_of_comma(c: char) -> (b: bool)
    ensures
        b == (c == ','),
{
    c == COMMA
}

/// The characters that may follow a value directly: a comma, or the bracket
/// or brace that closes the enclosing array or object.
pub open spec fn spec_is_delimiter(c: char) -> bool {
    c == ',' || c == '}' || c == ']'
}

/// Whether `c` is a comma, a closing brace or a closing bracket.
#[verifier::when_used_as_spec(spec_is_delimiter)]
pub fn is_delimiter(c: char) -> (b: bool)
    ensures
        b == spec_is_delimiter(c),
{
    c == COMMA || c == OBJECT_END || c == ARRAY_END
}

} // verus!
