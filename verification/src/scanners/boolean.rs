//! The scanner of `true` and `false`.

use crate::buffer::{Buffer, BufferView};
use crate::error::LexError;
use crate::scanners::literal::{scan_literal, Literal, LiteralParsingState};
use vstd::prelude::*;

verus! {

/// Whether `true` or `false` starts with `c`.
pub fn is_first_char_of_boolean(c: char) -> (b: bool)
    ensures
        b == (c == 't' || c == 'f'),
{
    c == 't' || c == 'f'
}

/// The boolean literal that begins with `first_char`: `true` for `t`, `false`
/// for `f`, and none for any other character.
pub open spec fn spec_boolean_literal(first_char: char) -> Result<Literal, LexError> {
    if first_char == 't' {
        Ok(Literal::True)
    } else if first_char == 'f' {
        Ok(Literal::False)
    } else {
        Err(LexError::InvalidLiteral { expected: 't', actual: Some(first_char) })
    }
}

/// What the scan of a boolean that began with `first_char` makes of the
/// characters of `buffer`, and the buffer it leaves.
pub open spec fn boolean_scan(first_char: char, buffer: BufferView) -> (
    Result<bool, LexError>,
    BufferView,
) {
    match spec_boolean_literal(first_char) {
        Ok(literal) => {
            let scanned = LiteralParsingState::start(literal).scan_rest(buffer);
            match scanned.0 {
                Ok(_) => (Ok(literal == Literal::True), scanned.1),
                Err(e) => (Err(e), scanned.1),
            }
        },
        Err(e) => (Err(e), buffer),
    }
}

/// The boolean literal that begins with `first_char`.
pub fn boolean_literal(first_char: char) -> (literal: Result<Literal, LexError>)
    ensures
        literal == spec_boolean_literal(first_char),
{
    if first_char == 't' {
        Ok(Literal::True)
    } else if first_char == 'f' {
        Ok(Literal::False)
    } else {
        Err(LexError::InvalidLiteral { expected: 't', actual: Some(first_char) })
    }
}

/// Scans a boolean whose first character, `first_char`, has been taken out of
/// `buffer` already: `true` where `t` is followed by `rue`, `false` where `f`
/// is followed by `alse`.
pub fn scan_boolean_token(
    first_char: char,
    buffer: &mut Buffer,
) -> (result: Result<bool, LexError>)
    requires
        old(buffer).wf(),
    ensures
        final(buffer).wf(),
        (result, final(buffer)@) == boolean_scan(first_char, old(buffer)@),
{
    match boolean_literal(first_char) {
        Ok(literal) => match scan_literal(literal, buffer) {
            Ok(_) => Ok(literal == Literal::True),
            Err(e) => Err(e),
        },
        Err(e) => Err(e),
    }
}

} // verus!
