//! The scanner of `null`.

use crate::buffer::Buffer;
use crate::error::LexError;
use crate::scanners::literal::{scan_literal, Literal, LiteralParsingState};
use vstd::prelude::*;

verus! {

/// Whether `null` starts with `c`.
pub fn is_first_char_of_null(c: char) -> (b: bool)
    ensures
        b == (c == 'n'),
{
    c == 'n'
}

/// Scans a `null` whose `n` has been taken out of `buffer` already: succeeds
/// where the next three characters are `ull`.
pub fn scan_null_token(buffer: &mut Buffer) -> (result: Result<(), LexError>)
    requires
        old(buffer).wf(),
    ensures
        final(buffer).wf(),
        result == LiteralParsingState::start(Literal::Null).scan_rest(old(buffer)@).0,
        final(buffer)@ == LiteralParsingState::start(Literal::Null).scan_rest(old(buffer)@).1,
{
    scan_literal(Literal::Null, buffer)
}

} // verus!
