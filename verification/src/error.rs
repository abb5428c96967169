//! What can go wrong while characters are turned into tokens.

use crate::buffer::BufferError;
use vstd::prelude::*;

verus! {

/// Why a run of characters is no number.
#[derive(Debug, Clone, Copy, PartialEq, Eq, Structural)]
pub enum NumberError {
    /// A `+` before the exponent, or a sign between the decimal point and the
    /// exponent.
    MisplacedSign,
    /// A decimal point that follows no digit of the integer part, a second
    /// decimal point, or one in the exponent.
    MisplacedDecimalPoint,
    /// An exponent mark that does not follow a digit behind the decimal point.
    MisplacedExponent,
    /// A delimiter where the number should start.
    Empty,
    /// A part of the number does not fit in 64 signed bits.
    Overflow,
    /// A character that can neither continue nor end a number.
    InvalidCharacter(char),
}

/// Why no token could be produced.
#[derive(Debug, Clone, Copy, PartialEq, Eq, Structural)]
pub enum LexError {
    /// The buffer had no character to give: the stream has ended, or the
    /// next chunk has not been submitted yet.
    Buffer(BufferError),
    /// One of `null`, `true`, `false` was begun and not spelled out: `expected`
    /// is the character that should have come, `actual` the one that came, if
    /// any did.
    InvalidLiteral { expected: char, actual: Option<char> },
    /// A backslash in a string is followed by something that is no escape.
    InvalidEscape,
    /// A string is longer than the scanner is willing to read.
    MaxLengthExceeded,
    /// No token starts with this character.
    UnrecognizedToken(char),
    /// A number was begun and is malformed.
    Number(NumberError),
}

} // verus!
