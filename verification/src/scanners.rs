//! The scanners: one for each kind of token, and the functions that choose
//! among them by a token's first character.

use crate::buffer::{Buffer, BufferView};
use crate::error::LexError;
use crate::scanners::array::{is_first_char_of_array_end, is_first_char_of_array_start};
use crate::scanners::boolean::{boolean_scan, is_first_char_of_boolean, scan_boolean_token};
use crate::scanners::common::is_first_char_of_comma;
use crate::scanners::literal::{Literal, LiteralParsingState};
use crate::scanners::null::{is_first_char_of_null, scan_null_token};
use crate::scanners::number::{
    is_first_char_of_number, scan_number_token, spec_is_first_char_of_number, NumberParsingState,
};
use crate::scanners::object::{
    is_first_char_of_object_end, is_first_char_of_object_start,
    is_first_char_of_object_value_indicator,
};
use crate::scanners::string::{
    is_first_char_of_string, scan_string_token, StringScanView, MAX_READ_LENGTH,
};
use crate::tokens::whitespace_token::{is_whitespace, spec_is_whitespace};
use crate::tokens::{JsonToken, JsonTokenView};
use vstd::prelude::*;

pub mod array;
pub mod boolean;
pub mod common;
pub mod literal;
pub mod null;
pub mod number;
pub mod object;
pub mod string;

verus! {

/// What the first character of a token says of the token.
#[derive(Debug, Clone, Copy, PartialEq, Eq, Structural)]
pub enum TokenKind {
    ObjectStart,
    ObjectEnd,
    ObjectValueIndicator,
    ArrayStart,
    ArrayEnd,
    Comma,
    /// The character begins `null`.
    Null,
    /// The character begins `true` or `false`.
    Boolean,
    /// The character is a digit or a sign.
    Number,
    /// The character is the opening quote of a string.
    String,
    /// No token begins with the character.
    Unrecognized,
}

/// The kind of token that begins with `c`. A brace, a bracket, a colon or a
/// comma is a token by itself; `n`, `t` and `f` begin a literal, a digit or a
/// sign a number, a quote a string; nothing else begins a token.
pub open spec fn spec_token_kind(c: char) -> TokenKind {
    if c == '{' {
        TokenKind::ObjectStart
    } else if c == '}' {
        TokenKind::ObjectEnd
    } else if c == ':' {
        TokenKind::ObjectValueIndicator
    } else if c == '[' {
        TokenKind::ArrayStart
    } else if c == ']' {
        TokenKind::ArrayEnd
    } else if c == ',' {
        TokenKind::Comma
    } else if c == 'n' {
        TokenKind::Null
    } else if c == 't' || c == 'f' {
        TokenKind::Boolean
    } else if spec_is_first_char_of_number(c) {
        TokenKind::Number
    } else if c == '"' {
        TokenKind::String
    } else {
        TokenKind::Unrecognized
    }
}

/// The token that begins with `c`, where the characters that follow `c` are
/// those of `buffer`, and the buffer that the scan leaves: the token itself
/// where `c` is one, what the scanner of its kind makes of the buffer where
/// `c` begins a longer token.
pub open spec fn token_from(c: char, buffer: BufferView) -> (
    Result<JsonTokenView, LexError>,
    BufferView,
) {
    match spec_token_kind(c) {
        TokenKind::ObjectStart => (Ok(JsonTokenView::ObjectStart), buffer),
        TokenKind::ObjectEnd => (Ok(JsonTokenView::ObjectEnd), buffer),
        TokenKind::ObjectValueIndicator => (Ok(JsonTokenView::ObjectValueIndicator), buffer),
        TokenKind::ArrayStart => (Ok(JsonTokenView::ArrayStart), buffer),
        TokenKind::ArrayEnd => (Ok(JsonTokenView::ArrayEnd), buffer),
        TokenKind::Comma => (Ok(JsonTokenView::Comma), buffer),
        TokenKind::Null => {
            let scanned = LiteralParsingState::start(Literal::Null).scan_rest(buffer);
            match scanned.0 {
                Ok(_) => (Ok(JsonTokenView::Null), scanned.1),
                Err(e) => (Err(e), scanned.1),
            }
        },
        TokenKind::Boolean => {
            let (scanned, rest) = boolean_scan(c, buffer);
            match scanned {
                Ok(b) => (Ok(JsonTokenView::Boolean(b)), rest),
                Err(e) => (Err(e), rest),
            }
        },
        TokenKind::Number => {
            let scanned = NumberParsingState::start().scan_from(c, buffer);
            match scanned.0 {
                Ok(n) => (Ok(JsonTokenView::Number(n)), scanned.1),
                Err(e) => (Err(e), scanned.1),
            }
        },
        TokenKind::String => {
            let scanned = StringScanView::start(MAX_READ_LENGTH as nat).scan_rest(buffer);
            match scanned.0 {
                Ok(text) => (Ok(JsonTokenView::String(text)), scanned.1),
                Err(e) => (Err(e), scanned.1),
            }
        },
        TokenKind::Unrecognized => (Err(LexError::UnrecognizedToken(c)), buffer),
    }
}

/// The first token of `buffer`, and the buffer that the scan leaves.
/// Whitespace before the token is passed over; a buffer that holds nothing
/// but whitespace gives the buffer's own failure.
pub open spec fn first_token(buffer: BufferView) -> (Result<JsonTokenView, LexError>, BufferView)
    decreases buffer.pending.len(),
{
    if buffer.pending.len() == 0 {
        (Err(LexError::Buffer(buffer.next().0->Err_0)), buffer)
    } else if spec_is_whitespace(buffer.pending[0]) {
        first_token(buffer.next().1)
    } else {
        token_from(buffer.pending[0], buffer.next().1)
    }
}

/// Whether `result` is what the scan `scanned` came to, a string token taken
/// by its characters.
pub open spec fn token_is(
    result: Result<JsonToken, LexError>,
    scanned: Result<JsonTokenView, LexError>,
) -> bool {
    scanned == (match result {
        Ok(token) => Ok::<JsonTokenView, LexError>(token@),
        Err(e) => Err::<JsonTokenView, LexError>(e),
    })
}

/// The kind of token that begins with `c`.
#[verifier::when_used_as_spec(spec_token_kind)]
pub fn token_kind(c: char) -> (kind: TokenKind)
    ensures
        kind == spec_token_kind(c),
{
    if is_first_char_of_object_start(c) {
        TokenKind::ObjectStart
    } else if is_first_char_of_object_end(c) {
        TokenKind::ObjectEnd
    } else if is_first_char_of_object_value_indicator(c) {
        TokenKind::ObjectValueIndicator
    } else if is_first_char_of_array_start(c) {
        TokenKind::ArrayStart
    } else if is_first_char_of_array_end(c) {
        TokenKind::ArrayEnd
    } else if is_first_char_of_comma(c) {
        TokenKind::Comma
    } else if is_first_char_of_null(c) {
        TokenKind::Null
    } else if is_first_char_of_boolean(c) {
        TokenKind::Boolean
    } else if is_first_char_of_number(c) {
        TokenKind::Number
    } else if is_first_char_of_string(c) {
        TokenKind::String
    } else {
        TokenKind::Unrecognized
    }
}

/// Scans the token whose first character, `c`, has been taken out of `buffer`
/// already.
pub fn scan_token(c: char, buffer: &mut Buffer) -> (result: Result<JsonToken, LexError>)
    requires
        old(buffer).wf(),
    ensures
        final(buffer).wf(),
        token_is(result, token_from(c, old(buffer)@).0),
        final(buffer)@ == token_from(c, old(buffer)@).1,
{
    match token_kind(c) {
        TokenKind::ObjectStart => Ok(JsonToken::ObjectStart),
        TokenKind::ObjectEnd => Ok(JsonToken::ObjectEnd),
        TokenKind::ObjectValueIndicator => Ok(JsonToken::ObjectValueIndicator),
        TokenKind::ArrayStart => Ok(JsonToken::ArrayStart),
        TokenKind::ArrayEnd => Ok(JsonToken::ArrayEnd),
        TokenKind::Comma => Ok(JsonToken::Comma),
        TokenKind::Null => match scan_null_token(buffer) {
            Ok(_) => Ok(JsonToken::Null),
            Err(e) => Err(e),
        },
        TokenKind::Boolean => match scan_boolean_token(c, buffer) {
            Ok(b) => Ok(JsonToken::Boolean(b)),
            Err(e) => Err(e),
        },
        TokenKind::Number => match scan_number_token(c, buffer) {
            Ok(n) => Ok(JsonToken::Number(n)),
            Err(e) => Err(e),
        },
        TokenKind::String => match scan_string_token(buffer) {
            Ok(s) => Ok(JsonToken::String(s)),
            Err(e) => Err(e),
        },
        TokenKind::Unrecognized => Err(LexError::UnrecognizedToken(c)),
    }
}

/// Takes the next token out of `buffer`, passing over the whitespace before
/// it. This is for a buffer that holds the whole token: where the buffer runs
/// dry inside a token, what was read of the token is gone. A `Tokenizer`
/// keeps it.
pub fn next_token(buffer: &mut Buffer) -> (result: Result<JsonToken, LexError>)
    requires
        old(buffer).wf(),
    ensures
        final(buffer).wf(),
        token_is(result, first_token(old(buffer)@).0),
        final(buffer)@ == first_token(old(buffer)@).1,
{
    loop
        invariant
            buffer.wf(),
            first_token(buffer@) == first_token(old(buffer)@),
        decreases buffer@.pending.len(),
    {
        match buffer.next_char() {
            Err(e) => {
                return Err(LexError::Buffer(e));
            },
            Ok(c) => {
                if !is_whitespace(c) {
                    return scan_token(c, buffer);
                }
            },
        }
    }
}

/// Whitespace before a token changes nothing but the place where the token
/// is found: the token and the buffer behind it are the same with and
/// without it.
pub proof fn lemma_leading_whitespace_is_skipped(blank: Seq<char>, buffer: BufferView)
    requires
        forall|i: int| 0 <= i < blank.len() ==> spec_is_whitespace(#[trigger] blank[i]),
    ensures
        first_token(BufferView { pending: blank + buffer.pending, closed: buffer.closed })
            == first_token(buffer),
    decreases blank.len(),
{
    let padded = BufferView { pending: blank + buffer.pending, closed: buffer.closed };
    if blank.len() == 0 {
        assert(blank + buffer.pending =~= buffer.pending);
    } else {
        assert(padded.pending[0] == blank[0]);
        assert(padded.next().1.pending =~= blank.drop_first() + buffer.pending);
        lemma_leading_whitespace_is_skipped(blank.drop_first(), buffer);
    }
}

/// Whitespace is never handed out as a token.
pub proof fn lemma_whitespace_is_no_token(buffer: BufferView)
    ensures
        first_token(buffer).0 != Ok::<JsonTokenView, LexError>(JsonTokenView::Whitespace),
    decreases buffer.pending.len(),
{
    if buffer.pending.len() > 0 && spec_is_whitespace(buffer.pending[0]) {
        lemma_whitespace_is_no_token(buffer.next().1);
    }
}

/// A decimal point begins no token: a text that begins with `.` is refused,
/// whatever follows, and only the point is taken out of the buffer.
pub proof fn lemma_leading_decimal_point_is_refused(buffer: BufferView)
    requires
        buffer.pending.len() > 0,
        buffer.pending[0] == '.',
    ensures
        first_token(buffer) == (
            Err::<JsonTokenView, LexError>(LexError::UnrecognizedToken('.')),
            buffer.next().1,
        ),
{
}

} // verus!
