//! The tokens that the lexer produces.

use crate::tokens::number_token::NumberToken;
use crate::tokens::string_token::StringToken;
use vstd::prelude::*;

pub mod number_token;
pub mod string_token;
pub mod whitespace_token;

verus! {

/// One lexical unit of a JSON text.
#[derive(Debug, Clone, PartialEq)]
pub enum JsonToken {
    Whitespace,
    Null,
    Boolean(bool),
    Number(NumberToken),
    String(StringToken),
    ObjectStart,
    ObjectEnd,
    /// The colon between a key and its value.
    ObjectValueIndicator,
    ArrayStart,
    ArrayEnd,
    Comma,
}

/// A token as contracts speak of it: a string token by its characters.
pub enum JsonTokenView {
    Whitespace,
    Null,
    Boolean(bool),
    Number(NumberToken),
    String(Seq<char>),
    ObjectStart,
    ObjectEnd,
    ObjectValueIndicator,
    ArrayStart,
    ArrayEnd,
    Comma,
}

impl View for JsonToken {
    type V = JsonTokenView;

    open spec fn view(&self) -> JsonTokenView {
        match *self {
            JsonToken::Whitespace => JsonTokenView::Whitespace,
            JsonToken::Null => JsonTokenView::Null,
            JsonToken::Boolean(b) => JsonTokenView::Boolean(b),
            JsonToken::Number(n) => JsonTokenView::Number(n),
            JsonToken::String(s) => JsonTokenView::String(s@),
            JsonToken::ObjectStart => JsonTokenView::ObjectStart,
            JsonToken::ObjectEnd => JsonTokenView::ObjectEnd,
            JsonToken::ObjectValueIndicator => JsonTokenView::ObjectValueIndicator,
            JsonToken::ArrayStart => JsonTokenView::ArrayStart,
            JsonToken::ArrayEnd => JsonTokenView::ArrayEnd,
            JsonToken::Comma => JsonTokenView::Comma,
        }
    }
}

} // verus!
