//! The tokenizer for text that arrives piece by piece.
//!
//! A `Tokenizer` takes one token at a time out of a buffer. Where the buffer
//! runs dry in the middle of a token and the stream has not ended, it keeps
//! what it has read of the token and reports `BufferError::Pending`; the next
//! call, made when more has been submitted, goes on from there. The tokens
//! are therefore the same however the text is cut into chunks.

use crate::buffer::{Buffer, BufferError, BufferView};
use crate::error::{LexError, NumberError};
use crate::scanners::literal::{Literal, LiteralParsingState};
use crate::scanners::number::{NumberParseTerminationReason, NumberParsingState};
use crate::scanners::string::{StringParsingState, StringScanView, MAX_READ_LENGTH};
use crate::scanners::{
    first_token, spec_token_kind, token_from, token_is, token_kind, TokenKind,
};
use crate::tokens::whitespace_token::{is_whitespace, spec_is_whitespace};
use crate::tokens::{JsonToken, JsonTokenView};
use vstd::prelude::*;

verus! {

/// Where a tokenizer stands: between two tokens, or inside a literal, a
/// number or a string of which it has read a part.
pub enum Tokenizer {
    Idle,
    Literal(LiteralParsingState),
    Number(NumberParsingState),
    String(StringParsingState),
}

/// A tokenizer as contracts speak of it.
pub enum TokenizerView {
    Idle,
    Literal(LiteralParsingState),
    Number(NumberParsingState),
    String(StringScanView),
}

impl View for Tokenizer {
    type V = TokenizerView;

    open spec fn view(&self) -> TokenizerView {
        match *self {
            Tokenizer::Idle => TokenizerView::Idle,
            Tokenizer::Literal(state) => TokenizerView::Literal(state),
            Tokenizer::Number(state) => TokenizerView::Number(state),
            Tokenizer::String(state) => TokenizerView::String(state@),
        }
    }
}

/// Whether a scan ended because the buffer ran dry before the end of the
/// stream.
pub open spec fn is_pending<T>(result: Result<T, LexError>) -> bool {
    result == Err::<T, LexError>(LexError::Buffer(BufferError::Pending))
}

/// The token that a literal is.
pub open spec fn literal_token(literal: Literal) -> JsonTokenView {
    match literal {
        Literal::Null => JsonTokenView::Null,
        Literal::True => JsonTokenView::Boolean(true),
        Literal::False => JsonTokenView::Boolean(false),
    }
}

/// The literal that begins with `c`, one of `n`, `t` and `f`.
pub open spec fn literal_of(c: char) -> Literal {
    if c == 'n' {
        Literal::Null
    } else if c == 't' {
        Literal::True
    } else {
        Literal::False
    }
}

impl TokenizerView {
    /// What the tokenizer makes of `buffer` when it has read a part of a
    /// literal, the buffer it leaves, and where it stands then.
    pub open spec fn literal(state: LiteralParsingState, buffer: BufferView) -> (
        Result<JsonTokenView, LexError>,
        BufferView,
        TokenizerView,
    ) {
        let scanned = state.scan_rest(buffer);
        match scanned.0 {
            Ok(_) => (Ok(literal_token(state.literal)), scanned.1, TokenizerView::Idle),
            Err(e) => (
                Err(e),
                scanned.1,
                if is_pending(scanned.0) {
                    TokenizerView::Literal(scanned.2)
                } else {
                    TokenizerView::Idle
                },
            ),
        }
    }

    /// What the tokenizer makes of `buffer` when it has read a part of a
    /// number, the buffer it leaves, and where it stands then.
    pub open spec fn number(state: NumberParsingState, buffer: BufferView) -> (
        Result<JsonTokenView, LexError>,
        BufferView,
        TokenizerView,
    ) {
        let scanned = state.scan_rest(buffer);
        match scanned.0 {
            Ok(n) => (Ok(JsonTokenView::Number(n)), scanned.1, TokenizerView::Idle),
            Err(e) => (
                Err(e),
                scanned.1,
                if is_pending(scanned.0) {
                    TokenizerView::Number(scanned.2)
                } else {
                    TokenizerView::Idle
                },
            ),
        }
    }

    /// What the tokenizer makes of `buffer` when it has read a part of a
    /// string, the buffer it leaves, and where it stands then.
    pub open spec fn string(scan: StringScanView, buffer: BufferView) -> (
        Result<JsonTokenView, LexError>,
        BufferView,
        TokenizerView,
    ) {
        let scanned = scan.scan_rest(buffer);
        match scanned.0 {
            Ok(text) => (Ok(JsonTokenView::String(text)), scanned.1, TokenizerView::Idle),
            Err(e) => (
                Err(e),
                scanned.1,
                if is_pending(scanned.0) {
                    TokenizerView::String(scanned.2)
                } else {
                    TokenizerView::Idle
                },
            ),
        }
    }

    /// What the tokenizer makes of a token whose first character is `c` and
    /// whose other characters are those of `buffer`.
    pub open spec fn token(c: char, buffer: BufferView) -> (
        Result<JsonTokenView, LexError>,
        BufferView,
        TokenizerView,
    ) {
        match spec_token_kind(c) {
            TokenKind::Null | TokenKind::Boolean => TokenizerView::literal(
                LiteralParsingState::start(literal_of(c)),
                buffer,
            ),
            TokenKind::Number => match NumberParsingState::start().step(c).1 {
                None => TokenizerView::number(NumberParsingState::start().step(c).0, buffer),
                _ => (token_from(c, buffer).0, token_from(c, buffer).1, TokenizerView::Idle),
            },
            TokenKind::String => TokenizerView::string(
                StringScanView::start(MAX_READ_LENGTH as nat),
                buffer,
            ),
            _ => (token_from(c, buffer).0, token_from(c, buffer).1, TokenizerView::Idle),
        }
    }

    /// What the tokenizer makes of `buffer` when it stands between two
    /// tokens: it passes over whitespace and scans the token behind it.
    pub open spec fn begin(buffer: BufferView) -> (
        Result<JsonTokenView, LexError>,
        BufferView,
        TokenizerView,
    )
        decreases buffer.pending.len(),
    {
        if buffer.pending.len() == 0 {
            (Err(LexError::Buffer(buffer.next().0->Err_0)), buffer, TokenizerView::Idle)
        } else if spec_is_whitespace(buffer.pending[0]) {
            TokenizerView::begin(buffer.next().1)
        } else {
            TokenizerView::token(buffer.pending[0], buffer.next().1)
        }
    }

    /// What one call makes of `buffer`: the token or the failure, the buffer
    /// that is left, and where the tokenizer stands for the next call.
    pub open spec fn resume(self, buffer: BufferView) -> (
        Result<JsonTokenView, LexError>,
        BufferView,
        TokenizerView,
    ) {
        match self {
            TokenizerView::Idle => TokenizerView::begin(buffer),
            TokenizerView::Literal(state) => TokenizerView::literal(state, buffer),
            TokenizerView::Number(state) => TokenizerView::number(state, buffer),
            TokenizerView::String(scan) => TokenizerView::string(scan, buffer),
        }
    }
}

impl Tokenizer {
    /// Whether the scan that the tokenizer has begun is in order.
    pub open spec fn wf(&self) -> bool {
        match *self {
            Tokenizer::Idle => true,
            Tokenizer::Literal(state) => state.wf(),
            Tokenizer::Number(state) => state.wf(),
            Tokenizer::String(state) => state.wf(),
        }
    }

    /// A tokenizer that stands before the first token.
    pub fn new() -> (tokenizer: Tokenizer)
        ensures
            tokenizer.wf(),
            tokenizer@ == TokenizerView::Idle,
    {
        Tokenizer::Idle
    }

    /// Whether the tokenizer stands between two tokens.
    pub fn is_idle(&self) -> (b: bool)
        ensures
            b == (self@ == TokenizerView::Idle),
    {
        match self {
            Tokenizer::Idle => true,
            _ => false,
        }
    }

    fn literal(
        &mut self,
        state: LiteralParsingState,
        buffer: &mut Buffer,
    ) -> (result: Result<JsonToken, LexError>)
        requires
            state.wf(),
            old(buffer).wf(),
            *old(self) == Tokenizer::Idle,
        ensures
            final(self).wf(),
            final(buffer).wf(),
            token_is(result, TokenizerView::literal(state, old(buffer)@).0),
            final(buffer)@ == TokenizerView::literal(state, old(buffer)@).1,
            final(self)@ == TokenizerView::literal(state, old(buffer)@).2,
    {
        let literal = state.literal;
        let mut state = state;
        match state.scan(buffer) {
            Ok(_) => Ok(
                match literal {
                    Literal::Null => JsonToken::Null,
                    Literal::True => JsonToken::Boolean(true),
                    Literal::False => JsonToken::Boolean(false),
                },
            ),
            Err(e) => {
                match e {
                    LexError::Buffer(BufferError::Pending) => {
                        *self = Tokenizer::Literal(state);
                    },
                    _ => {},
                }
                Err(e)
            },
        }
    }

    fn number(
        &mut self,
        state: NumberParsingState,
        buffer: &mut Buffer,
    ) -> (result: Result<JsonToken, LexError>)
        requires
            state.wf(),
            old(buffer).wf(),
            *old(self) == Tokenizer::Idle,
        ensures
            final(self).wf(),
            final(buffer).wf(),
            token_is(result, TokenizerView::number(state, old(buffer)@).0),
            final(buffer)@ == TokenizerView::number(state, old(buffer)@).1,
            final(self)@ == TokenizerView::number(state, old(buffer)@).2,
    {
        let mut state = state;
        match state.scan(buffer) {
            Ok(n) => Ok(JsonToken::Number(n)),
            Err(e) => {
                match e {
                    LexError::Buffer(BufferError::Pending) => {
                        *self = Tokenizer::Number(state);
                    },
                    _ => {},
                }
                Err(e)
            },
        }
    }

    fn string(
        &mut self,
        state: StringParsingState,
        buffer: &mut Buffer,
    ) -> (result: Result<JsonToken, LexError>)
        requires
            state.wf(),
            old(buffer).wf(),
            *old(self) == Tokenizer::Idle,
        ensures
            final(self).wf(),
            final(buffer).wf(),
            token_is(result, TokenizerView::string(state@, old(buffer)@).0),
            final(buffer)@ == TokenizerView::string(state@, old(buffer)@).1,
            final(self)@ == TokenizerView::string(state@, old(buffer)@).2,
    {
        let mut state = state;
        match state.scan(buffer) {
            Ok(s) => Ok(JsonToken::String(s)),
            Err(e) => {
                match e {
                    LexError::Buffer(BufferError::Pending) => {
                        *self = Tokenizer::String(state);
                    },
                    _ => {},
                }
                Err(e)
            },
        }
    }

    fn token(&mut self, c: char, buffer: &mut Buffer) -> (result: Result<JsonToken, LexError>)
        requires
            old(buffer).wf(),
            *old(self) == Tokenizer::Idle,
        ensures
            final(self).wf(),
            final(buffer).wf(),
            token_is(result, TokenizerView::token(c, old(buffer)@).0),
            final(buffer)@ == TokenizerView::token(c, old(buffer)@).1,
            final(self)@ == TokenizerView::token(c, old(buffer)@).2,
    {
        match token_kind(c) {
            TokenKind::Null => self.literal(LiteralParsingState::new(Literal::Null), buffer),
            TokenKind::Boolean => {
                let literal = if c == 't' {
                    Literal::True
                } else {
                    Literal::False
                };
                self.literal(LiteralParsingState::new(literal), buffer)
            },
            TokenKind::Number => {
                let mut state = NumberParsingState::new();
                match state.scan_char(c) {
                    None => self.number(state, buffer),
                    Some(NumberParseTerminationReason::EndOfNumber) => {
                        buffer.replace_char(c);
                        Err(LexError::Number(NumberError::Empty))
                    },
                    Some(NumberParseTerminationReason::Fatal(e)) => Err(LexError::Number(e)),
                }
            },
            TokenKind::String => self.string(StringParsingState::new(), buffer),
            TokenKind::ObjectStart => Ok(JsonToken::ObjectStart),
            TokenKind::ObjectEnd => Ok(JsonToken::ObjectEnd),
            TokenKind::ObjectValueIndicator => Ok(JsonToken::ObjectValueIndicator),
            TokenKind::ArrayStart => Ok(JsonToken::ArrayStart),
            TokenKind::ArrayEnd => Ok(JsonToken::ArrayEnd),
            TokenKind::Comma => Ok(JsonToken::Comma),
            TokenKind::Unrecognized => Err(LexError::UnrecognizedToken(c)),
        }
    }

    /// Takes the next token out of `buffer`, going on with the token that an
    /// earlier call has begun, if there is one. Where the result is
    /// `BufferError::Pending`, nothing is lost: the call is to be made again
    /// when more has been submitted or the stream has been closed.
    pub fn next_token(&mut self, buffer: &mut Buffer) -> (result: Result<JsonToken, LexError>)
        requires
            old(self).wf(),
            old(buffer).wf(),
        ensures
            final(self).wf(),
            final(buffer).wf(),
            token_is(result, old(self)@.resume(old(buffer)@).0),
            final(buffer)@ == old(self)@.resume(old(buffer)@).1,
            final(self)@ == old(self)@.resume(old(buffer)@).2,
    {
        let mut begun = Tokenizer::Idle;
        std::mem::swap(self, &mut begun);
        match begun {
            Tokenizer::Literal(state) => self.literal(state, buffer),
            Tokenizer::Number(state) => self.number(state, buffer),
            Tokenizer::String(state) => self.string(state, buffer),
            Tokenizer::Idle => {
                loop
                    invariant
                        buffer.wf(),
                        old(self)@ is Idle,
                        *self == Tokenizer::Idle,
                        TokenizerView::begin(buffer@) == TokenizerView::begin(old(buffer)@),
                    decreases buffer@.pending.len(),
                {
                    match buffer.next_char() {
                        Err(e) => {
                            return Err(LexError::Buffer(e));
                        },
                        Ok(c) => {
                            if !is_whitespace(c) {
                                return self.token(c, buffer);
                            }
                        },
                    }
                }
            },
        }
    }
}

/// A tokenizer that stands between two tokens finds in a buffer the token
/// that `first_token` names, and leaves the buffer that it names.
pub proof fn lemma_idle_tokenizer_gives_first_token(buffer: BufferView)
    ensures
        TokenizerView::Idle.resume(buffer).0 == first_token(buffer).0,
        TokenizerView::Idle.resume(buffer).1 == first_token(buffer).1,
    decreases buffer.pending.len(),
{
    if buffer.pending.len() > 0 && spec_is_whitespace(buffer.pending[0]) {
        lemma_idle_tokenizer_gives_first_token(buffer.next().1);
    }
}

/// After a token or a failure the tokenizer stands between two tokens again;
/// only where the buffer ran dry does it keep a token that it has begun.
pub proof fn lemma_tokenizer_is_idle_unless_pending(tokenizer: TokenizerView, buffer: BufferView)
    ensures
        !is_pending(tokenizer.resume(buffer).0) ==> tokenizer.resume(buffer).2
            == TokenizerView::Idle,
    decreases buffer.pending.len(),
{
    if tokenizer is Idle && buffer.pending.len() > 0 && spec_is_whitespace(buffer.pending[0]) {
        lemma_tokenizer_is_idle_unless_pending(tokenizer, buffer.next().1);
    }
}

/// The tokens do not depend on how the text is cut into chunks. Where a call
/// ends because the buffer ran dry, it has taken every character out of a
/// buffer that is still open, and the call that is made on what is submitted
/// later gives what the first call had given with all of it in the buffer at
/// once: the same token or failure, the same buffer behind it, the tokenizer
/// in the same place.
pub proof fn lemma_tokens_do_not_depend_on_chunks(
    tokenizer: TokenizerView,
    buffer: BufferView,
    later: BufferView,
)
    requires
        is_pending(tokenizer.resume(buffer).0),
    ensures
        !buffer.closed,
        tokenizer.resume(buffer).1 == (BufferView { pending: Seq::empty(), closed: false }),
        tokenizer.resume(later.with_front(buffer.pending)) == tokenizer.resume(buffer).2.resume(
            later,
        ),
    decreases buffer.pending.len(),
{
    let whole = later.with_front(buffer.pending);
    match tokenizer {
        TokenizerView::Idle => {
            if buffer.pending.len() == 0 {
                assert(whole.pending =~= later.pending);
                assert(whole == later);
                assert(buffer.pending =~= Seq::<char>::empty());
            } else {
                let c = buffer.pending[0];
                let rest = buffer.next().1;
                assert(whole.pending[0] == c);
                assert(whole.next().1.pending =~= later.with_front(rest.pending).pending);
                assert(whole.next().1 == later.with_front(rest.pending));
                if spec_is_whitespace(c) {
                    lemma_tokens_do_not_depend_on_chunks(tokenizer, rest, later);
                } else {
                    match spec_token_kind(c) {
                        TokenKind::Null | TokenKind::Boolean => {
                            let state = LiteralParsingState::start(literal_of(c));
                            crate::scanners::literal::lemma_scan_can_be_resumed(
                                state,
                                rest,
                                later,
                            );
                            crate::scanners::literal::lemma_scan_keeps_the_literal(state, rest);
                        },
                        TokenKind::Number => {
                            if NumberParsingState::start().step(c).1 is None {
                                crate::scanners::number::lemma_scan_can_be_resumed(
                                    NumberParsingState::start().step(c).0,
                                    rest,
                                    later,
                                );
                            }
                        },
                        TokenKind::String => {
                            crate::scanners::string::lemma_scan_can_be_resumed(
                                StringScanView::start(MAX_READ_LENGTH as nat),
                                rest,
                                later,
                            );
                        },
                        _ => {},
                    }
                }
            }
        },
        TokenizerView::Literal(state) => {
            crate::scanners::literal::lemma_scan_can_be_resumed(state, buffer, later);
            crate::scanners::literal::lemma_scan_keeps_the_literal(state, buffer);
        },
        TokenizerView::Number(state) => {
            crate::scanners::number::lemma_scan_can_be_resumed(state, buffer, later);
        },
        TokenizerView::String(scan) => {
            crate::scanners::string::lemma_scan_can_be_resumed(scan, buffer, later);
        },
    }
}

} // verus!
