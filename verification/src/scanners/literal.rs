//! The literal scanner: the fixed words `null`, `true` and `false`.
//!
//! The first character of the word has been read when the scan begins; what
//! is left to match is the word's tail.

use crate::buffer::{Buffer, BufferError, BufferView};
use crate::error::LexError;
use vstd::prelude::*;

verus! {

/// One of the three fixed words.
#[derive(Debug, Clone, Copy, PartialEq, Eq, Structural)]
pub enum Literal {
    Null,
    True,
    False,
}

impl Literal {
    /// The characters of the word behind its first.
    pub open spec fn tail(self) -> Seq<char> {
        match self {
            Literal::Null => seq!['u', 'l', 'l'],
            Literal::True => seq!['r', 'u', 'e'],
            Literal::False => seq!['a', 'l', 's', 'e'],
        }
    }

    /// The number of characters behind the first.
    pub fn tail_len(self) -> (n: usize)
        ensures
            n == self.tail().len(),
    {
        match self {
            Literal::Null => 3,
            Literal::True => 3,
            Literal::False => 4,
        }
    }

    /// The character at place `i` of the tail.
    pub fn tail_char(self, i: usize) -> (c: char)
        requires
            i < self.tail().len(),
        ensures
            c == self.tail()[i as int],
    {
        match self {
            Literal::Null => if i == 0 {
                'u'
            } else {
                'l'
            },
            Literal::True => if i == 0 {
                'r'
            } else if i == 1 {
                'u'
            } else {
                'e'
            },
            Literal::False => if i == 0 {
                'a'
            } else if i == 1 {
                'l'
            } else if i == 2 {
                's'
            } else {
                'e'
            },
        }
    }
}

/// What has been read of a literal: the word, and how many characters of its
/// tail have been matched.
#[derive(Debug, Clone, Copy, PartialEq, Eq, Structural)]
pub struct LiteralParsingState {
    pub literal: Literal,
    pub matched: usize,
}

impl LiteralParsingState {
    /// The scan of `literal` before any character of its tail has been read.
    pub open spec fn start(literal: Literal) -> LiteralParsingState {
        LiteralParsingState { literal, matched: 0 }
    }

    /// No more characters have been matched than the tail has.
    pub open spec fn wf(self) -> bool {
        self.matched <= self.literal.tail().len()
    }

    /// Whether the whole tail has been matched.
    pub open spec fn complete(self) -> bool {
        self.matched >= self.literal.tail().len()
    }

    /// The character that has to come next.
    pub open spec fn expected(self) -> char {
        self.literal.tail()[self.matched as int]
    }

    /// The rule for one character: it is matched where it is the expected
    /// one, and is a failure that names both characters where it is not.
    pub open spec fn step(self, c: char) -> (LiteralParsingState, Option<LexError>) {
        if c == self.expected() {
            (LiteralParsingState { matched: (self.matched + 1) as usize, ..self }, None)
        } else {
            (self, Some(LexError::InvalidLiteral { expected: self.expected(), actual: Some(c) }))
        }
    }

    /// What the scan makes of the characters of `buffer`, the buffer it
    /// leaves, and the state it ends in. A stream that ends inside the word
    /// is a failure of the word; a buffer that is merely empty is reported as
    /// such, and the scan can go on from the state it ended in.
    pub open spec fn scan_rest(self, buffer: BufferView) -> (
        Result<(), LexError>,
        BufferView,
        LiteralParsingState,
    )
        decreases buffer.pending.len(),
    {
        if self.complete() {
            (Ok(()), buffer, self)
        } else if buffer.pending.len() == 0 {
            if buffer.closed {
                (
                    Err(LexError::InvalidLiteral { expected: self.expected(), actual: None }),
                    buffer,
                    self,
                )
            } else {
                (Err(LexError::Buffer(BufferError::Pending)), buffer, self)
            }
        } else {
            let c = buffer.pending[0];
            let rest = buffer.next().1;
            match self.step(c).1 {
                None => self.step(c).0.scan_rest(rest),
                Some(e) => (Err(e), rest, self),
            }
        }
    }

    /// The scan of `literal` before any character of its tail has been read.
    pub fn new(literal: Literal) -> (state: LiteralParsingState)
        ensures
            state == LiteralParsingState::start(literal),
            state.wf(),
    {
        LiteralParsingState { literal, matched: 0 }
    }

    /// Whether the whole tail has been matched.
    pub fn is_complete(&self) -> (b: bool)
        ensures
            b == self.complete(),
    {
        self.matched >= self.literal.tail_len()
    }

    /// The character that has to come next.
    pub fn expected_char(&self) -> (c: char)
        requires
            self.wf(),
            !self.complete(),
        ensures
            c == self.expected(),
    {
        self.literal.tail_char(self.matched)
    }

    /// Takes one more character of the word.
    pub fn scan_char(&mut self, c: char) -> (failure: Option<LexError>)
        requires
            old(self).wf(),
            !old(self).complete(),
        ensures
            final(self).wf(),
            (*final(self), failure) == old(self).step(c),
    {
        let expected = self.expected_char();
        if c == expected {
            self.matched = self.matched + 1;
            None
        } else {
            Some(LexError::InvalidLiteral { expected, actual: Some(c) })
        }
    }

    /// Matches what is left of the word against the characters of `buffer`.
    /// Where the buffer runs dry before the end of the stream, the scan can
    /// be taken up again when more has been submitted.
    pub fn scan(&mut self, buffer: &mut Buffer) -> (result: Result<(), LexError>)
        requires
            old(self).wf(),
            old(buffer).wf(),
        ensures
            final(self).wf(),
            final(buffer).wf(),
            (result, final(buffer)@, *final(self)) == old(self).scan_rest(old(buffer)@),
    {
        while !self.is_complete()
            invariant
                self.wf(),
                buffer.wf(),
                self.scan_rest(buffer@) == old(self).scan_rest(old(buffer)@),
            decreases self.literal.tail().len() - self.matched,
        {
            match buffer.next_char() {
                Err(BufferError::Pending) => {
                    return Err(LexError::Buffer(BufferError::Pending));
                },
                Err(_) => {
                    return Err(
                        LexError::InvalidLiteral { expected: self.expected_char(), actual: None },
                    );
                },
                Ok(c) => {
                    match self.scan_char(c) {
                        None => {},
                        Some(e) => {
                            return Err(e);
                        },
                    }
                },
            }
        }
        Ok(())
    }
}

/// Matches the tail of `literal` against the characters of `buffer`: succeeds
/// where they spell it out, and fails at the first character that differs or
/// is missing.
pub fn scan_literal(literal: Literal, buffer: &mut Buffer) -> (result: Result<(), LexError>)
    requires
        old(buffer).wf(),
    ensures
        final(buffer).wf(),
        result == LiteralParsingState::start(literal).scan_rest(old(buffer)@).0,
        final(buffer)@ == LiteralParsingState::start(literal).scan_rest(old(buffer)@).1,
{
    let mut state = LiteralParsingState::new(literal);
    state.scan(buffer)
}

/// Whether the characters of `text` from place `from` on stand at the front
/// of `pending`.
pub open spec fn spelled_out(text: Seq<char>, from: int, pending: Seq<char>) -> bool {
    &&& pending.len() >= text.len() - from
    &&& forall|i: int| 0 <= i < text.len() - from ==> #[trigger] pending[i] == text[from + i]
}

/// A literal is matched exactly where the pending characters spell out what
/// is left of it, and the scan then leaves what follows the word. Where they
/// do not, and enough characters are there or the stream has ended, the
/// failure is that of a literal.
pub proof fn lemma_scan_matches_spelling(state: LiteralParsingState, buffer: BufferView)
    requires
        state.wf(),
    ensures
        state.scan_rest(buffer).0 is Ok <==> spelled_out(
            state.literal.tail(),
            state.matched as int,
            buffer.pending,
        ),
        state.scan_rest(buffer).0 is Ok ==> state.scan_rest(buffer).1 == (BufferView {
            pending: buffer.pending.skip(state.literal.tail().len() - state.matched),
            closed: buffer.closed,
        }),
        state.scan_rest(buffer).0 is Err && (buffer.closed || buffer.pending.len()
            >= state.literal.tail().len() - state.matched) ==> state.scan_rest(
            buffer,
        ).0->Err_0 is InvalidLiteral,
    decreases buffer.pending.len(),
{
    let tail = state.literal.tail();
    let from = state.matched as int;
    let left = tail.len() - from;
    if state.complete() {
        assert(buffer.pending.skip(0) =~= buffer.pending);
    } else if buffer.pending.len() == 0 {
    } else {
        let c = buffer.pending[0];
        let rest = buffer.next().1;
        if c == state.expected() {
            let next = state.step(c).0;
            lemma_scan_matches_spelling(next, rest);
            assert(state.scan_rest(buffer) == next.scan_rest(rest));
            if spelled_out(tail, from, buffer.pending) {
                assert forall|i: int| 0 <= i < left - 1 implies #[trigger] rest.pending[i]
                    == tail[from + 1 + i] by {
                    assert(rest.pending[i] == buffer.pending[i + 1]);
                }
                assert(spelled_out(tail, from + 1, rest.pending));
            }
            if spelled_out(tail, from + 1, rest.pending) {
                assert forall|i: int| 0 <= i < left implies #[trigger] buffer.pending[i]
                    == tail[from + i] by {
                    if i > 0 {
                        assert(rest.pending[i - 1] == buffer.pending[i]);
                    }
                }
                assert(spelled_out(tail, from, buffer.pending));
                assert(rest.pending.skip(left - 1) =~= buffer.pending.skip(left));
            }
        } else {
            assert(buffer.pending[0] != tail[from + 0]);
        }
    }
}

/// A scan that stopped because the buffer ran dry has taken every character
/// out of a buffer that is still open, and loses nothing by it: going on from
/// the state it ended in, on what is submitted later, gives what the scan
/// had given with all of it in the buffer at once.
pub proof fn lemma_scan_can_be_resumed(
    state: LiteralParsingState,
    buffer: BufferView,
    later: BufferView,
)
    requires
        state.scan_rest(buffer).0 == Err::<(), LexError>(LexError::Buffer(BufferError::Pending)),
    ensures
        !buffer.closed,
        state.scan_rest(buffer).1 == (BufferView { pending: Seq::empty(), closed: false }),
        state.scan_rest(later.with_front(buffer.pending)) == state.scan_rest(buffer).2.scan_rest(
            later,
        ),
    decreases buffer.pending.len(),
{
    let whole = later.with_front(buffer.pending);
    if buffer.pending.len() == 0 {
        assert(whole.pending =~= later.pending);
        assert(buffer.pending =~= Seq::<char>::empty());
    } else {
        let c = buffer.pending[0];
        let rest = buffer.next().1;
        assert(whole.pending[0] == c);
        assert(whole.next().1.pending =~= later.with_front(rest.pending).pending);
        lemma_scan_can_be_resumed(state.step(c).0, rest, later);
    }
}

/// A scan ends in a state of the literal that it began with.
pub proof fn lemma_scan_keeps_the_literal(state: LiteralParsingState, buffer: BufferView)
    ensures
        state.scan_rest(buffer).2.literal == state.literal,
    decreases buffer.pending.len(),
{
    if !state.complete() && buffer.pending.len() > 0 {
        lemma_scan_keeps_the_literal(state.step(buffer.pending[0]).0, buffer.next().1);
    }
}

} // verus!
