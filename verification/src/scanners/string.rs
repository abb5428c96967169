//! The string scanner.
//!
//! A string is read one character at a time, from the character behind the
//! opening quote to the closing quote. What has been decoded so far, and how
//! far an escape sequence has been read, is kept in a `StringParsingState`;
//! `scan_char` is the rule by which one more character changes it or ends the
//! string. `scan` applies that rule to the characters of a buffer.

use crate::buffer::{Buffer, BufferError, BufferView};
use crate::error::LexError;
use crate::tokens::string_token::StringToken;
use vstd::prelude::*;

verus! {

/// `std::char::from_u32` of the standard library. Taken on trust from its
/// documentation: the call returns the character with the code `i` where `i`
/// is the code of a character, and `None` where it is not. The codes of
/// characters are those up to `0x10FFFF` without the surrogates, `0xD800` to
/// `0xDFFF`.
pub assume_specification[ std::char::from_u32 ](i: u32) -> (c: Option<char>)
    ensures
        c == spec_char_from_code(i),
;

/// No string longer than this is read to its end.
pub const MAX_READ_LENGTH: usize = 1024 * 1024 * 1024;

/// Whether a string starts with `c`: the opening quote.
pub fn is_first_char_of_string(c: char) -> (b: bool)
    ensures
        b == (c == '"'),
{
    c == '"'
}

/// What a character means where no escape sequence is being read.
#[derive(Debug, Clone, Copy, PartialEq, Eq, Structural)]
pub enum ScannedCharType {
    /// A character of the string itself.
    NormalCharacter,
    /// The backslash that begins an escape sequence.
    EscapedCharacter,
    /// The closing quote.
    StringEnd,
}

/// What became of one character.
#[derive(Debug, Clone, Copy, PartialEq, Eq, Structural)]
pub enum CharScanResult {
    /// The character was taken; the string goes on.
    Continue,
    /// The character is the closing quote.
    EndOfToken,
    /// The character cannot stand where it stands.
    Failed(LexError),
}

/// How far an escape sequence has been read.
#[derive(Debug, Clone, Copy, PartialEq, Eq, Structural)]
pub enum EscapeState {
    /// No escape sequence is being read.
    Outside,
    /// The backslash has been read.
    Selector,
    /// `\u` and `digits` hexadecimal digits have been read; `code` is their
    /// value, the first digit the most significant.
    Unicode { digits: u8, code: u32 },
}

/// What a backslash means where it stands for one fixed character.
pub open spec fn spec_simple_escape(c: char) -> Option<char> {
    if c == '"' {
        Some('"')
    } else if c == '\\' {
        Some('\\')
    } else if c == '/' {
        Some('/')
    } else if c == 'b' {
        Some('\u{0008}')
    } else if c == 'f' {
        Some('\u{000C}')
    } else if c == 'n' {
        Some('\n')
    } else if c == 'r' {
        Some('\r')
    } else if c == 't' {
        Some('\t')
    } else {
        None
    }
}

/// The value of the hexadecimal digit `c`, in either case.
pub open spec fn spec_hex_value(c: char) -> Option<u32> {
    if '0' <= c <= '9' {
        Some((c as u32 - '0' as u32) as u32)
    } else if 'a' <= c <= 'f' {
        Some((c as u32 - 'a' as u32 + 10) as u32)
    } else if 'A' <= c <= 'F' {
        Some((c as u32 - 'A' as u32 + 10) as u32)
    } else {
        None
    }
}

/// The character with the code `code`: every code up to `0x10FFFF` has one
/// but the surrogates.
pub open spec fn spec_char_from_code(code: u32) -> Option<char> {
    if code <= 0xD7FF || (0xE000 <= code && code <= 0x10FFFF) {
        Some(code as char)
    } else {
        None
    }
}

/// A scan of a string as contracts speak of it.
pub struct StringScanView {
    /// The characters decoded so far.
    pub text: Seq<char>,
    /// How far an escape sequence has been read.
    pub escape: EscapeState,
    /// The length at which the scan gives up.
    pub max_length: nat,
}

impl StringScanView {
    /// The scan before anything has been read.
    pub open spec fn start(max_length: nat) -> StringScanView {
        StringScanView { text: Seq::empty(), escape: EscapeState::Outside, max_length }
    }

    /// The scan after `c` was decoded.
    pub open spec fn with_char(self, c: char) -> StringScanView {
        StringScanView { text: self.text.push(c), escape: EscapeState::Outside, ..self }
    }

    /// The scan at another place of an escape sequence.
    pub open spec fn with_escape(self, escape: EscapeState) -> StringScanView {
        StringScanView { escape, ..self }
    }

    /// The rule for the character behind a backslash.
    pub open spec fn escape_step(self, c: char) -> (StringScanView, CharScanResult) {
        if c == 'u' {
            (
                self.with_escape(EscapeState::Unicode { digits: 0, code: 0 }),
                CharScanResult::Continue,
            )
        } else {
            match spec_simple_escape(c) {
                Some(decoded) => (self.with_char(decoded), CharScanResult::Continue),
                None => (self, CharScanResult::Failed(LexError::InvalidEscape)),
            }
        }
    }

    /// The rule for one of the four hexadecimal digits behind `\u`, where
    /// `digits` of them, of value `code`, have been read before it.
    pub open spec fn unicode_step(self, digits: u8, code: u32, c: char) -> (
        StringScanView,
        CharScanResult,
    ) {
        match spec_hex_value(c) {
            None => (self, CharScanResult::Failed(LexError::InvalidEscape)),
            Some(value) => {
                let combined = (code * 16 + value) as u32;
                if digits < 3 {
                    (
                        self.with_escape(
                            EscapeState::Unicode { digits: (digits + 1) as u8, code: combined },
                        ),
                        CharScanResult::Continue,
                    )
                } else {
                    match spec_char_from_code(combined) {
                        Some(decoded) => (self.with_char(decoded), CharScanResult::Continue),
                        None => (self, CharScanResult::Failed(LexError::InvalidEscape)),
                    }
                }
            },
        }
    }

    /// The rule for one character: the scan after `c`, and what became of
    /// `c`. Where the scan ends or fails at `c`, it is left as it was.
    pub open spec fn step(self, c: char) -> (StringScanView, CharScanResult) {
        match self.escape {
            EscapeState::Outside => {
                if c == '\\' {
                    (self.with_escape(EscapeState::Selector), CharScanResult::Continue)
                } else if c == '"' {
                    (self, CharScanResult::EndOfToken)
                } else {
                    (self.with_char(c), CharScanResult::Continue)
                }
            },
            EscapeState::Selector => self.escape_step(c),
            EscapeState::Unicode { digits, code } => self.unicode_step(digits, code, c),
        }
    }

    /// Whether the scan has decoded as much as it is willing to and stands
    /// between two characters of the string.
    pub open spec fn exhausted(self) -> bool {
        self.escape == EscapeState::Outside && self.text.len() >= self.max_length
    }

    /// The scan after the decoded text was moved out of it.
    pub open spec fn emptied(self) -> StringScanView {
        StringScanView { text: Seq::empty(), ..self }
    }

    /// What the scan makes of the characters of `buffer`, the buffer it
    /// leaves, and the scan at its end: the decoded text where the closing
    /// quote is reached, the failure where a character cannot stand, the
    /// length is exceeded or the buffer has no more characters. In the last
    /// case the scan can go on from where it ended.
    pub open spec fn scan_rest(self, buffer: BufferView) -> (
        Result<Seq<char>, LexError>,
        BufferView,
        StringScanView,
    )
        decreases buffer.pending.len(),
    {
        if self.exhausted() {
            (Err(LexError::MaxLengthExceeded), buffer, self)
        } else if buffer.pending.len() == 0 {
            (Err(LexError::Buffer(buffer.next().0->Err_0)), buffer, self)
        } else {
            let c = buffer.pending[0];
            let rest = buffer.next().1;
            match self.step(c).1 {
                CharScanResult::Continue => self.step(c).0.scan_rest(rest),
                CharScanResult::EndOfToken => (Ok(self.text), rest, self.emptied()),
                CharScanResult::Failed(e) => (Err(e), rest, self),
            }
        }
    }
}

/// What a character means where no escape sequence is being read.
pub fn char_type(c: char) -> (t: ScannedCharType)
    ensures
        t == (if c == '\\' {
            ScannedCharType::EscapedCharacter
        } else if c == '"' {
            ScannedCharType::StringEnd
        } else {
            ScannedCharType::NormalCharacter
        }),
{
    if c == '\\' {
        ScannedCharType::EscapedCharacter
    } else if c == '"' {
        ScannedCharType::StringEnd
    } else {
        ScannedCharType::NormalCharacter
    }
}

/// The value of the hexadecimal digit `c`, if it is one.
pub fn hex_value(c: char) -> (value: Option<u32>)
    ensures
        value == spec_hex_value(c),
        value matches Some(v) ==> v < 16,
{
    if '0' <= c && c <= '9' {
        Some(c as u32 - '0' as u32)
    } else if 'a' <= c && c <= 'f' {
        Some(c as u32 - 'a' as u32 + 10)
    } else if 'A' <= c && c <= 'F' {
        Some(c as u32 - 'A' as u32 + 10)
    } else {
        None
    }
}

/// The character that `c` stands for behind a backslash, if it stands for one.
pub fn simple_escape(c: char) -> (decoded: Option<char>)
    ensures
        decoded == spec_simple_escape(c),
{
    if c == '"' {
        Some('"')
    } else if c == '\\' {
        Some('\\')
    } else if c == '/' {
        Some('\u{002F}')
    } else if c == 'b' {
        Some('\u{0008}')
    } else if c == 'f' {
        Some('\u{000C}')
    } else if c == 'n' {
        Some('\n')
    } else if c == 'r' {
        Some('\r')
    } else if c == 't' {
        Some('\t')
    } else {
        None
    }
}

/// What has been read of a string.
pub struct StringParsingState {
    token: StringToken,
    escape: EscapeState,
    max_length: usize,
}

impl View for StringParsingState {
    type V = StringScanView;

    closed spec fn view(&self) -> StringScanView {
        StringScanView {
            text: self.token@,
            escape: self.escape,
            max_length: self.max_length as nat,
        }
    }
}

impl StringParsingState {
    /// Behind `\u`, fewer than four digits have been read, and their value is
    /// below sixteen to the power of their number.
    pub closed spec fn wf(&self) -> bool {
        match self.escape {
            EscapeState::Unicode { digits, code } => {
                ||| digits == 0 && code == 0
                ||| digits == 1 && code < 0x10
                ||| digits == 2 && code < 0x100
                ||| digits == 3 && code < 0x1000
            },
            _ => true,
        }
    }

    /// A scan that has read nothing yet and gives up at `MAX_READ_LENGTH`
    /// characters.
    pub fn new() -> (state: StringParsingState)
        ensures
            state.wf(),
            state@ == StringScanView::start(MAX_READ_LENGTH as nat),
    {
        StringParsingState {
            token: StringToken::new(),
            escape: EscapeState::Outside,
            max_length: MAX_READ_LENGTH,
        }
    }

    /// A scan that has read nothing yet and gives up at `max_length`
    /// characters.
    pub fn with_max_length(max_length: usize) -> (state: StringParsingState)
        ensures
            state.wf(),
            state@ == StringScanView::start(max_length as nat),
    {
        StringParsingState { token: StringToken::new(), escape: EscapeState::Outside, max_length }
    }

    /// Takes one of the four hexadecimal digits behind `\u`. With the fourth,
    /// the character that the digits name is appended to the text.
    fn parse_unicode_escape_sequence(&mut self, c: char) -> (result: Result<(), LexError>)
        requires
            old(self).wf(),
            old(self)@.escape is Unicode,
        ensures
            final(self).wf(),
            final(self)@ == old(self)@.unicode_step(
                old(self)@.escape->digits,
                old(self)@.escape->code,
                c,
            ).0,
            old(self)@.unicode_step(old(self)@.escape->digits, old(self)@.escape->code, c).1 == (
            match result {
                Ok(_) => CharScanResult::Continue,
                Err(e) => CharScanResult::Failed(e),
            }),
    {
        match self.escape {
            EscapeState::Unicode { digits, code } => {
                match hex_value(c) {
                    None => Err(LexError::InvalidEscape),
                    Some(value) => {
                        let combined: u32 = code * 16 + value;
                        if digits < 3 {
                            self.escape = EscapeState::Unicode { digits: digits + 1, code: combined };
                            Ok(())
                        } else {
                            match std::char::from_u32(combined) {
                                Some(decoded) => {
                                    self.token.add_char(decoded);
                                    self.escape = EscapeState::Outside;
                                    Ok(())
                                },
                                None => Err(LexError::InvalidEscape),
                            }
                        }
                    },
                }
            },
            _ => Ok(()),
        }
    }

    /// Takes the character behind a backslash: appends the character that it
    /// stands for, or begins a `\u` sequence.
    fn parse_escape_sequence(&mut self, c: char) -> (result: Result<(), LexError>)
        requires
            old(self).wf(),
        ensures
            final(self).wf(),
            final(self)@ == old(self)@.escape_step(c).0,
            old(self)@.escape_step(c).1 == (match result {
                Ok(_) => CharScanResult::Continue,
                Err(e) => CharScanResult::Failed(e),
            }),
    {
        if c == 'u' {
            self.escape = EscapeState::Unicode { digits: 0, code: 0 };
            Ok(())
        } else {
            match simple_escape(c) {
                Some(decoded) => {
                    self.token.add_char(decoded);
                    self.escape = EscapeState::Outside;
                    Ok(())
                },
                None => Err(LexError::InvalidEscape),
            }
        }
    }

    /// Takes one more character of the string: changes the scan by it, or
    /// says that the string ends or fails there and leaves the scan as it is.
    pub fn scan_char(&mut self, c: char) -> (result: CharScanResult)
        requires
            old(self).wf(),
        ensures
            final(self).wf(),
            (final(self)@, result) == old(self)@.step(c),
    {
        match self.escape {
            EscapeState::Outside => {
                match char_type(c) {
                    ScannedCharType::NormalCharacter => {
                        self.token.add_char(c);
                        CharScanResult::Continue
                    },
                    ScannedCharType::EscapedCharacter => {
                        self.escape = EscapeState::Selector;
                        CharScanResult::Continue
                    },
                    ScannedCharType::StringEnd => CharScanResult::EndOfToken,
                }
            },
            EscapeState::Selector => {
                match self.parse_escape_sequence(c) {
                    Ok(_) => CharScanResult::Continue,
                    Err(e) => CharScanResult::Failed(e),
                }
            },
            EscapeState::Unicode { .. } => {
                match self.parse_unicode_escape_sequence(c) {
                    Ok(_) => CharScanResult::Continue,
                    Err(e) => CharScanResult::Failed(e),
                }
            },
        }
    }

    /// Whether the scan has decoded as much as it is willing to and stands
    /// between two characters of the string.
    pub fn is_exhausted(&self) -> (b: bool)
        ensures
            b == self@.exhausted(),
    {
        match self.escape {
            EscapeState::Outside => self.token.len() >= self.max_length,
            _ => false,
        }
    }

    /// Moves the text that has been decoded out of the scan, which goes on
    /// with an empty text.
    pub fn take_token(&mut self) -> (token: StringToken)
        requires
            old(self).wf(),
        ensures
            final(self).wf(),
            token@ == old(self)@.text,
            final(self)@ == old(self)@.emptied(),
    {
        let mut token = StringToken::new();
        std::mem::swap(&mut token, &mut self.token);
        token
    }

    /// Scans a string whose opening quote has been taken out of `buffer`
    /// already, up to and including its closing quote. The decoded text is
    /// moved out of the scan. Where the buffer runs dry before the closing
    /// quote, the scan can be taken up again when more has been submitted.
    pub fn scan(&mut self, buffer: &mut Buffer) -> (result: Result<StringToken, LexError>)
        requires
            old(self).wf(),
            old(buffer).wf(),
        ensures
            final(self).wf(),
            final(buffer).wf(),
            final(buffer)@ == old(self)@.scan_rest(old(buffer)@).1,
            final(self)@ == old(self)@.scan_rest(old(buffer)@).2,
            old(self)@.scan_rest(old(buffer)@).0 == (match result {
                Ok(token) => Ok::<Seq<char>, LexError>(token@),
                Err(e) => Err::<Seq<char>, LexError>(e),
            }),
    {
        loop
            invariant
                self.wf(),
                buffer.wf(),
                self@.scan_rest(buffer@) == old(self)@.scan_rest(old(buffer)@),
            decreases buffer@.pending.len(),
        {
            if self.is_exhausted() {
                return Err(LexError::MaxLengthExceeded);
            }
            match buffer.next_char() {
                Err(e) => {
                    return Err(LexError::Buffer(e));
                },
                Ok(c) => {
                    match self.scan_char(c) {
                        CharScanResult::Continue => {},
                        CharScanResult::EndOfToken => {
                            return Ok(self.take_token());
                        },
                        CharScanResult::Failed(e) => {
                            return Err(e);
                        },
                    }
                },
            }
        }
    }
}

/// Scans a string whose opening quote has been taken out of `buffer` already:
/// reads up to and including the closing quote, and returns the characters
/// between the quotes with every escape sequence decoded.
pub fn scan_string_token(buffer: &mut Buffer) -> (result: Result<StringToken, LexError>)
    requires
        old(buffer).wf(),
    ensures
        final(buffer).wf(),
        final(buffer)@ == StringScanView::start(MAX_READ_LENGTH as nat).scan_rest(
            old(buffer)@,
        ).1,
        StringScanView::start(MAX_READ_LENGTH as nat).scan_rest(old(buffer)@).0 == (match result {
            Ok(token) => Ok::<Seq<char>, LexError>(token@),
            Err(e) => Err::<Seq<char>, LexError>(e),
        }),
{
    let mut state = StringParsingState::new();
    state.scan(buffer)
}

/// Whether every character of `text` stands for itself inside a string: none
/// is a backslash or a quote.
pub open spec fn all_plain(text: Seq<char>) -> bool {
    forall|i: int| 0 <= i < text.len() ==> #[trigger] text[i] != '\\' && text[i] != '"'
}

/// The code that four hexadecimal digits of the values `h0` to `h3` spell,
/// the first the most significant.
pub open spec fn code_of(h0: u32, h1: u32, h2: u32, h3: u32) -> int {
    h0 * 0x1000 + h1 * 0x100 + h2 * 0x10 + h3
}

/// Characters that are neither a backslash nor a quote are taken over as
/// they are, as long as the text stays within its limit.
pub proof fn lemma_plain_text_is_verbatim(scan: StringScanView, text: Seq<char>, rest: BufferView)
    requires
        scan.escape == EscapeState::Outside,
        all_plain(text),
        scan.text.len() + text.len() <= scan.max_length,
    ensures
        scan.scan_rest(rest.with_front(text)) == (StringScanView {
            text: scan.text + text,
            ..scan
        }).scan_rest(rest),
    decreases text.len(),
{
    let whole = rest.with_front(text);
    if text.len() == 0 {
        assert(whole.pending =~= rest.pending);
        assert(scan.text + text =~= scan.text);
    } else {
        let c = text[0];
        assert(c != '\\' && c != '"');
        assert(whole.pending[0] == c);
        assert(whole.next().1.pending =~= rest.with_front(text.drop_first()).pending);
        assert(all_plain(text.drop_first())) by {
            assert forall|i: int| 0 <= i < text.drop_first().len() implies #[trigger] text.drop_first()[i]
                != '\\' && text.drop_first()[i] != '"' by {
                assert(text.drop_first()[i] == text[i + 1]);
            }
        }
        let next = scan.with_char(c);
        lemma_plain_text_is_verbatim(next, text.drop_first(), rest);
        assert(next.text + text.drop_first() =~= scan.text + text);
    }
}

/// A text without backslash and quote, followed by the closing quote, is
/// decoded to itself, and the scan stops behind the quote.
pub proof fn lemma_plain_string_round_trip(max_length: nat, text: Seq<char>, rest: BufferView)
    requires
        all_plain(text),
        text.len() < max_length,
    ensures
        StringScanView::start(max_length).scan_rest(rest.pushback('"').with_front(text)).0
            == Ok::<Seq<char>, LexError>(text),
        StringScanView::start(max_length).scan_rest(rest.pushback('"').with_front(text)).1
            == rest,
{
    let scan = StringScanView::start(max_length);
    let behind = rest.pushback('"');
    lemma_plain_text_is_verbatim(scan, text, behind);
    assert(scan.text + text =~= text);
    assert(behind.pending[0] == '"');
    assert(behind.next().1.pending =~= rest.pending);
}

/// A backslash and one of the eight characters that may follow it are
/// decoded to the one character that the pair stands for.
pub proof fn lemma_simple_escape_is_decoded(scan: StringScanView, c: char, rest: BufferView)
    requires
        scan.escape == EscapeState::Outside,
        !scan.exhausted(),
        spec_simple_escape(c) is Some,
    ensures
        scan.scan_rest(rest.with_front(seq!['\\', c])) == scan.with_char(
            spec_simple_escape(c)->Some_0,
        ).scan_rest(rest),
{
    let whole = rest.with_front(seq!['\\', c]);
    assert(whole.pending[0] == '\\');
    let second = whole.next().1;
    assert(second.pending =~= rest.with_front(seq![c]).pending);
    assert(second.pending[0] == c);
    assert(second.next().1.pending =~= rest.pending);
    assert(second.next().1 == rest);
    let escaped = scan.with_escape(EscapeState::Selector);
    assert(scan.scan_rest(whole) == escaped.scan_rest(second));
}

/// `\u` and four hexadecimal digits are decoded to the character whose code
/// the digits spell, the first digit the most significant, where that code
/// is the code of a character.
pub proof fn lemma_unicode_escape_is_decoded(
    scan: StringScanView,
    digits: Seq<char>,
    rest: BufferView,
)
    requires
        scan.escape == EscapeState::Outside,
        !scan.exhausted(),
        digits.len() == 4,
        forall|i: int| 0 <= i < 4 ==> spec_hex_value(#[trigger] digits[i]) is Some,
        spec_char_from_code(
            code_of(
                spec_hex_value(digits[0])->Some_0,
                spec_hex_value(digits[1])->Some_0,
                spec_hex_value(digits[2])->Some_0,
                spec_hex_value(digits[3])->Some_0,
            ) as u32,
        ) is Some,
    ensures
        scan.scan_rest(rest.with_front(seq!['\\', 'u'] + digits)) == scan.with_char(
            spec_char_from_code(
                code_of(
                    spec_hex_value(digits[0])->Some_0,
                    spec_hex_value(digits[1])->Some_0,
                    spec_hex_value(digits[2])->Some_0,
                    spec_hex_value(digits[3])->Some_0,
                ) as u32,
            )->Some_0,
        ).scan_rest(rest),
{
    let h0 = spec_hex_value(digits[0])->Some_0;
    let h1 = spec_hex_value(digits[1])->Some_0;
    let h2 = spec_hex_value(digits[2])->Some_0;
    let h3 = spec_hex_value(digits[3])->Some_0;
    assert(h0 < 16 && h1 < 16 && h2 < 16 && h3 < 16);
    let b0 = rest.with_front(seq!['\\', 'u'] + digits);
    assert(b0.pending[0] == '\\');
    let b1 = b0.next().1;
    assert(b1.pending =~= rest.with_front(seq!['u'] + digits).pending);
    assert(b1.pending[0] == 'u');
    let b2 = b1.next().1;
    assert(b2.pending =~= rest.with_front(digits).pending);
    assert(b2.pending[0] == digits[0]);
    let b3 = b2.next().1;
    assert(b3.pending =~= rest.with_front(digits.skip(1)).pending);
    assert(b3.pending[0] == digits[1]);
    let b4 = b3.next().1;
    assert(b4.pending =~= rest.with_front(digits.skip(2)).pending);
    assert(b4.pending[0] == digits[2]);
    let b5 = b4.next().1;
    assert(b5.pending =~= rest.with_front(digits.skip(3)).pending);
    assert(b5.pending[0] == digits[3]);
    let b6 = b5.next().1;
    assert(b6.pending =~= rest.pending);
    assert(b6 == rest);
    let s1 = scan.with_escape(EscapeState::Selector);
    let s2 = scan.with_escape(EscapeState::Unicode { digits: 0, code: 0 });
    let s3 = scan.with_escape(EscapeState::Unicode { digits: 1, code: h0 });
    let s4 = scan.with_escape(EscapeState::Unicode { digits: 2, code: (h0 * 16 + h1) as u32 });
    let s5 = scan.with_escape(
        EscapeState::Unicode { digits: 3, code: ((h0 * 16 + h1) * 16 + h2) as u32 },
    );
    assert(scan.step('\\') == (s1, CharScanResult::Continue));
    assert(s1.step('u') == (s2, CharScanResult::Continue));
    assert(s2.step(digits[0]) == (s3, CharScanResult::Continue));
    assert(s3.step(digits[1]) == (s4, CharScanResult::Continue));
    assert(s4.step(digits[2]) == (s5, CharScanResult::Continue));
    assert((((h0 * 16 + h1) * 16 + h2) * 16 + h3) as u32 == code_of(h0, h1, h2, h3) as u32);
    assert(scan.scan_rest(b0) == s1.scan_rest(b1));
    assert(s1.scan_rest(b1) == s2.scan_rest(b2));
    assert(s2.scan_rest(b2) == s3.scan_rest(b3));
    assert(s3.scan_rest(b3) == s4.scan_rest(b4));
    assert(s4.scan_rest(b4) == s5.scan_rest(b5));
}

/// A scan that stopped because the buffer ran dry has taken every character
/// out of a buffer that is still open, and loses nothing by it: going on from
/// where it ended, on what is submitted later, gives what the scan had given
/// with all of it in the buffer at once.
pub proof fn lemma_scan_can_be_resumed(scan: StringScanView, buffer: BufferView, later: BufferView)
    requires
        scan.scan_rest(buffer).0 == Err::<Seq<char>, LexError>(
            LexError::Buffer(BufferError::Pending),
        ),
    ensures
        !buffer.closed,
        scan.scan_rest(buffer).1 == (BufferView { pending: Seq::empty(), closed: false }),
        scan.scan_rest(later.with_front(buffer.pending)) == scan.scan_rest(buffer).2.scan_rest(
            later,
        ),
    decreases buffer.pending.len(),
{
    let whole = later.with_front(buffer.pending);
    if buffer.pending.len() == 0 {
        assert(whole.pending =~= later.pending);
        assert(buffer.pending =~= Seq::<char>::empty());
    } else {
        let c = buffer.pending[0];
        let rest = buffer.next().1;
        assert(whole.pending[0] == c);
        assert(whole.next().1.pending =~= later.with_front(rest.pending).pending);
        lemma_scan_can_be_resumed(scan.step(c).0, rest, later);
    }
}

} // verus!
