//! The number scanner.
//!
//! A number is read one character at a time. What has been read so far is kept
//! in a `NumberParsingState`; `scan_char` is the rule by which one more
//! character changes it or ends the number. `scan_token` applies that rule to
//! the characters of a buffer until the number ends.

use crate::buffer::{Buffer, BufferError, BufferView};
use crate::error::{LexError, NumberError};
use crate::scanners::common::{is_delimiter, spec_is_delimiter};
use crate::tokens::number_token::{pow10, Decimal, NumberToken};
use crate::tokens::whitespace_token::{is_whitespace, spec_is_whitespace};
use vstd::prelude::*;

verus! {

/// Whether a number may start with `c`: a sign or a decimal digit.
pub open spec fn spec_is_first_char_of_number(c: char) -> bool {
    c == '-' || c == '+' || spec_is_digit(c)
}

/// Whether a number may start with `c`.
#[verifier::when_used_as_spec(spec_is_first_char_of_number)]
pub fn is_first_char_of_number(c: char) -> (b: bool)
    ensures
        b == spec_is_first_char_of_number(c),
{
    c == '-' || c == '+' || is_digit(c)
}

/// The decimal digits.
pub open spec fn spec_is_digit(c: char) -> bool {
    '0' <= c <= '9'
}

/// Whether `c` is one of `0` to `9`.
#[verifier::when_used_as_spec(spec_is_digit)]
pub fn is_digit(c: char) -> (b: bool)
    ensures
        b == spec_is_digit(c),
{
    '0' <= c && c <= '9'
}

/// The value of the decimal digit `c`.
pub open spec fn spec_digit_value(c: char) -> int {
    c as int - '0' as int
}

/// The value of the decimal digit `c`.
pub fn digit_value(c: char) -> (d: i64)
    requires
        spec_is_digit(c),
    ensures
        d == spec_digit_value(c),
        0 <= d <= 9,
{
    (c as u32 - '0' as u32) as i64
}

/// `1` for a number that is not negative, `-1` for one that is.
pub fn as_sign_multiplier(is_negative: bool) -> (m: i64)
    ensures
        m == (if is_negative { -1int } else { 1int }),
{
    if is_negative {
        -1
    } else {
        1
    }
}

/// The part of a number that the next digit belongs to.
#[derive(Debug, Clone, Copy, PartialEq, Eq, Structural)]
pub enum NumberPart {
    /// Before the decimal point.
    Integer,
    /// Behind the decimal point.
    Fraction,
    /// Behind the exponent mark.
    Exponent,
}

/// Why the scan of a number stopped.
#[derive(Debug, Clone, Copy, PartialEq, Eq, Structural)]
pub enum NumberParseTerminationReason {
    /// The text is no number.
    Fatal(NumberError),
    /// A comma, a closing brace or a closing bracket was read: the number is
    /// complete, and that character belongs to what follows it.
    EndOfNumber,
}

/// What has been read of a number: the digits of each part gathered into one
/// integer, the part that is being read, and the two signs.
#[derive(Debug, Clone, Copy, PartialEq, Eq, Structural)]
pub struct NumberParsingState {
    /// The digits before the decimal point.
    pub integer: i64,
    /// Whether a digit has been read before the decimal point.
    pub integer_seen: bool,
    /// The digits behind the decimal point.
    pub fraction: i64,
    /// How many digits have been read behind the decimal point.
    pub fraction_digits: u64,
    /// The digits of the exponent.
    pub exponent: i64,
    /// The part that the next digit belongs to.
    pub current_part: NumberPart,
    /// Whether a minus sign was read before the exponent mark.
    pub number_negative: bool,
    /// Whether a minus sign was read behind the exponent mark.
    pub exponent_negative: bool,
}

impl NumberParsingState {
    /// The state before anything has been read.
    pub open spec fn start() -> NumberParsingState {
        NumberParsingState {
            integer: 0,
            integer_seen: false,
            fraction: 0,
            fraction_digits: 0,
            exponent: 0,
            current_part: NumberPart::Integer,
            number_negative: false,
            exponent_negative: false,
        }
    }

    /// No part is negative, and the fraction has no more digits than were
    /// counted.
    pub open spec fn wf(self) -> bool {
        &&& self.integer >= 0
        &&& self.fraction >= 0
        &&& self.exponent >= 0
        &&& self.fraction < pow10(self.fraction_digits as nat)
    }

    /// The digits gathered for the part that is being read.
    pub open spec fn current(self) -> int {
        match self.current_part {
            NumberPart::Integer => self.integer as int,
            NumberPart::Fraction => self.fraction as int,
            NumberPart::Exponent => self.exponent as int,
        }
    }

    /// Whether one more digit `d` still fits into the part that is being read.
    pub open spec fn digit_fits(self, d: int) -> bool {
        &&& self.current() * 10 + d <= i64::MAX
        &&& self.current_part == NumberPart::Fraction ==> self.fraction_digits < u64::MAX
    }

    /// The state after the digit `d` was appended to the part that is being
    /// read.
    pub open spec fn with_digit(self, d: int) -> NumberParsingState {
        match self.current_part {
            NumberPart::Integer => NumberParsingState {
                integer: (self.integer * 10 + d) as i64,
                integer_seen: true,
                ..self
            },
            NumberPart::Fraction => NumberParsingState {
                fraction: (self.fraction * 10 + d) as i64,
                fraction_digits: (self.fraction_digits + 1) as u64,
                ..self
            },
            NumberPart::Exponent => NumberParsingState {
                exponent: (self.exponent * 10 + d) as i64,
                ..self
            },
        }
    }

    /// The rule for one character: the state after `c`, and whether and why
    /// the scan stops at `c`. Where it stops, the state is the one before `c`.
    pub open spec fn step(self, c: char) -> (
        NumberParsingState,
        Option<NumberParseTerminationReason>,
    ) {
        if spec_is_delimiter(c) {
            (self, Some(NumberParseTerminationReason::EndOfNumber))
        } else if spec_is_whitespace(c) {
            (self, None)
        } else if spec_is_digit(c) {
            if self.digit_fits(spec_digit_value(c)) {
                (self.with_digit(spec_digit_value(c)), None)
            } else {
                (self, Some(NumberParseTerminationReason::Fatal(NumberError::Overflow)))
            }
        } else if c == 'e' || c == 'E' {
            if self.current_part == NumberPart::Fraction && self.fraction_digits > 0 {
                (NumberParsingState { current_part: NumberPart::Exponent, ..self }, None)
            } else {
                (self, Some(NumberParseTerminationReason::Fatal(NumberError::MisplacedExponent)))
            }
        } else if c == '-' {
            match self.current_part {
                NumberPart::Integer => (NumberParsingState { number_negative: true, ..self }, None),
                NumberPart::Fraction => (
                    self,
                    Some(NumberParseTerminationReason::Fatal(NumberError::MisplacedSign)),
                ),
                NumberPart::Exponent => (
                    NumberParsingState { exponent_negative: true, ..self },
                    None,
                ),
            }
        } else if c == '+' {
            match self.current_part {
                NumberPart::Exponent => (self, None),
                _ => (self, Some(NumberParseTerminationReason::Fatal(NumberError::MisplacedSign))),
            }
        } else if c == '.' {
            if self.current_part == NumberPart::Integer && self.integer_seen {
                (NumberParsingState { current_part: NumberPart::Fraction, ..self }, None)
            } else {
                (
                    self,
                    Some(NumberParseTerminationReason::Fatal(NumberError::MisplacedDecimalPoint)),
                )
            }
        } else {
            (self, Some(NumberParseTerminationReason::Fatal(NumberError::InvalidCharacter(c))))
        }
    }

    /// The number that the state stands for: an integer while only the part
    /// before the decimal point has been read, a decimal afterwards. The
    /// minus sign applies to the whole number.
    pub open spec fn token(self) -> NumberToken {
        match self.current_part {
            NumberPart::Integer => NumberToken::Integer(
                if self.number_negative {
                    (-self.integer) as i64
                } else {
                    self.integer
                },
            ),
            _ => NumberToken::Float(
                Decimal {
                    negative: self.number_negative,
                    integer: self.integer,
                    fraction: self.fraction,
                    fraction_digits: self.fraction_digits,
                    exponent: if self.exponent_negative {
                        (-self.exponent) as i64
                    } else {
                        self.exponent
                    },
                },
            ),
        }
    }

    /// Whether each digit of `digits`, taken in turn, still fits into the part
    /// that is being read.
    pub open spec fn digits_fit(self, digits: Seq<char>) -> bool
        decreases digits.len(),
    {
        digits.len() > 0 ==> {
            &&& self.digit_fits(spec_digit_value(digits[0]))
            &&& self.with_digit(spec_digit_value(digits[0])).digits_fit(digits.drop_first())
        }
    }

    /// The state after each digit of `digits`, taken in turn, was appended to
    /// the part that is being read.
    pub open spec fn with_digits(self, digits: Seq<char>) -> NumberParsingState
        decreases digits.len(),
    {
        if digits.len() == 0 {
            self
        } else {
            self.with_digit(spec_digit_value(digits[0])).with_digits(digits.drop_first())
        }
    }

    /// What a scan makes of the characters of `buffer` when it is in this
    /// state, the buffer it leaves, and the state it ends in. The scan reads
    /// on until a character stops it; the delimiter that ends a number is
    /// handed back. Where the buffer has no more characters, the scan ends
    /// with the buffer's failure, in the state that it can go on from.
    pub open spec fn scan_rest(self, buffer: BufferView) -> (
        Result<NumberToken, LexError>,
        BufferView,
        NumberParsingState,
    )
        decreases buffer.pending.len(),
    {
        if buffer.pending.len() == 0 {
            (Err(LexError::Buffer(buffer.next().0->Err_0)), buffer, self)
        } else {
            let c = buffer.pending[0];
            let rest = buffer.next().1;
            match self.step(c).1 {
                None => self.step(c).0.scan_rest(rest),
                Some(NumberParseTerminationReason::EndOfNumber) => (
                    Ok(self.token()),
                    rest.pushback(c),
                    self,
                ),
                Some(NumberParseTerminationReason::Fatal(e)) => (
                    Err(LexError::Number(e)),
                    rest,
                    self,
                ),
            }
        }
    }

    /// What a scan makes of `first_char` followed by the characters of
    /// `buffer`, the buffer it leaves, and the state it ends in.
    pub open spec fn scan_from(self, first_char: char, buffer: BufferView) -> (
        Result<NumberToken, LexError>,
        BufferView,
        NumberParsingState,
    ) {
        match self.step(first_char).1 {
            None => self.step(first_char).0.scan_rest(buffer),
            Some(NumberParseTerminationReason::EndOfNumber) => (
                Err(LexError::Number(NumberError::Empty)),
                buffer.pushback(first_char),
                self,
            ),
            Some(NumberParseTerminationReason::Fatal(e)) => (
                Err(LexError::Number(e)),
                buffer,
                self,
            ),
        }
    }

    /// The state before anything has been read.
    pub fn new() -> (state: NumberParsingState)
        ensures
            state == NumberParsingState::start(),
            state.wf(),
    {
        NumberParsingState {
            integer: 0,
            integer_seen: false,
            fraction: 0,
            fraction_digits: 0,
            exponent: 0,
            current_part: NumberPart::Integer,
            number_negative: false,
            exponent_negative: false,
        }
    }

    /// The number that has been read.
    pub fn as_number_token(&self) -> (token: NumberToken)
        requires
            self.wf(),
        ensures
            token == self.token(),
            token matches NumberToken::Float(d) ==> d.wf(),
    {
        let sign: i64 = as_sign_multiplier(self.number_negative);
        let exponent_sign: i64 = as_sign_multiplier(self.exponent_negative);
        assert(self.integer * sign == (if self.number_negative {
            -self.integer
        } else {
            self.integer as int
        })) by (nonlinear_arith)
            requires
                sign == (if self.number_negative {
                    -1int
                } else {
                    1int
                }),
        ;
        assert(self.exponent * exponent_sign == (if self.exponent_negative {
            -self.exponent
        } else {
            self.exponent as int
        })) by (nonlinear_arith)
            requires
                exponent_sign == (if self.exponent_negative {
                    -1int
                } else {
                    1int
                }),
        ;
        match self.current_part {
            NumberPart::Integer => NumberToken::Integer(self.integer * sign),
            _ => NumberToken::Float(
                Decimal {
                    negative: self.number_negative,
                    integer: self.integer,
                    fraction: self.fraction,
                    fraction_digits: self.fraction_digits,
                    exponent: self.exponent * exponent_sign,
                },
            ),
        }
    }

    /// Takes one more character of the number: changes the state by it, or
    /// says why the scan stops there and leaves the state as it is.
    pub fn scan_char(&mut self, c: char) -> (stop: Option<NumberParseTerminationReason>)
        requires
            old(self).wf(),
        ensures
            final(self).wf(),
            (*final(self), stop) == old(self).step(c),
    {
        if is_delimiter(c) {
            Some(NumberParseTerminationReason::EndOfNumber)
        } else if is_whitespace(c) {
            None
        } else if is_digit(c) {
            let d: i64 = digit_value(c);
            match self.current_part {
                NumberPart::Integer => {
                    if self.integer > (i64::MAX - d) / 10 {
                        return Some(NumberParseTerminationReason::Fatal(NumberError::Overflow));
                    }
                    self.integer = self.integer * 10 + d;
                    self.integer_seen = true;
                },
                NumberPart::Fraction => {
                    if self.fraction > (i64::MAX - d) / 10 || self.fraction_digits == u64::MAX {
                        return Some(NumberParseTerminationReason::Fatal(NumberError::Overflow));
                    }
                    self.fraction = self.fraction * 10 + d;
                    self.fraction_digits = self.fraction_digits + 1;
                },
                NumberPart::Exponent => {
                    if self.exponent > (i64::MAX - d) / 10 {
                        return Some(NumberParseTerminationReason::Fatal(NumberError::Overflow));
                    }
                    self.exponent = self.exponent * 10 + d;
                },
            }
            None
        } else if c == 'e' || c == 'E' {
            if self.current_part == NumberPart::Fraction && self.fraction_digits > 0 {
                self.current_part = NumberPart::Exponent;
                None
            } else {
                Some(NumberParseTerminationReason::Fatal(NumberError::MisplacedExponent))
            }
        } else if c == '-' {
            match self.current_part {
                NumberPart::Integer => {
                    self.number_negative = true;
                    None
                },
                NumberPart::Fraction => Some(
                    NumberParseTerminationReason::Fatal(NumberError::MisplacedSign),
                ),
                NumberPart::Exponent => {
                    self.exponent_negative = true;
                    None
                },
            }
        } else if c == '+' {
            match self.current_part {
                NumberPart::Exponent => None,
                _ => Some(NumberParseTerminationReason::Fatal(NumberError::MisplacedSign)),
            }
        } else if c == '.' {
            if self.current_part == NumberPart::Integer && self.integer_seen {
                self.current_part = NumberPart::Fraction;
                None
            } else {
                Some(NumberParseTerminationReason::Fatal(NumberError::MisplacedDecimalPoint))
            }
        } else {
            Some(NumberParseTerminationReason::Fatal(NumberError::InvalidCharacter(c)))
        }
    }

    /// Goes on with the scan of a number on the characters of `buffer`, up to
    /// the character that ends it, which is handed back to the buffer. Where
    /// the buffer runs dry before that, the scan can be taken up again when
    /// more has been submitted.
    pub fn scan(&mut self, buffer: &mut Buffer) -> (result: Result<NumberToken, LexError>)
        requires
            old(self).wf(),
            old(buffer).wf(),
        ensures
            final(self).wf(),
            final(buffer).wf(),
            (result, final(buffer)@, *final(self)) == old(self).scan_rest(old(buffer)@),
    {
        loop
            invariant
                self.wf(),
                buffer.wf(),
                self.scan_rest(buffer@) == old(self).scan_rest(old(buffer)@),
            decreases buffer@.pending.len(),
        {
            match buffer.next_char() {
                Err(e) => {
                    return Err(LexError::Buffer(e));
                },
                Ok(c) => {
                    match self.scan_char(c) {
                        None => {},
                        Some(NumberParseTerminationReason::EndOfNumber) => {
                            buffer.replace_char(c);
                            return Ok(self.as_number_token());
                        },
                        Some(NumberParseTerminationReason::Fatal(e)) => {
                            return Err(LexError::Number(e));
                        },
                    }
                },
            }
        }
    }

    /// Scans a number whose first character, `first_char`, has been taken out
    /// of `buffer` already. The character that ends the number is handed back
    /// to the buffer.
    pub fn scan_token(
        &mut self,
        first_char: char,
        buffer: &mut Buffer,
    ) -> (result: Result<NumberToken, LexError>)
        requires
            old(self).wf(),
            old(buffer).wf(),
        ensures
            final(self).wf(),
            final(buffer).wf(),
            (result, final(buffer)@, *final(self)) == old(self).scan_from(
                first_char,
                old(buffer)@,
            ),
    {
        match self.scan_char(first_char) {
            Some(NumberParseTerminationReason::Fatal(e)) => Err(LexError::Number(e)),
            Some(NumberParseTerminationReason::EndOfNumber) => {
                buffer.replace_char(first_char);
                Err(LexError::Number(NumberError::Empty))
            },
            None => self.scan(buffer),
        }
    }
}

/// Scans a number whose first character, `first_char`, has been taken out of
/// `buffer` already.
pub fn scan_number_token(
    first_char: char,
    buffer: &mut Buffer,
) -> (result: Result<NumberToken, LexError>)
    requires
        old(buffer).wf(),
    ensures
        final(buffer).wf(),
        result == NumberParsingState::start().scan_from(first_char, old(buffer)@).0,
        final(buffer)@ == NumberParsingState::start().scan_from(first_char, old(buffer)@).1,
{
    let mut state = NumberParsingState::new();
    state.scan_token(first_char, buffer)
}

/// A number that was scanned to its end leaves the delimiter that ended it as
/// the next character of the buffer, and the buffer as open or closed as it
/// was.
pub proof fn lemma_scan_leaves_the_delimiter(state: NumberParsingState, buffer: BufferView)
    ensures
        state.scan_rest(buffer).0 is Ok ==> {
            &&& state.scan_rest(buffer).1.pending.len() > 0
            &&& spec_is_delimiter(state.scan_rest(buffer).1.pending[0])
            &&& state.scan_rest(buffer).1.closed == buffer.closed
        },
    decreases buffer.pending.len(),
{
    if buffer.pending.len() > 0 {
        let c = buffer.pending[0];
        let rest = buffer.next().1;
        if state.step(c).1 is None {
            lemma_scan_leaves_the_delimiter(state.step(c).0, rest);
        }
    }
}

/// A number ends only at a delimiter, and what the scan leaves is the buffer
/// from that delimiter on: nothing behind the number is lost.
pub proof fn lemma_scan_leaves_a_suffix(state: NumberParsingState, buffer: BufferView)
    ensures
        state.scan_rest(buffer).0 is Ok ==> exists|n: int|
            0 <= n < buffer.pending.len() && state.scan_rest(buffer).1.pending
                == #[trigger] buffer.pending.skip(n),
    decreases buffer.pending.len(),
{
    if buffer.pending.len() > 0 {
        let c = buffer.pending[0];
        let rest = buffer.next().1;
        match state.step(c).1 {
            None => {
                lemma_scan_leaves_a_suffix(state.step(c).0, rest);
                if state.scan_rest(buffer).0 is Ok {
                    let n = choose|n: int|
                        0 <= n < rest.pending.len() && state.step(c).0.scan_rest(rest).1.pending
                            == #[trigger] rest.pending.skip(n);
                    assert(rest.pending.skip(n) =~= buffer.pending.skip(n + 1));
                }
            },
            Some(NumberParseTerminationReason::EndOfNumber) => {
                assert(rest.pushback(c).pending =~= buffer.pending.skip(0));
            },
            _ => {},
        }
    }
}

/// The state after the sign of a number was read, if it has one: nothing is
/// gathered yet, and the number is negative where a minus sign was read.
pub open spec fn signed_start(negative: bool) -> NumberParsingState {
    NumberParsingState { number_negative: negative, ..NumberParsingState::start() }
}

/// The number of the magnitude `magnitude`, negated where `negative` is set.
pub open spec fn signed(negative: bool, magnitude: int) -> int {
    if negative {
        -magnitude
    } else {
        magnitude
    }
}

/// Whether every character of `text` is a decimal digit.
pub open spec fn all_digits(text: Seq<char>) -> bool {
    forall|i: int| 0 <= i < text.len() ==> spec_is_digit(#[trigger] text[i])
}

/// The number that the digits of `digits` spell when they are written behind
/// a number `before`.
pub open spec fn digits_value(before: int, digits: Seq<char>) -> int
    decreases digits.len(),
{
    if digits.len() == 0 {
        before
    } else {
        digits_value(before * 10 + spec_digit_value(digits[0]), digits.drop_first())
    }
}

/// More digits never make a number smaller.
pub proof fn lemma_digits_value_grows(before: int, digits: Seq<char>)
    requires
        before >= 0,
        all_digits(digits),
    ensures
        digits_value(before, digits) >= before,
    decreases digits.len(),
{
    if digits.len() > 0 {
        assert(spec_is_digit(digits[0]));
        lemma_digits_value_grows(before * 10 + spec_digit_value(digits[0]), digits.drop_first());
    }
}

/// A scan whose first character is no delimiter does with that character what
/// it does with every other: the scan is the same as if the character were
/// still the first of the buffer.
pub proof fn lemma_first_char_is_scanned_like_the_rest(
    state: NumberParsingState,
    first_char: char,
    buffer: BufferView,
)
    requires
        !spec_is_delimiter(first_char),
    ensures
        state.scan_from(first_char, buffer) == state.scan_rest(buffer.pushback(first_char)),
{
    let whole = buffer.pushback(first_char);
    assert(whole.pending[0] == first_char);
    assert(whole.next().1.pending =~= buffer.pending);
}

/// A run of digits is gathered into the part that is being read, digit by
/// digit, as long as it fits: the scan goes on behind the run, in the state
/// that holds the digits.
pub proof fn lemma_digits_are_gathered(
    state: NumberParsingState,
    digits: Seq<char>,
    rest: BufferView,
)
    requires
        all_digits(digits),
        state.digits_fit(digits),
    ensures
        state.scan_rest(rest.with_front(digits)) == state.with_digits(digits).scan_rest(rest),
    decreases digits.len(),
{
    let whole = rest.with_front(digits);
    if digits.len() == 0 {
        assert(whole.pending =~= rest.pending);
    } else {
        let c = digits[0];
        assert(spec_is_digit(c));
        assert(whole.pending[0] == c);
        assert(whole.next().1.pending =~= rest.with_front(digits.drop_first()).pending);
        assert(all_digits(digits.drop_first())) by {
            assert forall|i: int| 0 <= i < digits.drop_first().len() implies spec_is_digit(
                #[trigger] digits.drop_first()[i],
            ) by {
                assert(digits.drop_first()[i] == digits[i + 1]);
            }
        }
        lemma_digits_are_gathered(
            state.with_digit(spec_digit_value(c)),
            digits.drop_first(),
            rest,
        );
    }
}

/// The state in which the digits of `digits` have been gathered into the
/// part that is being read: that part holds the number which the digits
/// spell behind what it held, and behind the decimal point they are counted.
pub open spec fn gathered(state: NumberParsingState, digits: Seq<char>) -> NumberParsingState {
    match state.current_part {
        NumberPart::Integer => NumberParsingState {
            integer: digits_value(state.integer as int, digits) as i64,
            integer_seen: state.integer_seen || digits.len() > 0,
            ..state
        },
        NumberPart::Fraction => NumberParsingState {
            fraction: digits_value(state.fraction as int, digits) as i64,
            fraction_digits: (state.fraction_digits + digits.len()) as u64,
            ..state
        },
        NumberPart::Exponent => NumberParsingState {
            exponent: digits_value(state.exponent as int, digits) as i64,
            ..state
        },
    }
}

/// The digits that fit into a part are those whose number fits in 64 signed
/// bits (and, behind the decimal point, whose count fits in 64 bits), and
/// gathering them gives that number.
pub proof fn lemma_gathered_digits(state: NumberParsingState, digits: Seq<char>)
    requires
        state.wf(),
        all_digits(digits),
    ensures
        state.digits_fit(digits) <==> {
            &&& digits_value(state.current(), digits) <= i64::MAX
            &&& state.current_part == NumberPart::Fraction ==> state.fraction_digits
                + digits.len() <= u64::MAX
        },
        state.digits_fit(digits) ==> state.with_digits(digits) == gathered(state, digits),
        state.digits_fit(digits) ==> state.with_digits(digits).wf(),
    decreases digits.len(),
{
    if digits.len() > 0 {
        let d = spec_digit_value(digits[0]);
        assert(spec_is_digit(digits[0]));
        assert(all_digits(digits.drop_first())) by {
            assert forall|i: int| 0 <= i < digits.drop_first().len() implies spec_is_digit(
                #[trigger] digits.drop_first()[i],
            ) by {
                assert(digits.drop_first()[i] == digits[i + 1]);
            }
        }
        lemma_digits_value_grows(state.current() * 10 + d, digits.drop_first());
        if state.digit_fits(d) {
            let next = state.with_digit(d);
            assert(next.wf());
            assert(next.current() == state.current() * 10 + d);
            lemma_gathered_digits(next, digits.drop_first());
        }
    }
}

/// A run of digits that is followed by a delimiter is read as the integer
/// that it spells, negated where a minus sign was read before it, and the
/// delimiter stays in the buffer.
pub proof fn lemma_integer_round_trip(
    negative: bool,
    digits: Seq<char>,
    delimiter: char,
    rest: BufferView,
)
    requires
        all_digits(digits),
        digits_value(0, digits) <= i64::MAX,
        spec_is_delimiter(delimiter),
    ensures
        signed_start(negative).scan_rest(rest.pushback(delimiter).with_front(digits)).0
            == Ok::<NumberToken, LexError>(
            NumberToken::Integer(signed(negative, digits_value(0, digits)) as i64),
        ),
        signed_start(negative).scan_rest(rest.pushback(delimiter).with_front(digits)).1
            == rest.pushback(delimiter),
{
    let state = signed_start(negative);
    lemma_gathered_digits(state, digits);
    lemma_digits_are_gathered(state, digits, rest.pushback(delimiter));
    lemma_digits_value_grows(0, digits);
    let behind = rest.pushback(delimiter);
    assert(behind.pending[0] == delimiter);
    assert(behind.next().1.pushback(delimiter).pending =~= behind.pending);
    assert(behind.next().1.pushback(delimiter) == behind);
    let gathered = state.with_digits(digits);
    assert(gathered.step(delimiter).1 == Some(NumberParseTerminationReason::EndOfNumber));
    assert(gathered.scan_rest(behind).0 == Ok::<NumberToken, LexError>(gathered.token()));
    assert(gathered.scan_rest(behind).1 == behind);
}

/// Digits, a decimal point, more digits and a delimiter are read as the
/// decimal that they spell: the digits before the point as its integer part,
/// those behind it as its fraction, leading zeros counted. The minus sign
/// that was read before it applies to the whole number, and the delimiter
/// stays in the buffer.
pub proof fn lemma_decimal_round_trip(
    negative: bool,
    whole: Seq<char>,
    fraction: Seq<char>,
    delimiter: char,
    rest: BufferView,
)
    requires
        whole.len() > 0,
        all_digits(whole),
        digits_value(0, whole) <= i64::MAX,
        all_digits(fraction),
        digits_value(0, fraction) <= i64::MAX,
        fraction.len() <= u64::MAX,
        spec_is_delimiter(delimiter),
    ensures
        signed_start(negative).scan_rest(
            rest.pushback(delimiter).with_front(fraction).pushback('.').with_front(whole),
        ).0 == Ok::<NumberToken, LexError>(
            NumberToken::Float(
                (Decimal {
                    negative,
                    integer: digits_value(0, whole) as i64,
                    fraction: digits_value(0, fraction) as i64,
                    fraction_digits: fraction.len() as u64,
                    exponent: 0,
                }),
            ),
        ),
        signed_start(negative).scan_rest(
            rest.pushback(delimiter).with_front(fraction).pushback('.').with_front(whole),
        ).1 == rest.pushback(delimiter),
{
    let state = signed_start(negative);
    let behind = rest.pushback(delimiter);
    let from_fraction = behind.with_front(fraction);
    let from_point = from_fraction.pushback('.');
    lemma_gathered_digits(state, whole);
    lemma_digits_are_gathered(state, whole, from_point);
    lemma_digits_value_grows(0, whole);
    let at_point = state.with_digits(whole);
    assert(from_point.pending[0] == '.');
    assert(from_point.next().1.pending =~= from_fraction.pending);
    assert(from_point.next().1 == from_fraction);
    let in_fraction = at_point.step('.').0;
    assert(at_point.step('.').1 is None);
    assert(at_point.scan_rest(from_point) == in_fraction.scan_rest(from_fraction));
    lemma_gathered_digits(in_fraction, fraction);
    lemma_digits_are_gathered(in_fraction, fraction, behind);
    lemma_digits_value_grows(0, fraction);
    let at_end = in_fraction.with_digits(fraction);
    assert(behind.pending[0] == delimiter);
    assert(behind.next().1.pushback(delimiter).pending =~= behind.pending);
    assert(behind.next().1.pushback(delimiter) == behind);
    assert(at_end.step(delimiter).1 == Some(NumberParseTerminationReason::EndOfNumber));
    assert(at_end.scan_rest(behind).0 == Ok::<NumberToken, LexError>(at_end.token()));
    assert(at_end.scan_rest(behind).1 == behind);
}

/// A scan that stopped because the buffer ran dry has taken every character
/// out of a buffer that is still open, and loses nothing by it: going on from
/// the state it ended in, on what is submitted later, gives what the scan
/// had given with all of it in the buffer at once.
pub proof fn lemma_scan_can_be_resumed(
    state: NumberParsingState,
    buffer: BufferView,
    later: BufferView,
)
    requires
        state.scan_rest(buffer).0 == Err::<NumberToken, LexError>(
            LexError::Buffer(BufferError::Pending),
        ),
    ensures
        !buffer.closed,
        state.scan_rest(buffer).1 == (BufferView { pending: Seq::empty(), closed: false }),
        state.scan_rest(later.with_front(buffer.pending)) == state.scan_rest(buffer).2.scan_rest(
            later,
        ),
    decreases buffer.pending.len(),
{
    let whole = later.with_front(buffer.pending);
    if buffer.pending.len() == 0 {
        assert(whole.pending =~= later.pending);
        assert(buffer.pending =~= Seq::<char>::empty());
    } else {
        let c = buffer.pending[0];
        let rest = buffer.next().1;
        assert(whole.pending[0] == c);
        assert(whole.next().1.pending =~= later.with_front(rest.pending).pending);
        lemma_scan_can_be_resumed(state.step(c).0, rest, later);
    }
}

/// Digits written behind a number shift it by as many places as there are
/// digits, and add the number that they spell by themselves.
pub proof fn lemma_digits_value_shifts(before: int, digits: Seq<char>)
    ensures
        digits_value(before, digits) == before * pow10(digits.len()) + digits_value(0, digits),
    decreases digits.len(),
{
    if digits.len() == 0 {
        assert(before * 1 == before);
    } else {
        let d = spec_digit_value(digits[0]);
        let tail = digits.drop_first();
        let shift = pow10(tail.len()) as int;
        lemma_digits_value_shifts(before * 10 + d, tail);
        lemma_digits_value_shifts(d, tail);
        assert(digits_value(0, digits) == digits_value(d, tail));
        assert(tail.len() == digits.len() - 1);
        assert(pow10(digits.len()) == 10 * shift);
        assert(before * pow10(digits.len()) == before * (10 * shift));
        assert((before * 10 + d) * shift == before * (10 * shift) + d * shift)
            by (nonlinear_arith);
    }
}

/// A run of digits behind another spells the number of the two runs written
/// as one.
pub proof fn lemma_digits_value_of_two_runs(before: int, first: Seq<char>, second: Seq<char>)
    ensures
        digits_value(before, first + second) == digits_value(
            digits_value(before, first),
            second,
        ),
    decreases first.len(),
{
    if first.len() == 0 {
        assert(first + second =~= second);
    } else {
        assert((first + second)[0] == first[0]);
        assert((first + second).drop_first() =~= first.drop_first() + second);
        lemma_digits_value_of_two_runs(
            before * 10 + spec_digit_value(first[0]),
            first.drop_first(),
            second,
        );
    }
}

/// The decimal that is read from digits, a decimal point and more digits is
/// the number that all the digits spell, with the decimal point as many
/// places from its end as digits follow the point.
pub proof fn lemma_decimal_is_its_digits(
    negative: bool,
    whole: Seq<char>,
    fraction: Seq<char>,
    delimiter: char,
    rest: BufferView,
)
    requires
        whole.len() > 0,
        all_digits(whole),
        digits_value(0, whole) <= i64::MAX,
        all_digits(fraction),
        digits_value(0, fraction) <= i64::MAX,
        fraction.len() <= u64::MAX,
        spec_is_delimiter(delimiter),
    ensures
        signed_start(negative).scan_rest(
            rest.pushback(delimiter).with_front(fraction).pushback('.').with_front(whole),
        ).0 matches Ok(NumberToken::Float(decimal)) && {
            &&& decimal.wf()
            &&& decimal.negative == negative
            &&& decimal.digits() == digits_value(0, whole + fraction)
            &&& decimal.scale() == -fraction.len()
        },
{
    lemma_decimal_round_trip(negative, whole, fraction, delimiter, rest);
    lemma_digits_value_grows(0, whole);
    lemma_digits_value_grows(0, fraction);
    lemma_digits_value_of_two_runs(0, whole, fraction);
    lemma_digits_value_shifts(digits_value(0, whole), fraction);
    lemma_digits_value_below_its_power(fraction);
}

/// A run of digits spells a number below ten to the power of its length.
pub proof fn lemma_digits_value_below_its_power(digits: Seq<char>)
    requires
        all_digits(digits),
    ensures
        digits_value(0, digits) < pow10(digits.len()),
    decreases digits.len(),
{
    if digits.len() > 0 {
        let d = spec_digit_value(digits[0]);
        let tail = digits.drop_first();
        assert(spec_is_digit(digits[0]));
        assert(all_digits(tail)) by {
            assert forall|i: int| 0 <= i < tail.len() implies spec_is_digit(#[trigger] tail[i]) by {
                assert(tail[i] == digits[i + 1]);
            }
        }
        lemma_digits_value_below_its_power(tail);
        lemma_digits_value_shifts(d, tail);
        let shift = pow10(tail.len()) as int;
        assert(d * shift + digits_value(0, tail) < 10 * shift) by (nonlinear_arith)
            requires
                0 <= d <= 9,
                0 <= shift,
                digits_value(0, tail) < shift,
        ;
        assert(tail.len() == digits.len() - 1);
        assert(pow10(digits.len()) == 10 * shift);
    }
}

} // verus!
