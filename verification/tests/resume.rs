use json_stream::buffer::{Buffer, BufferError};
use json_stream::error::LexError;
use json_stream::scanners::boolean::boolean_literal;
use json_stream::scanners::literal::{Literal, LiteralParsingState};
use json_stream::scanners::next_token;
use json_stream::scanners::number::NumberParsingState;
use json_stream::scanners::string::StringParsingState;
use json_stream::tokenizer::Tokenizer;
use json_stream::tokens::number_token::{Decimal, NumberToken};
use json_stream::tokens::string_token::StringToken;
use json_stream::tokens::JsonToken;

const PENDING: LexError = LexError::Buffer(BufferError::Pending);
const END: LexError = LexError::Buffer(BufferError::EndOfStream);

fn chars(s: &str) -> Vec<char> {
    s.chars().collect::<Vec<char>>()
}

/// The tokens of `chunks`, read as they arrive: after each chunk the
/// tokenizer is asked until it has to wait.
fn tokens_as_they_arrive(chunks: &[&str]) -> Vec<Result<JsonToken, LexError>> {
    let mut buffer = Buffer::new();
    let mut tokenizer = Tokenizer::new();
    let mut tokens = Vec::new();
    for chunk in chunks.iter() {
        buffer.add_data(chars(chunk)).unwrap();
        loop {
            match tokenizer.next_token(&mut buffer) {
                Err(PENDING) => break,
                other => tokens.push(other),
            }
        }
    }
    buffer.eof();
    loop {
        let token = tokenizer.next_token(&mut buffer);
        let done = token == Err(END);
        tokens.push(token);
        if done {
            break;
        }
    }
    tokens
}

#[test]
fn a_token_that_is_cut_in_two_is_taken_up_again() {
    let mut buffer = Buffer::new();
    let mut tokenizer = Tokenizer::new();
    assert!(tokenizer.is_idle());

    buffer.add_data(chars("  tr")).unwrap();
    assert_eq!(tokenizer.next_token(&mut buffer), Err(PENDING));
    assert!(!tokenizer.is_idle());
    assert_eq!(tokenizer.next_token(&mut buffer), Err(PENDING));
    buffer.add_data(chars("ue 12")).unwrap();
    assert_eq!(tokenizer.next_token(&mut buffer), Ok(JsonToken::Boolean(true)));
    assert!(tokenizer.is_idle());
    assert_eq!(tokenizer.next_token(&mut buffer), Err(PENDING));
    buffer.add_data(chars("3.5")).unwrap();
    assert_eq!(tokenizer.next_token(&mut buffer), Err(PENDING));
    buffer.add_data(chars("0,\"a\\")).unwrap();
    assert_eq!(
        tokenizer.next_token(&mut buffer),
        Ok(JsonToken::Number(NumberToken::Float(Decimal {
            negative: false,
            integer: 123,
            fraction: 50,
            fraction_digits: 2,
            exponent: 0,
        })))
    );
    assert_eq!(tokenizer.next_token(&mut buffer), Ok(JsonToken::Comma));
    assert_eq!(tokenizer.next_token(&mut buffer), Err(PENDING));
    buffer.add_data(chars("u00")).unwrap();
    assert_eq!(tokenizer.next_token(&mut buffer), Err(PENDING));
    buffer.add_data(chars("41b\"")).unwrap();
    assert_eq!(tokenizer.next_token(&mut buffer), Ok(JsonToken::String(StringToken::from("aAb"))));
    assert_eq!(tokenizer.next_token(&mut buffer), Err(PENDING));
    buffer.eof();
    assert_eq!(tokenizer.next_token(&mut buffer), Err(END));
}

#[test]
fn the_tokens_do_not_depend_on_the_chunks() {
    let text = "{\"name\": \"J\\u00f6rg\\n\", \"n\": [-12, 3.25e-2, true, false, null ]}";
    let whole = tokens_as_they_arrive(&[text]);
    assert_eq!(whole.len(), 20);
    assert_eq!(whole[1], Ok(JsonToken::String(StringToken::from("name"))));
    assert_eq!(whole[3], Ok(JsonToken::String(StringToken::from("J\u{f6}rg\n"))));
    assert_eq!(whole[19], Err(END));

    let single: Vec<String> = text.chars().map(|c| c.to_string()).collect();
    let single: Vec<&str> = single.iter().map(|s| s.as_str()).collect();
    assert_eq!(tokens_as_they_arrive(&single), whole);

    for cut in 0..text.len() {
        let (front, back) = text.split_at(cut);
        assert_eq!(tokens_as_they_arrive(&[front, back]), whole, "cut at {}", cut);
    }
}

#[test]
fn a_tokenizer_between_two_tokens_reads_like_next_token() {
    for text in ["  null,", "[1,2]", "\"a\" :", "tru", "1.5e3}", ".5", "   ", "@"] {
        let mut plain = Buffer::new();
        plain.add_data(chars(text)).unwrap();
        let mut resumable = Buffer::new();
        resumable.add_data(chars(text)).unwrap();
        assert_eq!(
            Tokenizer::new().next_token(&mut resumable),
            next_token(&mut plain),
            "{}",
            text
        );
        assert_eq!(resumable.next_char(), plain.next_char(), "{}", text);
    }
}

#[test]
fn a_failure_leaves_the_tokenizer_between_two_tokens() {
    let mut buffer = Buffer::new();
    let mut tokenizer = Tokenizer::new();
    buffer.add_data(chars("nul")).unwrap();
    assert_eq!(tokenizer.next_token(&mut buffer), Err(PENDING));
    buffer.add_data(chars("x,")).unwrap();
    assert_eq!(
        tokenizer.next_token(&mut buffer),
        Err(LexError::InvalidLiteral { expected: 'l', actual: Some('x') })
    );
    assert!(tokenizer.is_idle());
    assert_eq!(tokenizer.next_token(&mut buffer), Ok(JsonToken::Comma));
}

#[test]
fn a_stream_that_ends_inside_a_token_fails_the_token() {
    let mut buffer = Buffer::new();
    let mut tokenizer = Tokenizer::new();
    buffer.add_data(chars("fal")).unwrap();
    assert_eq!(tokenizer.next_token(&mut buffer), Err(PENDING));
    buffer.eof();
    assert_eq!(
        tokenizer.next_token(&mut buffer),
        Err(LexError::InvalidLiteral { expected: 's', actual: None })
    );

    let mut buffer = Buffer::new();
    let mut tokenizer = Tokenizer::new();
    buffer.add_data(chars("\"abc")).unwrap();
    assert_eq!(tokenizer.next_token(&mut buffer), Err(PENDING));
    buffer.eof();
    assert_eq!(tokenizer.next_token(&mut buffer), Err(END));

    let mut buffer = Buffer::new();
    let mut tokenizer = Tokenizer::new();
    buffer.add_data(chars("12")).unwrap();
    assert_eq!(tokenizer.next_token(&mut buffer), Err(PENDING));
    buffer.eof();
    assert_eq!(tokenizer.next_token(&mut buffer), Err(END));
}

#[test]
fn each_scanner_goes_on_from_where_it_stopped() {
    let mut buffer = Buffer::new();

    let mut number = NumberParsingState::new();
    buffer.add_data(chars("2")).unwrap();
    assert_eq!(number.scan_token('1', &mut buffer), Err(PENDING));
    assert_eq!(number.integer, 12);
    buffer.add_data(chars("3]")).unwrap();
    assert_eq!(number.scan(&mut buffer), Ok(NumberToken::Integer(123)));
    assert_eq!(buffer.next_char(), Ok(']'));

    let mut string = StringParsingState::new();
    buffer.add_data(chars("ab\\")).unwrap();
    assert_eq!(string.scan(&mut buffer), Err(PENDING));
    buffer.add_data(chars("tc\"")).unwrap();
    assert_eq!(string.scan(&mut buffer), Ok(StringToken::from("ab\tc")));

    let literal = boolean_literal('f').unwrap();
    assert_eq!(literal, Literal::False);
    let mut state = LiteralParsingState::new(literal);
    buffer.add_data(chars("al")).unwrap();
    assert_eq!(state.scan(&mut buffer), Err(PENDING));
    assert_eq!(state.matched, 2);
    buffer.add_data(chars("se")).unwrap();
    assert_eq!(state.scan(&mut buffer), Ok(()));
    assert!(state.is_complete());

    assert_eq!(boolean_literal('t'), Ok(Literal::True));
    assert_eq!(
        boolean_literal('n'),
        Err(LexError::InvalidLiteral { expected: 't', actual: Some('n') })
    );
}
