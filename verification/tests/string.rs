use json_stream::buffer::{Buffer, BufferError};
use json_stream::error::LexError;
use json_stream::scanners::string::{
    char_type, hex_value, is_first_char_of_string, scan_string_token, simple_escape,
    CharScanResult, ScannedCharType, StringParsingState, MAX_READ_LENGTH,
};
use json_stream::tokens::string_token::StringToken;

fn chars(s: &str) -> Vec<char> {
    s.chars().collect::<Vec<char>>()
}

fn open_buffer(s: &str) -> Buffer {
    let mut buffer = Buffer::new();
    assert!(buffer.add_data(chars(s)).is_ok());
    buffer
}

fn scan(s: &str) -> Result<String, LexError> {
    let mut buffer = open_buffer(s);
    buffer.eof();
    scan_string_token(&mut buffer).map(|token| token.as_string())
}

#[test]
fn test_string_scan_valid_base_case() {
    let mut buffer = open_buffer("\"Hello world!\"");

    assert!(is_first_char_of_string(buffer.next_char().unwrap()));

    let res = scan_string_token(&mut buffer);

    assert!(res.is_ok());
    assert_eq!(res.unwrap().as_string(), "Hello world!");
}

#[test]
fn test_string_scan_valid_escaped_quote() {
    let mut buffer = open_buffer("\"The man said:\\\"you alright govna?\\\"\"");

    assert!(is_first_char_of_string(buffer.next_char().unwrap()));

    let res = scan_string_token(&mut buffer);

    assert!(res.is_ok());
    assert_eq!(res.unwrap().as_string(), "The man said:\"you alright govna?\"");
}

#[test]
fn test_string_scan_valid_escaped_hex_code() {
    let mut buffer = open_buffer("\"Hello \\u27bd do you like unicode?\"");

    assert!(is_first_char_of_string(buffer.next_char().unwrap()));

    let res = scan_string_token(&mut buffer);

    assert!(res.is_ok());
    assert_eq!(res.unwrap().as_string(), "Hello \u{27bd} do you like unicode?");
}

#[test]
fn test_string_scan_valid_escaped_backslash() {
    let mut buffer = open_buffer("\">>\\\\<<\"");

    assert!(is_first_char_of_string(buffer.next_char().unwrap()));

    let res = scan_string_token(&mut buffer);

    assert!(res.is_ok());
    assert_eq!(res.unwrap().as_string(), ">>\\<<");
}

#[test]
fn only_the_quote_starts_a_string() {
    assert!(is_first_char_of_string('"'));
    assert!(!is_first_char_of_string('\''));
    assert!(!is_first_char_of_string('a'));
}

#[test]
fn the_kinds_of_character() {
    assert_eq!(char_type('\\'), ScannedCharType::EscapedCharacter);
    assert_eq!(char_type('"'), ScannedCharType::StringEnd);
    assert_eq!(char_type('a'), ScannedCharType::NormalCharacter);
    assert_eq!(char_type('/'), ScannedCharType::NormalCharacter);
}

#[test]
fn each_simple_escape_stands_for_its_character() {
    assert_eq!(scan("\\\"\""), Ok("\"".to_string()));
    assert_eq!(scan("\\\\\""), Ok("\\".to_string()));
    assert_eq!(scan("\\/\""), Ok("/".to_string()));
    assert_eq!(scan("\\b\""), Ok("\u{0008}".to_string()));
    assert_eq!(scan("\\f\""), Ok("\u{000C}".to_string()));
    assert_eq!(scan("\\n\""), Ok("\n".to_string()));
    assert_eq!(scan("\\r\""), Ok("\r".to_string()));
    assert_eq!(scan("\\t\""), Ok("\t".to_string()));
    assert_eq!(scan("a\\tb\\nc\""), Ok("a\tb\nc".to_string()));

    assert_eq!(simple_escape('n'), Some('\n'));
    assert_eq!(simple_escape('b'), Some('\u{0008}'));
    assert_eq!(simple_escape('u'), None);
    assert_eq!(simple_escape('x'), None);
}

#[test]
fn other_escapes_are_invalid() {
    assert_eq!(scan("\\x41\""), Err(LexError::InvalidEscape));
    assert_eq!(scan("\\ \""), Err(LexError::InvalidEscape));
    assert_eq!(scan("\\U0041\""), Err(LexError::InvalidEscape));
    assert_eq!(scan("\\0\""), Err(LexError::InvalidEscape));
}

#[test]
fn unicode_escapes_take_four_hexadecimal_digits() {
    assert_eq!(scan("\\u0041\""), Ok("A".to_string()));
    assert_eq!(scan("\\u00e9\""), Ok("\u{e9}".to_string()));
    assert_eq!(scan("\\u00E9\""), Ok("\u{e9}".to_string()));
    assert_eq!(scan("\\uFFFF\""), Ok("\u{ffff}".to_string()));
    assert_eq!(scan("\\uffff\""), Ok("\u{ffff}".to_string()));
    assert_eq!(scan("\\u0000\""), Ok("\u{0}".to_string()));
    assert_eq!(scan("\\uD7FF\""), Ok("\u{d7ff}".to_string()));
    assert_eq!(scan("\\uE000\""), Ok("\u{e000}".to_string()));
    assert_eq!(scan("\\u12345\""), Ok("\u{1234}5".to_string()));
    assert_eq!(scan("\\u1a2B\""), Ok("\u{1a2b}".to_string()));

    assert_eq!(scan("\\u00g1\""), Err(LexError::InvalidEscape));
    assert_eq!(scan("\\u+041\""), Err(LexError::InvalidEscape));
    assert_eq!(scan("\\u41\""), Err(LexError::InvalidEscape));
    assert_eq!(scan("\\u004\""), Err(LexError::InvalidEscape));
}

#[test]
fn surrogates_are_invalid_escapes() {
    assert_eq!(scan("\\uD800\""), Err(LexError::InvalidEscape));
    assert_eq!(scan("\\uDFFF\""), Err(LexError::InvalidEscape));
    assert_eq!(scan("\\uD83D\\uDE00\""), Err(LexError::InvalidEscape));
}

#[test]
fn the_value_of_a_hexadecimal_digit() {
    assert_eq!(hex_value('0'), Some(0));
    assert_eq!(hex_value('9'), Some(9));
    assert_eq!(hex_value('a'), Some(10));
    assert_eq!(hex_value('f'), Some(15));
    assert_eq!(hex_value('A'), Some(10));
    assert_eq!(hex_value('F'), Some(15));
    assert_eq!(hex_value('g'), None);
    assert_eq!(hex_value('G'), None);
    assert_eq!(hex_value('/'), None);
    assert_eq!(hex_value(':'), None);
    assert_eq!(hex_value('@'), None);
    assert_eq!(hex_value('`'), None);
}

#[test]
fn the_scan_stops_behind_the_closing_quote() {
    let mut buffer = open_buffer("key\": 1");
    assert_eq!(scan_string_token(&mut buffer), Ok(StringToken::from("key")));
    assert_eq!(buffer.next_char(), Ok(':'));

    let mut buffer = open_buffer("\"rest");
    assert_eq!(scan_string_token(&mut buffer), Ok(StringToken::new()));
    assert_eq!(buffer.next_char(), Ok('r'));
}

#[test]
fn an_unterminated_string_gives_the_failure_of_the_buffer() {
    let mut buffer = open_buffer("abc");
    assert_eq!(scan_string_token(&mut buffer), Err(LexError::Buffer(BufferError::Pending)));

    assert_eq!(scan("abc"), Err(LexError::Buffer(BufferError::EndOfStream)));
    assert_eq!(scan("abc\\"), Err(LexError::Buffer(BufferError::EndOfStream)));
    assert_eq!(scan("abc\\u00"), Err(LexError::Buffer(BufferError::EndOfStream)));
    assert_eq!(scan(""), Err(LexError::Buffer(BufferError::EndOfStream)));
}

#[test]
fn a_string_may_arrive_in_pieces() {
    let mut buffer = Buffer::new();
    buffer.add_data(chars("a\\")).unwrap();
    buffer.add_data(chars("u0")).unwrap();
    buffer.add_data(chars("04")).unwrap();
    buffer.add_data(chars("2\\")).unwrap();
    buffer.add_data(chars("nc\"d")).unwrap();
    assert_eq!(scan_string_token(&mut buffer), Ok(StringToken::from("aB\nc")));
    assert_eq!(buffer.next_char(), Ok('d'));
}

#[test]
fn a_string_longer_than_the_limit_is_given_up() {
    let mut buffer = open_buffer("abc\"");
    assert_eq!(
        StringParsingState::with_max_length(3).scan(&mut buffer),
        Err(LexError::MaxLengthExceeded)
    );
    assert_eq!(buffer.next_char(), Ok('"'));

    let mut buffer = open_buffer("ab\"");
    assert_eq!(
        StringParsingState::with_max_length(3).scan(&mut buffer),
        Ok(StringToken::from("ab"))
    );

    let mut buffer = open_buffer("a\\u0042\"");
    assert_eq!(
        StringParsingState::with_max_length(2).scan(&mut buffer),
        Err(LexError::MaxLengthExceeded)
    );

    let mut buffer = open_buffer("\"");
    assert_eq!(
        StringParsingState::with_max_length(0).scan(&mut buffer),
        Err(LexError::MaxLengthExceeded)
    );
    assert_eq!(MAX_READ_LENGTH, 1073741824);
}

#[test]
fn a_string_is_decoded_one_character_at_a_time() {
    let mut state = StringParsingState::new();
    assert_eq!(state.scan_char('a'), CharScanResult::Continue);
    assert_eq!(state.scan_char('\\'), CharScanResult::Continue);
    assert_eq!(state.scan_char('"'), CharScanResult::Continue);
    assert_eq!(state.scan_char('\\'), CharScanResult::Continue);
    assert_eq!(state.scan_char('q'), CharScanResult::Failed(LexError::InvalidEscape));
    assert_eq!(state.scan_char('u'), CharScanResult::Continue);
    assert_eq!(state.scan_char('2'), CharScanResult::Continue);
    assert_eq!(state.scan_char('7'), CharScanResult::Continue);
    assert_eq!(state.scan_char('x'), CharScanResult::Failed(LexError::InvalidEscape));
    assert_eq!(state.scan_char('b'), CharScanResult::Continue);
    assert!(!state.is_exhausted());
    assert_eq!(state.scan_char('d'), CharScanResult::Continue);
    assert_eq!(state.scan_char('"'), CharScanResult::EndOfToken);

    let mut buffer = open_buffer("\"");
    assert_eq!(state.scan(&mut buffer), Ok(StringToken::from("a\"\u{27bd}")));
}
