use json_stream::buffer::{Buffer, BufferError};
use json_stream::error::LexError;
use json_stream::scanners::boolean::{is_first_char_of_boolean, scan_boolean_token};
use json_stream::scanners::literal::{scan_literal, Literal, LiteralParsingState};
use json_stream::scanners::null::{is_first_char_of_null, scan_null_token};

fn chars(s: &str) -> Vec<char> {
    s.chars().collect::<Vec<char>>()
}

fn open_buffer(s: &str) -> Buffer {
    let mut buffer = Buffer::new();
    assert!(buffer.add_data(chars(s)).is_ok());
    buffer
}

#[test]
fn test_first_char_boolean_true() {
    assert!(is_first_char_of_boolean('t'));
}

#[test]
fn test_first_char_boolean_false() {
    assert!(is_first_char_of_boolean('f'));
}

#[test]
fn test_first_char_boolean_invalid() {
    assert!(!is_first_char_of_boolean('q'));
}

#[test]
fn test_boolean_scan_true() {
    let mut buffer = open_buffer("true");
    assert!(is_first_char_of_boolean(buffer.next_char().unwrap()));
    assert!(scan_boolean_token('t', &mut buffer).unwrap());
}

#[test]
fn test_boolean_scan_false() {
    let mut buffer = open_buffer("false");
    assert!(is_first_char_of_boolean(buffer.next_char().unwrap()));
    assert!(!scan_boolean_token('f', &mut buffer).unwrap());
}

#[test]
fn test_boolean_scan_error() {
    let mut buffer = open_buffer("faulty");
    assert!(is_first_char_of_boolean(buffer.next_char().unwrap()));
    assert!(scan_boolean_token('f', &mut buffer).is_err());
}

#[test]
fn null_test_null_is_first_char_of_null_is_true() {
    assert!(is_first_char_of_null('n'));
    assert!(is_first_char_of_null("null".chars().next().unwrap()));
}

#[test]
fn test_null_is_invalid() {
    assert!(!is_first_char_of_null('u'));
}

#[test]
fn test_null_scan() {
    let mut buffer = open_buffer("null");
    assert!(is_first_char_of_null(buffer.next_char().unwrap()));
    assert!(scan_null_token(&mut buffer).is_ok());
}

#[test]
fn test_null_scan_failure() {
    let mut buffer = open_buffer("noob");
    assert!(is_first_char_of_null(buffer.next_char().unwrap()));
    assert!(scan_null_token(&mut buffer).is_err());
}

#[test]
fn test_null_scan_failure_2() {
    let mut buffer = open_buffer("nuLL");
    assert!(is_first_char_of_null(buffer.next_char().unwrap()));
    assert!(scan_null_token(&mut buffer).is_err());
}

#[test]
fn a_deviation_names_the_expected_and_the_actual_character() {
    let mut buffer = open_buffer("oob");
    assert_eq!(
        scan_null_token(&mut buffer),
        Err(LexError::InvalidLiteral { expected: 'u', actual: Some('o') })
    );
    assert_eq!(buffer.next_char(), Ok('o'));

    let mut buffer = open_buffer("uLL");
    assert_eq!(
        scan_null_token(&mut buffer),
        Err(LexError::InvalidLiteral { expected: 'l', actual: Some('L') })
    );
    assert_eq!(buffer.next_char(), Ok('L'));

    let mut buffer = open_buffer("aulty");
    assert_eq!(
        scan_boolean_token('f', &mut buffer),
        Err(LexError::InvalidLiteral { expected: 'l', actual: Some('u') })
    );

    let mut buffer = open_buffer("rux");
    assert_eq!(
        scan_boolean_token('t', &mut buffer),
        Err(LexError::InvalidLiteral { expected: 'e', actual: Some('x') })
    );
}

#[test]
fn a_literal_leaves_what_follows_it() {
    let mut buffer = open_buffer("ull,1");
    assert_eq!(scan_null_token(&mut buffer), Ok(()));
    assert_eq!(buffer.next_char(), Ok(','));

    let mut buffer = open_buffer("alse]");
    assert_eq!(scan_boolean_token('f', &mut buffer), Ok(false));
    assert_eq!(buffer.next_char(), Ok(']'));

    let mut buffer = open_buffer("rue}");
    assert_eq!(scan_boolean_token('t', &mut buffer), Ok(true));
    assert_eq!(buffer.next_char(), Ok('}'));
}

#[test]
fn a_boolean_that_starts_with_another_character_is_no_literal() {
    let mut buffer = open_buffer("rue");
    assert_eq!(
        scan_boolean_token('x', &mut buffer),
        Err(LexError::InvalidLiteral { expected: 't', actual: Some('x') })
    );
    assert_eq!(buffer.next_char(), Ok('r'));
}

#[test]
fn a_stream_that_ends_inside_a_literal_is_an_invalid_literal() {
    let mut buffer = open_buffer("ul");
    buffer.eof();
    assert_eq!(
        scan_null_token(&mut buffer),
        Err(LexError::InvalidLiteral { expected: 'l', actual: None })
    );
}

#[test]
fn an_open_buffer_that_runs_dry_inside_a_literal_is_pending() {
    let mut buffer = open_buffer("ru");
    assert_eq!(
        scan_boolean_token('t', &mut buffer),
        Err(LexError::Buffer(BufferError::Pending))
    );
}

#[test]
fn a_literal_can_be_matched_character_by_character() {
    let mut state = LiteralParsingState::new(Literal::False);
    assert!(!state.is_complete());
    assert_eq!(state.expected_char(), 'a');
    assert_eq!(state.scan_char('a'), None);
    assert_eq!(state.scan_char('l'), None);
    assert_eq!(
        state.scan_char('x'),
        Some(LexError::InvalidLiteral { expected: 's', actual: Some('x') })
    );
    assert_eq!(state.scan_char('s'), None);
    assert!(!state.is_complete());
    assert_eq!(state.scan_char('e'), None);
    assert!(state.is_complete());

    assert_eq!(Literal::Null.tail_len(), 3);
    assert_eq!(Literal::True.tail_len(), 3);
    assert_eq!(Literal::False.tail_len(), 4);
    assert_eq!(Literal::True.tail_char(0), 'r');
    assert_eq!(Literal::True.tail_char(1), 'u');
    assert_eq!(Literal::True.tail_char(2), 'e');
    assert_eq!(Literal::Null.tail_char(0), 'u');
    assert_eq!(Literal::Null.tail_char(2), 'l');
}

#[test]
fn a_literal_may_arrive_in_pieces() {
    let mut buffer = Buffer::new();
    buffer.add_data(chars("r")).unwrap();
    buffer.add_data(chars("u")).unwrap();
    buffer.add_data(chars("e!")).unwrap();
    assert_eq!(scan_literal(Literal::True, &mut buffer), Ok(()));
    assert_eq!(buffer.next_char(), Ok('!'));
}
