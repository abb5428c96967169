use json_stream::buffer::{Buffer, BufferError};

fn chars(s: &str) -> Vec<char> {
    s.chars().collect::<Vec<char>>()
}

#[test]
fn test_cannot_add_data_after_eof() {
    let mut buffer = Buffer::new();
    buffer.eof();

    let err = buffer.add_data(Vec::new());
    assert!(err.is_err(), "Should be in an error state");
}

#[test]
fn test_next_char_single_buffer_long() {
    let mut buffer = Buffer::new();
    buffer.add_data(vec!['h', 'e', 'l', 'l', 'o']).unwrap();

    let c1 = buffer.next_char().unwrap();
    assert_eq!(c1, 'h');

    let c2 = buffer.next_char().unwrap();
    assert_eq!(c2, 'e');
}

#[test]
fn test_next_char_single_with_replacement() {
    let mut buffer = Buffer::new();
    buffer.add_data(vec!['h', 'e', 'l', 'l', 'o']).unwrap();

    let c1 = buffer.next_char().unwrap();
    assert_eq!(c1, 'h');

    let c2 = buffer.next_char().unwrap();
    assert_eq!(c2, 'e');

    buffer.replace_char('e');

    let c3 = buffer.next_char().unwrap();
    assert_eq!(c3, 'e');

    let c4 = buffer.next_char().unwrap();
    assert_eq!(c4, 'l');
}

#[test]
fn test_next_char_many_buffers() {
    let mut buffer = Buffer::new();
    buffer.add_data(vec!['h']).unwrap();

    buffer.add_data(vec!['e']).unwrap();

    let c1 = buffer.next_char().unwrap();
    assert_eq!(c1, 'h');

    let c2 = buffer.next_char().unwrap();
    assert_eq!(c2, 'e');
}

#[test]
fn test_next_char_after_eof_errors() {
    let mut buffer = Buffer::new();
    buffer.add_data(vec!['h']).unwrap();

    buffer.add_data(vec!['e']).unwrap();

    let c1 = buffer.next_char().unwrap();
    assert_eq!(c1, 'h');

    let c2 = buffer.next_char().unwrap();
    assert_eq!(c2, 'e');

    buffer.eof();

    assert!(buffer.next_char().is_err());
}

#[test]
fn test_next_char_after_eof_errors_with_a_queue() {
    let mut buffer = Buffer::new();
    buffer.add_data(vec!['h']).unwrap();
    buffer.add_data(vec!['e']).unwrap();
    buffer.eof();

    let c1 = buffer.next_char().unwrap();
    assert_eq!(c1, 'h');

    let c2 = buffer.next_char().unwrap();
    assert_eq!(c2, 'e');

    assert!(buffer.next_char().is_err());
}

#[test]
fn test_next_char_after_eof_errors_with_no_data() {
    let mut buffer = Buffer::new();
    buffer.eof();
    assert!(buffer.next_char().is_err());
}

#[test]
fn test_replacement_empty_queue() {
    let mut buffer = Buffer::new();

    buffer.replace_char('a');

    let c1 = buffer.next_char();
    assert_eq!(c1.unwrap(), 'a');
}

#[test]
fn add_data_after_eof_reports_closed_and_keeps_the_queue() {
    let mut buffer = Buffer::new();
    buffer.add_data(chars("ab")).unwrap();
    buffer.eof();

    assert_eq!(buffer.add_data(chars("cd")), Err(BufferError::Closed));

    assert_eq!(buffer.next_char(), Ok('a'));
    assert_eq!(buffer.next_char(), Ok('b'));
    assert_eq!(buffer.next_char(), Err(BufferError::EndOfStream));
}

#[test]
fn eof_twice_is_harmless() {
    let mut buffer = Buffer::new();
    buffer.add_data(chars("x")).unwrap();
    buffer.eof();
    buffer.eof();

    assert_eq!(buffer.next_char(), Ok('x'));
    assert_eq!(buffer.next_char(), Err(BufferError::EndOfStream));
    assert_eq!(buffer.next_char(), Err(BufferError::EndOfStream));
}

#[test]
fn reading_reproduces_the_chunks_in_order() {
    let chunks = ["{\"a\"", "", ": [1, ", "2", "", "]}"];
    let mut buffer = Buffer::new();
    for chunk in chunks.iter() {
        buffer.add_data(chars(chunk)).unwrap();
    }
    buffer.eof();

    let mut read = String::new();
    loop {
        match buffer.next_char() {
            Ok(c) => read.push(c),
            Err(e) => {
                assert_eq!(e, BufferError::EndOfStream);
                break;
            }
        }
    }
    assert_eq!(read, chunks.concat());
    assert_eq!(buffer.next_char(), Err(BufferError::EndOfStream));
}

#[test]
fn an_open_buffer_that_ran_dry_is_pending() {
    let mut buffer = Buffer::new();
    assert_eq!(buffer.next_char(), Err(BufferError::Pending));

    buffer.add_data(chars("a")).unwrap();
    assert_eq!(buffer.next_char(), Ok('a'));
    assert_eq!(buffer.next_char(), Err(BufferError::Pending));

    buffer.add_data(chars("b")).unwrap();
    assert_eq!(buffer.next_char(), Ok('b'));

    buffer.eof();
    assert_eq!(buffer.next_char(), Err(BufferError::EndOfStream));
}

#[test]
fn empty_chunks_are_passed_over() {
    let mut buffer = Buffer::new();
    buffer.add_data(Vec::new()).unwrap();
    assert_eq!(buffer.next_char(), Err(BufferError::Pending));
    buffer.add_data(chars("a")).unwrap();
    buffer.add_data(Vec::new()).unwrap();
    buffer.add_data(chars("b")).unwrap();
    assert_eq!(buffer.next_char(), Ok('a'));
    assert_eq!(buffer.next_char(), Ok('b'));
    assert_eq!(buffer.next_char(), Err(BufferError::Pending));
}

#[test]
fn pushback_then_next_returns_the_character() {
    let mut buffer = Buffer::new();
    buffer.add_data(chars("ab")).unwrap();
    buffer.add_data(chars("cd")).unwrap();

    assert_eq!(buffer.next_char(), Ok('a'));
    assert_eq!(buffer.next_char(), Ok('b'));
    buffer.replace_char('b');
    assert_eq!(buffer.next_char(), Ok('b'));
    assert_eq!(buffer.next_char(), Ok('c'));
    buffer.replace_char('x');
    assert_eq!(buffer.next_char(), Ok('x'));
    assert_eq!(buffer.next_char(), Ok('d'));
    assert_eq!(buffer.next_char(), Err(BufferError::Pending));
}

#[test]
fn pushback_is_allowed_after_eof() {
    let mut buffer = Buffer::new();
    buffer.add_data(chars(",")).unwrap();
    buffer.eof();

    assert_eq!(buffer.next_char(), Ok(','));
    assert_eq!(buffer.next_char(), Err(BufferError::EndOfStream));
    buffer.replace_char(',');
    assert_eq!(buffer.next_char(), Ok(','));
    assert_eq!(buffer.next_char(), Err(BufferError::EndOfStream));
}

#[test]
fn pushback_comes_before_queued_chunks() {
    let mut buffer = Buffer::new();
    buffer.replace_char('z');
    buffer.add_data(chars("ab")).unwrap();
    assert_eq!(buffer.next_char(), Ok('z'));
    assert_eq!(buffer.next_char(), Ok('a'));
    assert_eq!(buffer.next_char(), Ok('b'));
}
