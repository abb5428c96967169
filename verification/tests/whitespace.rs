use json_stream::tokens::whitespace_token::is_whitespace;

#[test]
fn test_is_whitespace_not_whitespace_is_false() {
    assert_eq!(is_whitespace('0'), false);
    assert_eq!(is_whitespace('n'), false);
    assert_eq!(is_whitespace('t'), false);
    assert_eq!(is_whitespace('a'), false);
    assert_eq!(is_whitespace('{'), false);
    assert_eq!(is_whitespace('['), false);
    assert_eq!(is_whitespace('"'), false);
    assert_eq!(is_whitespace(':'), false);
    assert_eq!(is_whitespace(','), false);
}

#[test]
fn the_four_whitespace_characters() {
    assert!(is_whitespace('\n'));
    assert!(is_whitespace('\r'));
    assert!(is_whitespace('\t'));
    assert!(is_whitespace(' '));
    assert!(!is_whitespace('\u{000C}'));
    assert!(!is_whitespace('\u{00A0}'));
}
