use lexer::cursor::FutureStr;
use lexer::errors::SyntaxError;

#[test]
fn next_walks_the_characters() {
    let mut cur = FutureStr::from_str("a你b");
    assert_eq!(cur.next(), Some('a'));
    assert_eq!(cur.next(), Some('你'));
    assert_eq!(cur.next(), Some('b'));
    assert_eq!(cur.next(), None);
    assert_eq!(cur.next(), None);
}

#[test]
fn peek_does_not_consume() {
    let mut cur = FutureStr::from_str("xy");
    assert_eq!(cur.peek(), Some('x'));
    assert_eq!(cur.peek(), Some('x'));
    assert_eq!(cur.next(), Some('x'));
    assert_eq!(cur.peek(), Some('y'));
    assert_eq!(cur.next(), Some('y'));
    assert_eq!(cur.peek(), None);
}

#[test]
fn until_consumes_through_the_target() {
    let mut cur = FutureStr::from_str("abc\ndef");
    cur.until('\n');
    assert_eq!(cur.next(), Some('d'));
}

#[test]
fn until_stops_at_end_when_target_missing() {
    let mut cur = FutureStr::from_str("abc");
    cur.until('\n');
    assert_eq!(cur.next(), None);
}

#[test]
fn gen_error_carries_reason() {
    let cur = FutureStr::from_str("x");
    let e = cur.gen_error("broken string");
    assert_eq!(e.reason(), "broken string");
    assert_eq!(e.line(), 0);
}

#[test]
fn syntax_error_new_keeps_fields() {
    let e = SyntaxError::new(7, "unknown char");
    assert_eq!(e.line(), 7);
    assert_eq!(e.reason(), "unknown char");
}
