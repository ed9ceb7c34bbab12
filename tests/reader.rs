use dkparse::span::Location;
use dkparse::{SpanningRead, SpanningReader};

fn rdr_for_string(s: &str) -> SpanningReader {
    SpanningReader::new(s)
}

#[test]
fn new_test() {
    let sr = rdr_for_string("test_one_line");

    assert_eq!(sr.location(), Location::new(1, 1));
    assert!(!sr.eof());
}

#[test]
fn new_test_empty() {
    let sr = rdr_for_string("");

    assert_eq!(sr.location(), Location::new(1, 1));
    assert!(sr.eof());
}

#[test]
fn test_eat_char() {
    let s = "foo\nbar\nbaz";
    let mut sr = rdr_for_string(s);
    for _ in 0..s.len() {
        assert!(!sr.eof());
        sr.eat_char();
    }
    assert!(sr.eof());
}

#[test]
fn test_peek_char() {
    let s = "foo\nbarf";
    let mut sr = rdr_for_string(s);

    assert_eq!(sr.peek_char(), Some('f'));
    assert_eq!(sr.peek_char(), Some('f'));
    assert_eq!(sr.peek_char(), Some('f'));
    sr.eat_char();
    assert_eq!(sr.peek_char(), Some('o'));
    assert_eq!(sr.peek_char(), Some('o'));

    for _ in sr.index()..s.len() {
        sr.eat_char();
    }

    assert_eq!(sr.peek_char(), None);
}

#[test]
fn test_next_char() {
    let s = "foo\nbarf";
    let mut sr = rdr_for_string(s);

    assert_eq!(sr.next_char(), Some('f'));
    assert_eq!(sr.next_char(), Some('o'));
    assert_eq!(sr.next_char(), Some('o'));
    assert_eq!(sr.next_char(), Some('\n'));
    assert_eq!(sr.next_char(), Some('b'));
    assert_eq!(sr.next_char(), Some('a'));
    assert_eq!(sr.next_char(), Some('r'));
    assert_eq!(sr.next_char(), Some('f'));
    assert_eq!(sr.next_char(), None);
}

#[test]
fn test_eof() {
    let mut sr = rdr_for_string("fo\nb");

    assert_eq!(sr.eof(), false);
    sr.eat_char();
    assert_eq!(sr.eof(), false);
    sr.eat_char();
    assert_eq!(sr.eof(), false);
    sr.eat_char();
    assert_eq!(sr.eof(), false);
    sr.eat_char();
    assert_eq!(sr.eof(), true);
}

#[test]
fn test_location() {
    let mut sr = rdr_for_string("foo\nba\nquux");

    assert_eq!(sr.location(), Location::new(1, 1));
    sr.eat_char();
    assert_eq!(sr.location(), Location::new(1, 2));
    sr.eat_char();
    assert_eq!(sr.location(), Location::new(1, 3));
    sr.eat_char();
    assert_eq!(sr.location(), Location::new(1, 4));
    sr.eat_char();
    assert_eq!(sr.location(), Location::new(2, 1));
    sr.eat_char();
    assert_eq!(sr.location(), Location::new(2, 2));
    sr.eat_char();
    assert_eq!(sr.location(), Location::new(2, 3));
    sr.eat_char();
    assert_eq!(sr.location(), Location::new(3, 1));
    sr.eat_char();
    assert_eq!(sr.location(), Location::new(3, 2));
    sr.eat_char();
    assert_eq!(sr.location(), Location::new(3, 3));
    sr.eat_char();
    assert_eq!(sr.location(), Location::new(3, 4));
    sr.eat_char();

    // Eating chars past the end shouldn't change the location.
    assert_eq!(sr.location(), Location::new(3, 5));
    sr.eat_char();
    assert_eq!(sr.location(), Location::new(3, 5));
    sr.eat_char();
}

#[test]
fn locations_never_decrease() {
    let s = "ab\n\ncd\ne";
    let mut sr = rdr_for_string(s);
    let mut prev = sr.location();
    for _ in 0..s.chars().count() {
        sr.eat_char();
        let here = sr.location();
        assert!(prev.precedes(&here));
        prev = here;
    }
    assert!(sr.eof());
    sr.eat_char();
    sr.eat_char();
    assert_eq!(sr.location(), prev);
}

#[test]
fn multibyte_characters_count_once() {
    let mut sr = rdr_for_string("é\nü");
    assert_eq!(sr.next_char(), Some('é'));
    assert_eq!(sr.location(), Location::new(1, 2));
    sr.eat_char();
    assert_eq!(sr.next_char(), Some('ü'));
    assert_eq!(sr.location(), Location::new(2, 2));
    assert!(sr.eof());
}
