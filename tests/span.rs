use dkparse::error::Error;
use dkparse::span::{Location, Span};

#[test]
fn new_location() {
    let l = Location::new(5, 32);
    assert_eq!(l.row(), 5);
    assert_eq!(l.col(), 32);
}

#[test]
fn new_span() {
    let start = Location::new(5, 12);
    let end = Location::new(6, 20);

    let s = Span::new(start, end).unwrap();
    assert_eq!(s.start().row(), 5);
    assert_eq!(s.start().col(), 12);
    assert_eq!(s.end().row(), 6);
    assert_eq!(s.end().col(), 20);
}

#[test]
fn new_span_inverted() {
    let start5 = Location::new(5, 12);
    let end5 = Location::new(5, 15);
    let end6 = Location::new(6, 10);

    assert!(Span::new(end5, start5.clone()).is_err());
    assert!(Span::new(end6, start5).is_err());
}

#[test]
fn next_location() {
    let mut location = Location::new(5, 5);

    location.next_col();
    assert_eq!(location.row(), 5);
    assert_eq!(location.col(), 6);

    location.next_col();
    assert_eq!(location.row(), 5);
    assert_eq!(location.col(), 7);

    location.next_row();
    assert_eq!(location.row(), 6);
    assert_eq!(location.col(), 1);

    location.next_row();
    assert_eq!(location.row(), 7);
    assert_eq!(location.col(), 1);

    location.next_col();
    assert_eq!(location.row(), 7);
    assert_eq!(location.col(), 2);

    location.next_col();
    assert_eq!(location.row(), 7);
    assert_eq!(location.col(), 3);

    location.next_row();
    assert_eq!(location.row(), 8);
    assert_eq!(location.col(), 1);
}

#[test]
fn span_equal_bounds_is_refused() {
    let l = Location::new(3, 4);
    match Span::new(l, l) {
        Err(Error::InvertedSpan { first, second }) => {
            assert_eq!(first, l);
            assert_eq!(second, l);
        }
        other => panic!("expected an inverted span, got {:?}", other),
    }
}

#[test]
fn span_same_row_ordered_by_column() {
    let s = Span::new(Location::new(2, 3), Location::new(2, 4)).unwrap();
    assert_eq!(s.start(), Location::new(2, 3));
    assert_eq!(s.end(), Location::new(2, 4));
    assert!(Span::new(Location::new(2, 4), Location::new(2, 3)).is_err());
}

#[test]
fn location_precedes() {
    assert!(Location::new(1, 9).precedes(&Location::new(2, 1)));
    assert!(!Location::new(2, 1).precedes(&Location::new(1, 9)));
    assert!(!Location::new(2, 1).precedes(&Location::new(2, 1)));
}
