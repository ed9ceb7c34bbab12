use dkparse::error::Error;
use dkparse::parser::{Arg, ArgTail, Bool, First, Ident, NumberConstant, Parser, StringConstant, Value, ValueTypes, Variable};
use dkparse::span::Location;
use dkparse::{SpanningRead, SpanningReader};

fn with_str(s: &str) -> Parser<SpanningReader> {
    let sr = SpanningReader::new(s);
    Parser::new(sr)
}

#[test]
fn test_string_parse() {
    let mut p = with_str("\"foo\"");
    let string_constant = p.parse_string_constant().unwrap();
    assert_eq!(string_constant.value, "foo");
}

#[test]
fn test_string_no_quotes() {
    // Missing lead quote.
    let mut p = with_str("foo\"");
    assert!(p.parse_string_constant().is_err());

    // Missing end quote
    let mut p = with_str("\"foo");
    assert!(p.parse_string_constant().is_err());
}

#[test]
fn parser_test_ident() {
    let tests = vec![
        "foo", "_bar", "fooBar", "FooBar", "_123", "_a321", "b456", "bar", "bamf", "UPPER",
        "_UPPER", "tru", "fals", "truee", "falsee", "true1", "false1",
    ];

    for test in tests {
        let mut p = with_str(test);
        let (ident, bool_constant) = p.parse_ident_or_bool().unwrap();
        assert_eq!(ident.unwrap().value, test);
        assert!(bool_constant.is_none());
    }
}

#[test]
fn test_leading_ident() {
    let tests = vec!["foo", "bar", "baz", "quux"];

    let mut p = with_str(&tests.join(" "));
    for test in tests {
        let (ident, bool_constant) = p.parse_ident_or_bool().unwrap();
        assert_eq!(ident.unwrap().value, test);
        assert!(bool_constant.is_none());

        // Skip the space.
        p.skip_white();
    }
}

#[test]
fn test_bad_ident() {
    let tests = vec![" foo", "123"];

    for test in tests {
        let mut p = with_str(test);
        let token = p.parse_ident_or_bool();
        assert!(token.is_err());
    }
}

#[test]
fn test_bool_ident() {
    let tests = vec![("true", true), ("false", false)];
    for test in tests {
        let mut p = with_str(test.0);
        let (ident, bool_constant) = p.parse_ident_or_bool().unwrap();
        assert!(ident.is_none());
        assert_eq!(bool_constant.unwrap().value, test.1);
    }
}

#[test]
fn test_number() {
    let tests = vec![
        ("123", 123_i32),
        ("1", 1),
        ("-323", -323),
        ("444for", 444),
        ("456 ", 456),
    ];
    for test in tests {
        let mut p = with_str(test.0);
        let number = p.parse_number_constant().unwrap();
        assert_eq!(number.value, test.1);
    }
}

#[test]
fn test_bad_number() {
    let tests = vec!["abc", " abc", " 123"];
    for test in tests {
        let mut p = with_str(test);
        let number = p.parse_number_constant();
        assert!(number.is_err())
    }
}

#[test]
fn test_skip_white() {
    let tests = vec![
        ("abc", Some('a')),
        (" abc", Some('a')),
        ("\tabc", Some('a')),
        ("\nabc", Some('a')),
        (" \t \n  abc", Some('a')),
        ("    ", None),
        ("", None),
    ];

    for test in tests {
        let mut p = with_str(test.0);
        p.skip_white();
        assert_eq!(p.sr.peek_char(), test.1);
    }
}

#[test]
fn test_value_number() {
    let mut p = with_str("123");
    let value = p.parse_value().unwrap();
    if let ValueTypes::NumberValue(n) = value.value() {
        assert_eq!(*n.value(), 123_i32);
    } else {
        panic!("Wrong variant: {:?}", value.value());
    }
}

#[test]
fn test_value_ident() {
    let mut p = with_str("foo");
    let value = p.parse_value().unwrap();
    if let ValueTypes::IdentValue(n) = value.value() {
        assert_eq!(*n.value(), "foo");
    } else {
        panic!("Wrong variant: {:?}", value.value());
    }
}

#[test]
fn test_value_string() {
    let mut p = with_str("\"quux\"");
    let value = p.parse_value().unwrap();
    if let ValueTypes::StringValue(s) = value.value() {
        assert_eq!(*s.value(), "quux");
    } else {
        panic!("Wrong variant: {:?}", value.value());
    }
}

#[test]
fn test_value_bool() {
    let mut p = with_str("true");
    let value = p.parse_value().unwrap();
    if let ValueTypes::BoolValue(b) = value.value() {
        assert_eq!(*b.value(), true);
    } else {
        panic!("Wrong variant: {:?}", value.value());
    }

    let mut p = with_str("false");
    let value = p.parse_value().unwrap();
    if let ValueTypes::BoolValue(b) = value.value() {
        assert_eq!(*b.value(), false);
    } else {
        panic!("Wrong variant: {:?}", value.value());
    }
}

#[test]
fn test_arg_tail() {
    let mut p = with_str("=\"foo\"");
    let tail = p.parse_arg_tail().unwrap();
    let value = tail.value();
    if let ValueTypes::StringValue(string_constant) = value.value() {
        assert_eq!(string_constant.value(), "foo");
    }

    let mut p = with_str("= 323");
    let tail = p.parse_arg_tail().unwrap();
    let value = tail.value();
    if let ValueTypes::NumberValue(number_constant) = value.value() {
        assert_eq!(*number_constant.value(), 323);
    }

    let mut p = with_str("= false");
    let tail = p.parse_arg_tail().unwrap();
    let value = tail.value();
    if let ValueTypes::BoolValue(bool_constant) = value.value() {
        assert_eq!(*bool_constant.value(), false);
    }
}

#[test]
fn test_arg() {
    let mut p = with_str("foo");
    let arg = p.parse_arg().unwrap();
    assert!(arg.ident.is_none());
    if let ValueTypes::IdentValue(ident) = arg.value.value() {
        assert_eq!(ident.value(), "foo");
    } else {
        panic!("Unexpected value type: {:?}", arg.value);
    }

    let mut p = with_str("\"bar\"");
    let arg = p.parse_arg().unwrap();
    assert!(arg.ident.is_none());
    if let ValueTypes::StringValue(string_constant) = arg.value.value() {
        assert_eq!(string_constant.value(), "bar");
    } else {
        panic!("Unexpected value type: {:?}", arg.value);
    }

    let mut p = with_str("foo = true");
    let arg = p.parse_arg().unwrap();
    assert_eq!(arg.ident.unwrap().value(), "foo");
    if let ValueTypes::BoolValue(b) = arg.value.value() {
        assert_eq!(*b.value(), true);
    } else {
        panic!("Unexpected value type: {:?}", arg.value);
    }
}

#[test]
fn test_args() {
    let mut p = with_str("a, b , c = 3");
    let args = p.parse_args().unwrap();
    assert_eq!(args.args.len(), 3);
    assert_eq!(args.args[0].value.ident_value().unwrap().value(), "a");
    assert_eq!(args.args[1].value.ident_value().unwrap().value(), "b");
    assert_eq!(args.args[2].ident.as_ref().unwrap().value(), "c");
    assert_eq!(*args.args[2].value.number_value().unwrap().value(), 3_i32);
}

#[test]
fn test_variable() {
    let mut p = with_str("foobar");
    let variable = p.parse_variable().unwrap();
    assert_eq!(*variable.ident.value(), "foobar")
}

#[test]
fn bool_only_on_exact_lowercase_match() {
    for (text, expected) in vec![("true", true), ("false", false)] {
        let mut p = with_str(text);
        let value = p.parse_value().unwrap();
        assert_eq!(*value.bool_value().unwrap().value(), expected);
        assert!(value.ident_value().is_err());
    }
    for text in vec!["True", "FALSE", "truee"] {
        let mut p = with_str(text);
        let value = p.parse_value().unwrap();
        assert_eq!(value.ident_value().unwrap().value(), text);
        assert!(matches!(value.bool_value(), Err(Error::WrongValueType)));
    }
}

#[test]
fn number_leaves_the_rest_unconsumed() {
    let mut p = with_str("444for");
    let number = p.parse_number_constant().unwrap();
    assert_eq!(number.value, 444);
    assert_eq!(p.sr.peek_char(), Some('f'));
    assert_eq!(number.span.start(), Location::new(1, 1));
    assert_eq!(number.span.end(), Location::new(1, 4));
    let (ident, _) = p.parse_ident_or_bool().unwrap();
    assert_eq!(ident.unwrap().value, "for");
}

#[test]
fn number_round_trips_at_the_extremes() {
    for n in vec![i32::MIN, -1, 0, 7, i32::MAX] {
        let text = format!("{}", n);
        let mut p = with_str(&text);
        assert_eq!(p.parse_number_constant().unwrap().value, n);
        assert!(p.sr.eof());
    }
}

#[test]
fn number_format_errors_carry_the_text() {
    for text in vec!["2147483648", "-2147483649", "99999999999999999999", "-"] {
        let mut p = with_str(text);
        match p.parse_number_constant() {
            Err(Error::NumberFormat { text: t, location }) => {
                assert_eq!(t, text);
                assert_eq!(location, Location::new(1, 1));
            }
            other => panic!("expected a number format error, got {:?}", other),
        }
    }
}

#[test]
fn args_ordering_positional_then_named() {
    let mut p = with_str("a, b, c = 3");
    let args = p.parse_args().unwrap();
    assert_eq!(args.args.len(), 3);
    assert!(args.args[0].ident.is_none());
    assert_eq!(args.args[0].value.ident_value().unwrap().value(), "a");
    assert!(args.args[1].ident.is_none());
    assert_eq!(args.args[1].value.ident_value().unwrap().value(), "b");
    assert_eq!(args.args[2].ident.as_ref().unwrap().value(), "c");
    assert_eq!(*args.args[2].value.number_value().unwrap().value(), 3);
    assert!(args.args[2].value.ident_value().is_err());
}

#[test]
fn named_arg_needs_an_identifier() {
    let mut p = with_str("5 = 6");
    match p.parse_arg() {
        Err(Error::ParseError { location, .. }) => assert_eq!(location, Location::new(1, 1)),
        other => panic!("expected a parse error, got {:?}", other),
    }
}

#[test]
fn reserved_word_is_no_variable() {
    let mut p = with_str("true");
    match p.parse_variable() {
        Err(Error::ParseError { location, .. }) => assert_eq!(location, Location::new(1, 1)),
        other => panic!("expected a parse error, got {:?}", other),
    }
}

#[test]
fn unterminated_string_fails_at_end() {
    let mut p = with_str("\"ab\ncd");
    match p.parse_string_constant() {
        Err(e) => assert_eq!(e.location(), Some(Location::new(2, 3))),
        Ok(s) => panic!("expected an error, got {:?}", s),
    }
}

#[test]
fn unexpected_character_in_value() {
    let mut p = with_str("  )");
    p.skip_white();
    match p.parse_value() {
        Err(Error::ParseError { location, .. }) => assert_eq!(location, Location::new(1, 3)),
        other => panic!("expected a parse error, got {:?}", other),
    }
    let mut p = with_str("");
    assert!(p.parse_value().is_err());
}

#[test]
fn unicode_whitespace_is_skipped() {
    let mut p = with_str("\u{a0}\u{2003}x");
    p.skip_white();
    assert_eq!(p.sr.peek_char(), Some('x'));
}

#[test]
fn value_spans_cover_the_token() {
    let mut p = with_str("ab\n \"xy\"");
    let v = p.parse_value().unwrap();
    assert_eq!(v.span().start(), Location::new(1, 1));
    assert_eq!(v.span().end(), Location::new(1, 3));
    p.skip_white();
    let s = p.parse_value().unwrap();
    assert_eq!(s.span().start(), Location::new(2, 2));
    assert_eq!(s.span().end(), Location::new(2, 6));
}

fn first_set_agrees<T: First>() -> usize {
    let set = T::first_set();
    for code in 0u32..0x300 {
        if let Some(c) = char::from_u32(code) {
            assert_eq!(set.contains(&c), T::in_first_set(c), "{:?}", c);
        }
    }
    set.len()
}

#[test]
fn first_sets_match_membership() {
    assert_eq!(first_set_agrees::<Ident>(), 53);
    assert_eq!(first_set_agrees::<Variable>(), 53);
    assert_eq!(first_set_agrees::<NumberConstant>(), 11);
    assert_eq!(first_set_agrees::<StringConstant>(), 1);
    assert_eq!(first_set_agrees::<Bool>(), 2);
    assert_eq!(first_set_agrees::<ArgTail>(), 1);
    assert_eq!(first_set_agrees::<Value>(), 65);
    assert_eq!(first_set_agrees::<Arg>(), 65);
}
