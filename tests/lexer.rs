use dkparse::lexer::{Lexer, LexicalError, Token};

#[test]
fn lexer_test_singles() {
    let singles = ",=()";
    let mut lexer = Lexer::new(singles);

    assert_eq!(lexer.next().unwrap().unwrap(), (0_usize, Token::Comma, 1_usize));
    assert_eq!(lexer.next().unwrap().unwrap(), (1_usize, Token::Eq, 2_usize));
    assert_eq!(lexer.next().unwrap().unwrap(), (2_usize, Token::LParen, 3_usize));
    assert_eq!(lexer.next().unwrap().unwrap(), (3_usize, Token::RParen, 4_usize));
    assert!(lexer.next().is_none());
}

#[test]
fn lexer_test_singles_with_spaces() {
    let singles = " , = ( ) ";
    let mut lexer = Lexer::new(singles);

    assert_eq!(lexer.next().unwrap().unwrap(), (1_usize, Token::Comma, 2_usize));
    assert_eq!(lexer.next().unwrap().unwrap(), (3_usize, Token::Eq, 4_usize));
    assert_eq!(lexer.next().unwrap().unwrap(), (5_usize, Token::LParen, 6_usize));
    assert_eq!(lexer.next().unwrap().unwrap(), (7_usize, Token::RParen, 8_usize));
}

#[test]
fn lexer_test_numbers() {
    let number = "345 -765 0 1 8888 0088-79 0000";
    let mut lexer = Lexer::new(number);

    assert_eq!(lexer.next().unwrap().unwrap(), (0_usize, Token::Number(345), 3_usize));
    assert_eq!(lexer.next().unwrap().unwrap(), (4_usize, Token::Number(-765), 8_usize));
    assert_eq!(lexer.next().unwrap().unwrap(), (9_usize, Token::Number(0), 10_usize));
    assert_eq!(lexer.next().unwrap().unwrap(), (11_usize, Token::Number(1), 12_usize));
    assert_eq!(lexer.next().unwrap().unwrap(), (13_usize, Token::Number(8888), 17_usize));
    assert_eq!(lexer.next().unwrap().unwrap(), (18_usize, Token::Number(88), 22_usize));
    assert_eq!(lexer.next().unwrap().unwrap(), (22_usize, Token::Number(-79), 25_usize));
    assert_eq!(lexer.next().unwrap().unwrap(), (26_usize, Token::Number(0), 30_usize));
    assert!(lexer.next().is_none());
}

#[test]
fn lexer_test_string() {
    let strings = r#""" "foo" "bar" "  " "" "close""strings""#;
    let mut lexer = Lexer::new(strings);

    assert_eq!(lexer.next().unwrap().unwrap(), (0_usize, Token::String("".into()), 2_usize));
    assert_eq!(lexer.next().unwrap().unwrap(), (3_usize, Token::String("foo".into()), 8_usize));
    assert_eq!(lexer.next().unwrap().unwrap(), (9_usize, Token::String("bar".into()), 14_usize));
    assert_eq!(lexer.next().unwrap().unwrap(), (15_usize, Token::String("  ".into()), 19_usize));
    assert_eq!(lexer.next().unwrap().unwrap(), (20_usize, Token::String("".into()), 22_usize));
    assert_eq!(lexer.next().unwrap().unwrap(), (23_usize, Token::String("close".into()), 30_usize));
    assert_eq!(lexer.next().unwrap().unwrap(), (30_usize, Token::String("strings".into()), 39_usize));
    assert!(lexer.next().is_none());
}

#[test]
fn lexer_test_ident() {
    let idents = "id _id Id ID _2id ____ _22_";
    let mut lexer = Lexer::new(idents);

    assert_eq!(lexer.next().unwrap().unwrap(), (0_usize, Token::Ident("id".to_string()), 2_usize));
    assert_eq!(lexer.next().unwrap().unwrap(), (3_usize, Token::Ident("_id".to_string()), 6_usize));
    assert_eq!(lexer.next().unwrap().unwrap(), (7_usize, Token::Ident("Id".to_string()), 9_usize));
    assert_eq!(lexer.next().unwrap().unwrap(), (10_usize, Token::Ident("ID".to_string()), 12_usize));
    assert_eq!(lexer.next().unwrap().unwrap(), (13_usize, Token::Ident("_2id".to_string()), 17_usize));
    assert_eq!(lexer.next().unwrap().unwrap(), (18_usize, Token::Ident("____".to_string()), 22_usize));
    assert_eq!(lexer.next().unwrap().unwrap(), (23_usize, Token::Ident("_22_".to_string()), 27_usize));
    assert!(lexer.next().is_none());
}

#[test]
fn lexer_test_specials() {
    let specials = "true false";
    let mut lexer = Lexer::new(specials);

    assert_eq!(lexer.next().unwrap().unwrap(), (0_usize, Token::True, 4_usize));
    assert_eq!(lexer.next().unwrap().unwrap(), (5_usize, Token::False, 10_usize));
}

#[test]
fn lexer_offsets_are_bytes() {
    let mut lexer = Lexer::new("é, ñu");
    assert_eq!(lexer.next().unwrap().unwrap(), (0_usize, Token::Ident("é".to_string()), 2_usize));
    assert_eq!(lexer.next().unwrap().unwrap(), (2_usize, Token::Comma, 3_usize));
    assert_eq!(lexer.next().unwrap().unwrap(), (4_usize, Token::Ident("ñu".to_string()), 7_usize));
    assert!(lexer.next().is_none());
}

#[test]
fn lexer_errors() {
    let mut lexer = Lexer::new("\"open");
    assert!(matches!(lexer.next(), Some(Err(LexicalError::UnexpectedEOF(_)))));

    let mut lexer = Lexer::new("3000000000");
    assert_eq!(
        lexer.next(),
        Some(Err(LexicalError::NumberFormat("3000000000".to_string())))
    );

    let mut lexer = Lexer::new("-");
    assert_eq!(lexer.next(), Some(Err(LexicalError::NumberFormat("-".to_string()))));

    let mut lexer = Lexer::new("  ;");
    assert_eq!(lexer.next(), Some(Err(LexicalError::UnexpectedCharacter(';'))));
}

#[test]
fn lexer_keywords_are_case_sensitive() {
    let mut lexer = Lexer::new("True falsey");
    assert_eq!(lexer.next().unwrap().unwrap(), (0_usize, Token::Ident("True".to_string()), 4_usize));
    assert_eq!(lexer.next().unwrap().unwrap(), (5_usize, Token::Ident("falsey".to_string()), 11_usize));
}

#[test]
fn lexer_words_continue_with_unicode_letters_and_digits() {
    let mut lexer = Lexer::new("x2é٣ y");
    assert_eq!(lexer.next().unwrap().unwrap(), (0_usize, Token::Ident("x2é٣".to_string()), 6_usize));
    assert_eq!(lexer.next().unwrap().unwrap(), (7_usize, Token::Ident("y".to_string()), 8_usize));
    assert!(lexer.next().is_none());
}

#[test]
fn token_text_forms() {
    assert_eq!(Token::Comma.to_text(), "','");
    assert_eq!(Token::Eq.to_text(), "'='");
    assert_eq!(Token::LParen.to_text(), "'('");
    assert_eq!(Token::RParen.to_text(), "')'");
    assert_eq!(Token::Ident("abc".to_string()).to_text(), "Ident[abc]");
    assert_eq!(Token::Number(-765).to_text(), "Number[-765]");
    assert_eq!(Token::Number(0).to_text(), "Number[0]");
    assert_eq!(Token::Number(i32::MIN).to_text(), "Number[-2147483648]");
    assert_eq!(Token::Number(i32::MAX).to_text(), "Number[2147483647]");
    assert_eq!(Token::String("a b".to_string()).to_text(), "String[a b]");
    assert_eq!(Token::Chart.to_text(), "Chart");
    assert_eq!(Token::True.to_text(), "True");
    assert_eq!(Token::False.to_text(), "False");
}
