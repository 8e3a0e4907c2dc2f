use minilog::lexer::{tokenize, try_tokenize, LexError, Token};

fn s(text: &str) -> String {
    text.to_string()
}

#[test]
fn tokenizes_a_fact() {
    assert_eq!(
        tokenize(s("user(\"marcelle\", 26).")),
        vec![
            Token::Id(s("user")),
            Token::OpenParen,
            Token::Str(s("marcelle")),
            Token::Comma,
            Token::Int(26),
            Token::CloseParen,
            Token::Dot,
        ]
    );
}

#[test]
fn tokenizes_a_rule() {
    assert_eq!(
        tokenize(s("pos(?x) :- ?x <= 3,\n ?x >= 1.")),
        vec![
            Token::Id(s("pos")),
            Token::OpenParen,
            Token::Variable(s("x")),
            Token::CloseParen,
            Token::BackArrow,
            Token::Variable(s("x")),
            Token::LessThanEqual,
            Token::Int(3),
            Token::Comma,
            Token::Variable(s("x")),
            Token::GreaterThanEqual,
            Token::Int(1),
            Token::Dot,
        ]
    );
}

#[test]
fn tokenizes_every_punctuation() {
    assert_eq!(
        try_tokenize("()[],._=<><=>=:-"),
        Ok(vec![
            Token::OpenParen,
            Token::CloseParen,
            Token::OpenSqBrace,
            Token::CloseSqBrace,
            Token::Comma,
            Token::Dot,
            Token::Underscore,
            Token::Eq,
            Token::LessThan,
            Token::GreaterThan,
            Token::LessThanEqual,
            Token::GreaterThanEqual,
            Token::BackArrow,
        ])
    );
}

#[test]
fn identifier_runs_over_letters_digits_and_underscores() {
    assert_eq!(try_tokenize("a_b2c d"), Ok(vec![Token::Id(s("a_b2c")), Token::Id(s("d"))]));
    assert_eq!(try_tokenize("_x"), Ok(vec![Token::Underscore, Token::Id(s("x"))]));
    assert_eq!(try_tokenize("caf\u{e9}2("), Ok(vec![Token::Id(s("caf\u{e9}2")), Token::OpenParen]));
}

#[test]
fn variable_name_stops_at_an_underscore() {
    assert_eq!(
        try_tokenize("?ab1_c"),
        Ok(vec![Token::Variable(s("ab1")), Token::Underscore, Token::Id(s("c"))])
    );
    assert_eq!(try_tokenize("?"), Ok(vec![Token::Variable(s(""))]));
    assert_eq!(try_tokenize("?\u{e9}t\u{e9} "), Ok(vec![Token::Variable(s("\u{e9}t\u{e9}"))]));
}

#[test]
fn string_keeps_every_character_between_its_quotes() {
    assert_eq!(try_tokenize("\"a b,\n(\u{e9})\" x"), Ok(vec![Token::Str(s("a b,\n(\u{e9})")), Token::Id(s("x"))]));
    assert_eq!(try_tokenize("\"\""), Ok(vec![Token::Str(s(""))]));
}

#[test]
fn integer_is_read_in_base_ten() {
    assert_eq!(try_tokenize("0 007 1234567890"), Ok(vec![Token::Int(0), Token::Int(7), Token::Int(1234567890)]));
    assert_eq!(try_tokenize("12ab"), Ok(vec![Token::Int(12), Token::Id(s("ab"))]));
    let max = format!("{}", usize::MAX);
    assert_eq!(try_tokenize(&max), Ok(vec![Token::Int(usize::MAX)]));
}

#[test]
fn integer_above_the_maximum_is_an_error() {
    let text = format!("{}0", usize::MAX);
    assert_eq!(try_tokenize(&text), Err(LexError::IntegerOutOfRange));
    assert_eq!(try_tokenize("340282366920938463463374607431768211456"), Err(LexError::IntegerOutOfRange));
}

#[test]
fn unterminated_string_is_an_error() {
    assert_eq!(try_tokenize("f(\"abc"), Err(LexError::UnterminatedString));
    assert_eq!(try_tokenize("\""), Err(LexError::UnterminatedString));
}

#[test]
fn unrecognized_character_is_an_error() {
    assert_eq!(try_tokenize("f(1) ; g(2)"), Err(LexError::UnrecognizedCharacter));
    assert_eq!(try_tokenize("a\tb"), Err(LexError::UnrecognizedCharacter));
    assert_eq!(try_tokenize(":"), Err(LexError::UnrecognizedCharacter));
    assert_eq!(try_tokenize(": -"), Err(LexError::UnrecognizedCharacter));
    assert_eq!(try_tokenize("\u{e9}"), Err(LexError::UnrecognizedCharacter));
    assert_eq!(try_tokenize("1\u{b2}"), Err(LexError::UnrecognizedCharacter));
}

#[test]
fn empty_and_blank_texts_have_no_tokens() {
    assert_eq!(try_tokenize(""), Ok(vec![]));
    assert_eq!(try_tokenize(" \n \n"), Ok(vec![]));
}

#[test]
fn accessors_tell_the_variants_apart() {
    assert_eq!(Token::Id(s("a")).as_id(), Some(s("a")));
    assert_eq!(Token::Str(s("a")).as_id(), None);
    assert_eq!(Token::Str(s("a")).as_str(), Some(s("a")));
    assert_eq!(Token::Variable(s("a")).as_str(), None);
    assert_eq!(Token::Variable(s("a")).as_variable(), Some(s("a")));
    assert_eq!(Token::Id(s("a")).as_variable(), None);
    assert_eq!(Token::Int(4).as_int(), Some(4));
    assert_eq!(Token::Dot.as_int(), None);
    assert_eq!(Token::Eq.as_eq(), Some(()));
    assert_eq!(Token::Dot.as_eq(), None);
    assert_eq!(Token::GreaterThan.as_greater_than(), Some(()));
    assert_eq!(Token::GreaterThanEqual.as_greater_than(), None);
    assert_eq!(Token::LessThan.as_less_than(), Some(()));
    assert_eq!(Token::LessThanEqual.as_less_than(), None);
    assert_eq!(Token::GreaterThanEqual.as_greater_than_equal(), Some(()));
    assert_eq!(Token::GreaterThan.as_greater_than_equal(), None);
    assert_eq!(Token::LessThanEqual.as_less_than_equal(), Some(()));
    assert_eq!(Token::LessThan.as_less_than_equal(), None);
    assert_eq!(Token::OpenSqBrace.as_open_square_brace(), Some(()));
    assert_eq!(Token::CloseSqBrace.as_open_square_brace(), None);
    assert_eq!(Token::CloseSqBrace.as_close_square_brace(), Some(()));
    assert_eq!(Token::OpenSqBrace.as_close_square_brace(), None);
    assert_eq!(Token::Comma.as_comma(), Some(()));
    assert_eq!(Token::Dot.as_comma(), None);
    assert_eq!(Token::OpenParen.as_open_paren(), Some(()));
    assert_eq!(Token::CloseParen.as_open_paren(), None);
    assert_eq!(Token::CloseParen.as_close_paren(), Some(()));
    assert_eq!(Token::OpenParen.as_close_paren(), None);
    assert_eq!(Token::Dot.as_dot(), Some(()));
    assert_eq!(Token::Comma.as_dot(), None);
    assert_eq!(Token::BackArrow.as_back_arrow(), Some(()));
    assert_eq!(Token::Dot.as_back_arrow(), None);
    assert_eq!(Token::Underscore.as_underscore(), Some(()));
    assert_eq!(Token::Dot.as_underscore(), None);
}
