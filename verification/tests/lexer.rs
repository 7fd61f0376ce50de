use enact_core::lexer::{Lexer, Token};
use enact_core::number::parse_number_text;

fn tokenize(input: &str) -> Vec<Token> {
    Lexer::new(input).tokenize().unwrap()
}

fn num(t: &Token) -> f64 {
    match t {
        Token::NumberLit(n) => n.to_text().parse().unwrap(),
        other => panic!("expected a number, got {other:?}"),
    }
}

#[test]
fn test_simple_ident() {
    let tokens = tokenize("github.ref");
    assert_eq!(
        tokens,
        vec![
            Token::Ident("github".into()),
            Token::Dot,
            Token::Ident("ref".into()),
            Token::Eof
        ]
    );
}

#[test]
fn test_string_literal() {
    let tokens = tokenize("'hello world'");
    assert_eq!(tokens, vec![Token::StringLit("hello world".into()), Token::Eof]);
}

#[test]
fn test_escaped_quote() {
    let tokens = tokenize("'it''s'");
    assert_eq!(tokens, vec![Token::StringLit("it's".into()), Token::Eof]);
}

#[test]
fn test_comparison_operators() {
    let tokens = tokenize("a == b != c < d > e <= f >= g");
    assert!(tokens.contains(&Token::Eq));
    assert!(tokens.contains(&Token::Neq));
    assert!(tokens.contains(&Token::Lt));
    assert!(tokens.contains(&Token::Gt));
    assert!(tokens.contains(&Token::Lte));
    assert!(tokens.contains(&Token::Gte));
}

#[test]
fn test_logical_operators() {
    let tokens = tokenize("a && b || !c");
    assert!(tokens.contains(&Token::And));
    assert!(tokens.contains(&Token::Or));
    assert!(tokens.contains(&Token::Bang));
}

#[test]
fn test_number_literals() {
    let tokens = tokenize("42 1.2 0xFF -1 1e10");
    assert_eq!(num(&tokens[0]), 42.0);
    assert_eq!(num(&tokens[1]), 1.2);
    assert_eq!(num(&tokens[2]), 255.0);
    assert_eq!(num(&tokens[3]), -1.0);
    assert_eq!(num(&tokens[4]), 1e10);
}

#[test]
fn lexer_test_function_call() {
    let tokens = tokenize("contains(github.event, 'push')");
    assert_eq!(tokens[0], Token::Ident("contains".into()));
    assert_eq!(tokens[1], Token::LParen);
}

#[test]
fn test_wildcards_and_brackets() {
    let tokens = tokenize("labels.*.name");
    assert_eq!(
        tokens,
        vec![
            Token::Ident("labels".into()),
            Token::Dot,
            Token::Star,
            Token::Dot,
            Token::Ident("name".into()),
            Token::Eof,
        ]
    );
}

#[test]
fn lexer_errors_name_position_and_cause() {
    let err = Lexer::new("a = b").tokenize().unwrap_err();
    assert_eq!(
        err.to_string(),
        "expression syntax error at position 3: expected '==' but got single '='"
    );
    let err = Lexer::new("'open").tokenize().unwrap_err();
    assert_eq!(
        err.to_string(),
        "expression syntax error at position 6: unterminated string literal"
    );
    let err = Lexer::new("a # b").tokenize().unwrap_err();
    assert_eq!(
        err.to_string(),
        "expression syntax error at position 2: unexpected character: '#'"
    );
    let err = Lexer::new("1e").tokenize().unwrap_err();
    assert_eq!(err.to_string(), "expression syntax error at position 0: invalid number: 1e");
    let err = Lexer::new("0x").tokenize().unwrap_err();
    assert_eq!(err.to_string(), "expression syntax error at position 0: invalid hex number: 0x");
}

#[test]
fn keywords_and_identifiers_with_dashes() {
    let tokens = tokenize("true false null my-step_1");
    assert_eq!(
        tokens,
        vec![
            Token::True,
            Token::False,
            Token::Null,
            Token::Ident("my-step_1".into()),
            Token::Eof
        ]
    );
}

#[test]
fn number_literal_forms() {
    let tokens = tokenize("1.5e-3 0.25");
    assert_eq!(num(&tokens[0]), 0.0015);
    assert_eq!(num(&tokens[1]), 0.25);
    assert!(Lexer::new("-0x1").tokenize().is_err());
    assert_eq!(parse_number_text("12").to_text(), "12");
}
