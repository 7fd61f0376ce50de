use enact_core::ast::{BinaryOp, Expr};
use enact_core::lexer::Lexer;
use enact_core::parser::Parser;
use enact_core::value::Value;

fn parse(input: &str) -> Expr {
    let tokens = Lexer::new(input).tokenize().unwrap();
    Parser::new(tokens).parse().unwrap()
}

fn parse_err(input: &str) -> String {
    let tokens = Lexer::new(input).tokenize().unwrap();
    match Parser::new(tokens).parse() {
        Ok(_) => panic!("expected a syntax error"),
        Err(e) => e.to_string(),
    }
}

#[test]
fn test_literal() {
    match parse("'hello'") {
        Expr::Literal(Value::String(s)) => assert_eq!(s, "hello"),
        _ => panic!("expected string literal"),
    }
}

#[test]
fn test_property_chain() {
    let expr = parse("github.event.pull_request.head.ref");
    match &expr {
        Expr::Property(_, name) => assert_eq!(name, "ref"),
        _ => panic!("expected property"),
    }
}

#[test]
fn parser_test_function_call() {
    let expr = parse("contains(github.event, 'push')");
    match expr {
        Expr::FunctionCall(name, args) => {
            assert_eq!(name, "contains");
            assert_eq!(args.len(), 2);
        }
        _ => panic!("expected function call"),
    }
}

#[test]
fn test_binary_ops() {
    let expr = parse("a == 'b' && c != 'd'");
    match expr {
        Expr::BinaryOp(BinaryOp::And, _, _) => {}
        _ => panic!("expected AND"),
    }
}

#[test]
fn parser_test_negation() {
    let expr = parse("!failure()");
    match expr {
        Expr::Not(inner) => match *inner {
            Expr::FunctionCall(name, _) => assert_eq!(name, "failure"),
            _ => panic!("expected function call"),
        },
        _ => panic!("expected Not"),
    }
}

#[test]
fn test_wildcard() {
    let expr = parse("github.event.issue.labels.*.name");
    match expr {
        Expr::Property(inner, name) => {
            assert_eq!(name, "name");
            match *inner {
                Expr::Wildcard(_) => {}
                _ => panic!("expected wildcard"),
            }
        }
        _ => panic!("expected property"),
    }
}

#[test]
fn test_index_access() {
    let expr = parse("matrix['os']");
    match expr {
        Expr::Index(_, _) => {}
        _ => panic!("expected index"),
    }
}

#[test]
fn test_precedence() {
    let expr = parse("a || b && c");
    match expr {
        Expr::BinaryOp(BinaryOp::Or, _, right) => match *right {
            Expr::BinaryOp(BinaryOp::And, _, _) => {}
            _ => panic!("expected AND on right"),
        },
        _ => panic!("expected OR"),
    }
}

#[test]
fn test_parenthesized() {
    let expr = parse("(a || b) && c");
    match expr {
        Expr::BinaryOp(BinaryOp::And, left, _) => match *left {
            Expr::BinaryOp(BinaryOp::Or, _, _) => {}
            _ => panic!("expected OR on left"),
        },
        _ => panic!("expected AND"),
    }
}

#[test]
fn numeric_property_and_left_grouping() {
    match parse("steps.0") {
        Expr::Property(_, name) => assert_eq!(name, "0"),
        _ => panic!("expected property"),
    }
    match parse("a == b == c") {
        Expr::BinaryOp(BinaryOp::Eq, left, _) => match *left {
            Expr::BinaryOp(BinaryOp::Eq, _, _) => {}
            _ => panic!("expected left grouping"),
        },
        _ => panic!("expected Eq"),
    }
    match parse("f()") {
        Expr::FunctionCall(name, args) => {
            assert_eq!(name, "f");
            assert!(args.is_empty());
        }
        _ => panic!("expected call"),
    }
}

#[test]
fn syntax_errors_show_tokens() {
    assert_eq!(
        parse_err("(a"),
        "expression syntax error at position 2: expected RParen, got Eof"
    );
    assert_eq!(
        parse_err("a b"),
        "expression syntax error at position 1: unexpected token after expression"
    );
    assert_eq!(
        parse_err("a."),
        "expression syntax error at position 2: expected property name after '.'"
    );
    assert_eq!(
        parse_err(")"),
        "expression syntax error at position 0: unexpected token: RParen"
    );
    assert_eq!(
        parse_err("a[1"),
        "expression syntax error at position 3: expected RBracket, got Eof"
    );
    assert_eq!(
        parse_err("f('x' 'y')"),
        "expression syntax error at position 3: expected RParen, got StringLit(\"y\")"
    );
}
