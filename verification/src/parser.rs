//! The recursive-descent parser of expressions.
//!
//! Precedence, loosest first: `||`, `&&`, `==` `!=`, `<` `>` `<=` `>=`,
//! unary `!`, postfix `.name` `.*` `[index]`, atoms (literals, names,
//! function calls, parenthesized expressions).  Binary operators group to
//! the left.
use crate::ast::{BinaryOp, Expr, SpecExpr};
use crate::error::{Error, SpecError};
use crate::lexer::{SpecToken, Token, syntax_error, tokens_view};
use crate::number::{debug_number_text, index_text};
use crate::text::{debug_quoted, debug_str, push_str};
use crate::value::{SpecValue, Value};
use vstd::prelude::*;

verus! {

/// The token at `p`; `Eof` past the end.
pub open spec fn tok(ts: Seq<SpecToken>, p: int) -> SpecToken {
    if 0 <= p < ts.len() {
        ts[p]
    } else {
        SpecToken::Eof
    }
}

/// The debug text of a token (`{:?}`), as error messages show it.
pub open spec fn token_text(t: SpecToken) -> Seq<char> {
    match t {
        SpecToken::StringLit(s) => "StringLit("@ + debug_quoted(s) + ")"@,
        SpecToken::NumberLit(n) => "NumberLit("@ + debug_number_text(n) + ")"@,
        SpecToken::True => "True"@,
        SpecToken::False => "False"@,
        SpecToken::Null => "Null"@,
        SpecToken::Ident(s) => "Ident("@ + debug_quoted(s) + ")"@,
        SpecToken::Eq => "Eq"@,
        SpecToken::Neq => "Neq"@,
        SpecToken::Lt => "Lt"@,
        SpecToken::Gt => "Gt"@,
        SpecToken::Lte => "Lte"@,
        SpecToken::Gte => "Gte"@,
        SpecToken::And => "And"@,
        SpecToken::Or => "Or"@,
        SpecToken::Bang => "Bang"@,
        SpecToken::Dot => "Dot"@,
        SpecToken::Comma => "Comma"@,
        SpecToken::LParen => "LParen"@,
        SpecToken::RParen => "RParen"@,
        SpecToken::LBracket => "LBracket"@,
        SpecToken::RBracket => "RBracket"@,
        SpecToken::Star => "Star"@,
        SpecToken::Eof => "Eof"@,
    }
}

/// A parse result: the expression and the position after it.
pub type ParseResult = Result<(SpecExpr, int), SpecError>;

/// The error of a missing closing token.
pub open spec fn expect_error(ts: Seq<SpecToken>, p: int, expected: Seq<char>) -> SpecError {
    syntax_error(p, "expected "@ + expected + ", got "@ + token_text(tok(ts, p)))
}

/// The error of a position outside the tokens.
pub open spec fn out_of_range(p: int) -> SpecError {
    syntax_error(p, "unexpected token: Eof"@)
}

/// The binary operator of a token at the given level, if it is one.
pub open spec fn level_op(level: int, t: SpecToken) -> Option<BinaryOp> {
    if level == 0 {
        if t is Or {
            Some(BinaryOp::Or)
        } else {
            None
        }
    } else if level == 1 {
        if t is And {
            Some(BinaryOp::And)
        } else {
            None
        }
    } else if level == 2 {
        if t is Eq {
            Some(BinaryOp::Eq)
        } else if t is Neq {
            Some(BinaryOp::Neq)
        } else {
            None
        }
    } else {
        if t is Lt {
            Some(BinaryOp::Lt)
        } else if t is Gt {
            Some(BinaryOp::Gt)
        } else if t is Lte {
            Some(BinaryOp::Lte)
        } else if t is Gte {
            Some(BinaryOp::Gte)
        } else {
            None
        }
    }
}

/// The expression at binary level `level` (0 `||`, 1 `&&`, 2 equality,
/// 3 comparison) starting at `p`: operands of the next level joined by the
/// level's operators, grouped to the left.
pub open spec fn p_level(ts: Seq<SpecToken>, level: int, p: int) -> ParseResult
    decreases ts.len() + 1 - p, 20 - 2 * level,
{
    if p < 0 || p > ts.len() || level < 0 || level > 3 {
        Err(out_of_range(p))
    } else {
        match p_operand(ts, level, p) {
            Err(e) => Err(e),
            Ok((l, q)) => if p < q <= ts.len() {
                p_level_tail(ts, level, l, q)
            } else {
                Ok((l, q))
            },
        }
    }
}

/// An operand of binary level `level`: an expression of the next level,
/// or a unary expression below the comparisons.
pub open spec fn p_operand(ts: Seq<SpecToken>, level: int, p: int) -> ParseResult
    decreases ts.len() + 1 - p, 19 - 2 * level,
{
    if p < 0 || p > ts.len() || level < 0 || level > 3 {
        Err(out_of_range(p))
    } else if level < 3 {
        p_level(ts, level + 1, p)
    } else {
        p_unary(ts, p)
    }
}

/// The rest of binary level `level` after the expression `l`, from `p`.
pub open spec fn p_level_tail(ts: Seq<SpecToken>, level: int, l: SpecExpr, p: int) -> ParseResult
    decreases ts.len() + 1 - p, 20 - 2 * level,
{
    if p < 0 || p > ts.len() || level < 0 || level > 3 {
        Err(out_of_range(p))
    } else {
        match level_op(level, tok(ts, p)) {
            None => Ok((l, p)),
            Some(op) => match p_operand(ts, level, p + 1) {
                Err(e) => Err(e),
                Ok((r, q)) => {
                    let e = SpecExpr::BinaryOp(op, Box::new(l), Box::new(r));
                    if p < q <= ts.len() {
                        p_level_tail(ts, level, e, q)
                    } else {
                        Ok((e, q))
                    }
                },
            },
        }
    }
}

/// A unary expression: `!` before a unary expression, or a postfix one.
pub open spec fn p_unary(ts: Seq<SpecToken>, p: int) -> ParseResult
    decreases ts.len() + 1 - p, 12int,
{
    if p < 0 || p > ts.len() {
        Err(out_of_range(p))
    } else if tok(ts, p) is Bang {
        match p_unary(ts, p + 1) {
            Err(e) => Err(e),
            Ok((e, q)) => Ok((SpecExpr::Not(Box::new(e)), q)),
        }
    } else {
        p_postfix(ts, p)
    }
}

/// A postfix expression: an atom followed by property, wildcard and index
/// accesses.
pub open spec fn p_postfix(ts: Seq<SpecToken>, p: int) -> ParseResult
    decreases ts.len() + 1 - p, 11int,
{
    if p < 0 || p > ts.len() {
        Err(out_of_range(p))
    } else {
        match p_atom(ts, p) {
            Err(e) => Err(e),
            Ok((e, q)) => if p < q <= ts.len() {
                p_postfix_tail(ts, e, q)
            } else {
                Ok((e, q))
            },
        }
    }
}

/// The accesses after the expression `e`, from `p`.
pub open spec fn p_postfix_tail(ts: Seq<SpecToken>, e: SpecExpr, p: int) -> ParseResult
    decreases ts.len() + 1 - p, 11int,
{
    if p < 0 || p > ts.len() {
        Err(out_of_range(p))
    } else if tok(ts, p) is Dot {
        let next = if p + 2 <= ts.len() {
            p + 2
        } else {
            ts.len() as int
        };
        match tok(ts, p + 1) {
            SpecToken::Star => if p + 2 <= ts.len() {
                p_postfix_tail(ts, SpecExpr::Wildcard(Box::new(e)), p + 2)
            } else {
                Ok((SpecExpr::Wildcard(Box::new(e)), p + 2))
            },
            SpecToken::Ident(name) => if p + 2 <= ts.len() {
                p_postfix_tail(ts, SpecExpr::Property(Box::new(e), name), p + 2)
            } else {
                Ok((SpecExpr::Property(Box::new(e), name), p + 2))
            },
            SpecToken::NumberLit(n) => if p + 2 <= ts.len() {
                p_postfix_tail(ts, SpecExpr::Property(Box::new(e), index_text(n)), p + 2)
            } else {
                Ok((SpecExpr::Property(Box::new(e), index_text(n)), p + 2))
            },
            _ => Err(syntax_error(p + 1, "expected property name after '.'"@)),
        }
    } else if tok(ts, p) is LBracket {
        match p_level(ts, 0, p + 1) {
            Err(e) => Err(e),
            Ok((idx, q)) => if tok(ts, q) is RBracket {
                let x = SpecExpr::Index(Box::new(e), Box::new(idx));
                if p < q + 1 <= ts.len() {
                    p_postfix_tail(ts, x, q + 1)
                } else {
                    Ok((x, q + 1))
                }
            } else {
                Err(expect_error(ts, q, "RBracket"@))
            },
        }
    } else {
        Ok((e, p))
    }
}

/// An atom: a literal, a parenthesized expression, a name or a function
/// call.
pub open spec fn p_atom(ts: Seq<SpecToken>, p: int) -> ParseResult
    decreases ts.len() + 1 - p, 10int,
{
    if p < 0 || p > ts.len() {
        Err(out_of_range(p))
    } else {
        match tok(ts, p) {
            SpecToken::StringLit(s) => Ok((SpecExpr::Literal(SpecValue::Str(s)), p + 1)),
            SpecToken::NumberLit(n) => Ok((SpecExpr::Literal(SpecValue::Num(n)), p + 1)),
            SpecToken::True => Ok((SpecExpr::Literal(SpecValue::Bool(true)), p + 1)),
            SpecToken::False => Ok((SpecExpr::Literal(SpecValue::Bool(false)), p + 1)),
            SpecToken::Null => Ok((SpecExpr::Literal(SpecValue::Null), p + 1)),
            SpecToken::LParen => match p_level(ts, 0, p + 1) {
                Err(e) => Err(e),
                Ok((e, q)) => if tok(ts, q) is RParen {
                    Ok((e, q + 1))
                } else {
                    Err(expect_error(ts, q, "RParen"@))
                },
            },
            SpecToken::Ident(name) => if tok(ts, p + 1) is LParen {
                match p_args(ts, p + 2) {
                    Err(e) => Err(e),
                    Ok((args, q)) => Ok((SpecExpr::FunctionCall(name, args), q)),
                }
            } else {
                Ok((SpecExpr::Ident(name), p + 1))
            },
            t => Err(syntax_error(p, "unexpected token: "@ + token_text(t))),
        }
    }
}

/// The arguments of a call after its `(`, up to and past the `)`.
pub open spec fn p_args(ts: Seq<SpecToken>, p: int) -> Result<(Seq<SpecExpr>, int), SpecError>
    decreases ts.len() + 1 - p, 22int,
{
    if p < 0 || p > ts.len() {
        Err(out_of_range(p))
    } else if tok(ts, p) is RParen {
        Ok((Seq::empty(), p + 1))
    } else {
        match p_level(ts, 0, p) {
            Err(e) => Err(e),
            Ok((a, q)) => if p < q <= ts.len() {
                p_args_tail(ts, seq![a], q)
            } else {
                Ok((seq![a], q))
            },
        }
    }
}

/// The arguments after those in `acc`, from `p`.
pub open spec fn p_args_tail(ts: Seq<SpecToken>, acc: Seq<SpecExpr>, p: int) -> Result<
    (Seq<SpecExpr>, int),
    SpecError,
>
    decreases ts.len() + 1 - p, 22int,
{
    if p < 0 || p > ts.len() {
        Err(out_of_range(p))
    } else if tok(ts, p) is Comma {
        match p_level(ts, 0, p + 1) {
            Err(e) => Err(e),
            Ok((a, q)) => if p < q <= ts.len() {
                p_args_tail(ts, acc.push(a), q)
            } else {
                Ok((acc.push(a), q))
            },
        }
    } else if tok(ts, p) is RParen {
        Ok((acc, p + 1))
    } else {
        Err(expect_error(ts, p, "RParen"@))
    }
}

/// The expression of a whole token list starting at `p`: an expression
/// that must be followed by `Eof`.
pub open spec fn parse_tokens(ts: Seq<SpecToken>, p: int) -> Result<SpecExpr, SpecError> {
    match p_level(ts, 0, p) {
        Err(e) => Err(e),
        Ok((e, q)) => if tok(ts, q) is Eof {
            Ok(e)
        } else {
            Err(syntax_error(q, "unexpected token after expression"@))
        },
    }
}

/// The debug text of a token (`token_text`).
pub fn token_debug(t: &Token) -> (s: String)
    ensures
        s@ == token_text(t@),
{
    let mut s = String::new();
    match t {
        Token::StringLit(x) => {
            push_str(&mut s, "StringLit(");
            push_str(&mut s, debug_str(x.as_str()).as_str());
            push_str(&mut s, ")");
        },
        Token::NumberLit(n) => {
            push_str(&mut s, "NumberLit(");
            n.push_debug(&mut s);
            push_str(&mut s, ")");
        },
        Token::Ident(x) => {
            push_str(&mut s, "Ident(");
            push_str(&mut s, debug_str(x.as_str()).as_str());
            push_str(&mut s, ")");
        },
        Token::True => push_str(&mut s, "True"),
        Token::False => push_str(&mut s, "False"),
        Token::Null => push_str(&mut s, "Null"),
        Token::Eq => push_str(&mut s, "Eq"),
        Token::Neq => push_str(&mut s, "Neq"),
        Token::Lt => push_str(&mut s, "Lt"),
        Token::Gt => push_str(&mut s, "Gt"),
        Token::Lte => push_str(&mut s, "Lte"),
        Token::Gte => push_str(&mut s, "Gte"),
        Token::And => push_str(&mut s, "And"),
        Token::Or => push_str(&mut s, "Or"),
        Token::Bang => push_str(&mut s, "Bang"),
        Token::Dot => push_str(&mut s, "Dot"),
        Token::Comma => push_str(&mut s, "Comma"),
        Token::LParen => push_str(&mut s, "LParen"),
        Token::RParen => push_str(&mut s, "RParen"),
        Token::LBracket => push_str(&mut s, "LBracket"),
        Token::RBracket => push_str(&mut s, "RBracket"),
        Token::Star => push_str(&mut s, "Star"),
        Token::Eof => push_str(&mut s, "Eof"),
    }
    assert(s@ =~= token_text(t@));
    s
}

fn eof_token() -> (t: Token)
    ensures
        t@ == SpecToken::Eof,
{
    Token::Eof
}

/// Whether the token at `p` is of the given kind (by its view).
fn kind_at(ts: &Vec<Token>, p: usize) -> (k: SpecKind)
    ensures
        k == kind_of(tok(tokens_view(ts@), p as int)),
{
    if p < ts.len() {
        match &ts[p] {
            Token::Or => SpecKind::Or,
            Token::And => SpecKind::And,
            Token::Eq => SpecKind::Eq,
            Token::Neq => SpecKind::Neq,
            Token::Lt => SpecKind::Lt,
            Token::Gt => SpecKind::Gt,
            Token::Lte => SpecKind::Lte,
            Token::Gte => SpecKind::Gte,
            Token::Bang => SpecKind::Bang,
            Token::Dot => SpecKind::Dot,
            Token::Star => SpecKind::Star,
            Token::LBracket => SpecKind::LBracket,
            Token::RBracket => SpecKind::RBracket,
            Token::LParen => SpecKind::LParen,
            Token::RParen => SpecKind::RParen,
            Token::Comma => SpecKind::Comma,
            Token::Eof => SpecKind::Eof,
            _ => SpecKind::Other,
        }
    } else {
        SpecKind::Eof
    }
}

/// The kinds of token the parser tells apart by kind alone.
#[derive(PartialEq, Eq, Structural, Clone, Copy)]
pub enum SpecKind {
    Or,
    And,
    Eq,
    Neq,
    Lt,
    Gt,
    Lte,
    Gte,
    Bang,
    Dot,
    Star,
    LBracket,
    RBracket,
    LParen,
    RParen,
    Comma,
    Eof,
    Other,
}

/// The kind of a token.
pub open spec fn kind_of(t: SpecToken) -> SpecKind {
    match t {
        SpecToken::Or => SpecKind::Or,
        SpecToken::And => SpecKind::And,
        SpecToken::Eq => SpecKind::Eq,
        SpecToken::Neq => SpecKind::Neq,
        SpecToken::Lt => SpecKind::Lt,
        SpecToken::Gt => SpecKind::Gt,
        SpecToken::Lte => SpecKind::Lte,
        SpecToken::Gte => SpecKind::Gte,
        SpecToken::Bang => SpecKind::Bang,
        SpecToken::Dot => SpecKind::Dot,
        SpecToken::Star => SpecKind::Star,
        SpecToken::LBracket => SpecKind::LBracket,
        SpecToken::RBracket => SpecKind::RBracket,
        SpecToken::LParen => SpecKind::LParen,
        SpecToken::RParen => SpecKind::RParen,
        SpecToken::Comma => SpecKind::Comma,
        SpecToken::Eof => SpecKind::Eof,
        _ => SpecKind::Other,
    }
}

fn level_op_exec(level: u8, k: SpecKind) -> (r: Option<BinaryOp>)
    requires
        level <= 3,
    ensures
        forall|t: SpecToken| kind_of(t) == k ==> r == level_op(level as int, t),
{
    if level == 0 {
        if k == SpecKind::Or {
            Some(BinaryOp::Or)
        } else {
            None
        }
    } else if level == 1 {
        if k == SpecKind::And {
            Some(BinaryOp::And)
        } else {
            None
        }
    } else if level == 2 {
        if k == SpecKind::Eq {
            Some(BinaryOp::Eq)
        } else if k == SpecKind::Neq {
            Some(BinaryOp::Neq)
        } else {
            None
        }
    } else {
        if k == SpecKind::Lt {
            Some(BinaryOp::Lt)
        } else if k == SpecKind::Gt {
            Some(BinaryOp::Gt)
        } else if k == SpecKind::Lte {
            Some(BinaryOp::Lte)
        } else if k == SpecKind::Gte {
            Some(BinaryOp::Gte)
        } else {
            None
        }
    }
}

fn syntax(p: usize, message: String) -> (e: Error)
    ensures
        e@ == syntax_error(p as int, message@),
{
    Error::ExpressionSyntax { position: p, message }
}

fn expect_failure(ts: &Vec<Token>, p: usize, expected: &str) -> (e: Error)
    ensures
        e@ == expect_error(tokens_view(ts@), p as int, expected@),
{
    let mut m = String::from_str("expected ");
    push_str(&mut m, expected);
    push_str(&mut m, ", got ");
    let t = if p < ts.len() {
        token_debug(&ts[p])
    } else {
        token_debug(&eof_token())
    };
    push_str(&mut m, t.as_str());
    assert(m@ =~= "expected "@ + expected@ + ", got "@ + token_text(tok(tokens_view(ts@), p as int)));
    syntax(p, m)
}

/// The result of a parse function, related to its specification.
pub open spec fn matches_spec(r: Result<(Expr, usize), Error>, s: ParseResult) -> bool {
    match s {
        Ok((e, q)) => r matches Ok((x, q2)) && x@ == e && q2 == q,
        Err(e) => r matches Err(err) && err@ == e,
    }
}

fn parse_level(ts: &Vec<Token>, level: u8, p: usize) -> (r: Result<(Expr, usize), Error>)
    requires
        p <= ts@.len() < usize::MAX,
        level <= 3,
    ensures
        matches_spec(r, p_level(tokens_view(ts@), level as int, p as int)),
        r matches Ok((_, q)) ==> p < q <= ts@.len(),
    decreases ts@.len() + 1 - p, 20 - 2 * level,
{
    let ghost tv = tokens_view(ts@);
    match parse_operand(ts, level, p) {
        Err(e) => Err(e),
        Ok((l, q)) => parse_level_tail(ts, level, l, q),
    }
}

fn parse_operand(ts: &Vec<Token>, level: u8, p: usize) -> (r: Result<(Expr, usize), Error>)
    requires
        p <= ts@.len() < usize::MAX,
        level <= 3,
    ensures
        matches_spec(r, p_operand(tokens_view(ts@), level as int, p as int)),
        r matches Ok((_, q)) ==> p < q <= ts@.len(),
    decreases ts@.len() + 1 - p, 19 - 2 * level,
{
    if level < 3 {
        parse_level(ts, level + 1, p)
    } else {
        parse_unary(ts, p)
    }
}

fn parse_level_tail(ts: &Vec<Token>, level: u8, l: Expr, p: usize) -> (r: Result<(Expr, usize), Error>)
    requires
        p <= ts@.len() < usize::MAX,
        level <= 3,
    ensures
        matches_spec(r, p_level_tail(tokens_view(ts@), level as int, l@, p as int)),
        r matches Ok((_, q)) ==> p <= q <= ts@.len(),
    decreases ts@.len() + 1 - p, 20 - 2 * level,
{
    let k = kind_at(ts, p);
    match level_op_exec(level, k) {
        None => Ok((l, p)),
        Some(op) => {
            if p + 1 > ts.len() {
                assert(false);
                return Ok((l, p));
            }
            match parse_operand(ts, level, p + 1) {
                Err(e) => Err(e),
                Ok((r, q)) => {
                    let e = Expr::BinaryOp(op, Box::new(l), Box::new(r));
                    parse_level_tail(ts, level, e, q)
                },
            }
        },
    }
}

fn parse_unary(ts: &Vec<Token>, p: usize) -> (r: Result<(Expr, usize), Error>)
    requires
        p <= ts@.len() < usize::MAX,
    ensures
        matches_spec(r, p_unary(tokens_view(ts@), p as int)),
        r matches Ok((_, q)) ==> p < q <= ts@.len(),
    decreases ts@.len() + 1 - p, 12int,
{
    if kind_at(ts, p) == SpecKind::Bang {
        match parse_unary(ts, p + 1) {
            Err(e) => Err(e),
            Ok((e, q)) => Ok((Expr::Not(Box::new(e)), q)),
        }
    } else {
        parse_postfix(ts, p)
    }
}

fn parse_postfix(ts: &Vec<Token>, p: usize) -> (r: Result<(Expr, usize), Error>)
    requires
        p <= ts@.len() < usize::MAX,
    ensures
        matches_spec(r, p_postfix(tokens_view(ts@), p as int)),
        r matches Ok((_, q)) ==> p < q <= ts@.len(),
    decreases ts@.len() + 1 - p, 11int,
{
    match parse_atom(ts, p) {
        Err(e) => Err(e),
        Ok((e, q)) => parse_postfix_tail(ts, e, q),
    }
}

fn parse_postfix_tail(ts: &Vec<Token>, e: Expr, p: usize) -> (r: Result<(Expr, usize), Error>)
    requires
        p <= ts@.len() < usize::MAX,
    ensures
        matches_spec(r, p_postfix_tail(tokens_view(ts@), e@, p as int)),
        r matches Ok((_, q)) ==> p <= q <= ts@.len(),
    decreases ts@.len() + 1 - p, 11int,
{
    let ghost tv = tokens_view(ts@);
    let k = kind_at(ts, p);
    if k == SpecKind::Dot {
        if p + 1 >= ts.len() {
            return Err(syntax(p + 1, String::from_str("expected property name after '.'")));
        }
        match &ts[p + 1] {
            Token::Star => {
                return parse_postfix_tail(ts, Expr::Wildcard(Box::new(e)), p + 2);
            },
            Token::Ident(name) => {
                let n = name.clone();
                return parse_postfix_tail(ts, Expr::Property(Box::new(e), n), p + 2);
            },
            Token::NumberLit(n) => {
                let t = n.to_index_text();
                return parse_postfix_tail(ts, Expr::Property(Box::new(e), t), p + 2);
            },
            _ => {
                return Err(syntax(p + 1, String::from_str("expected property name after '.'")));
            },
        }
    }
    if k == SpecKind::LBracket {
        match parse_level(ts, 0, p + 1) {
            Err(err) => Err(err),
            Ok((idx, q)) => {
                if kind_at(ts, q) == SpecKind::RBracket {
                    let x = Expr::Index(Box::new(e), Box::new(idx));
                    parse_postfix_tail(ts, x, q + 1)
                } else {
                    Err(expect_failure(ts, q, "RBracket"))
                }
            },
        }
    } else {
        Ok((e, p))
    }
}

fn parse_atom(ts: &Vec<Token>, p: usize) -> (r: Result<(Expr, usize), Error>)
    requires
        p <= ts@.len() < usize::MAX,
    ensures
        matches_spec(r, p_atom(tokens_view(ts@), p as int)),
        r matches Ok((_, q)) ==> p < q <= ts@.len(),
    decreases ts@.len() + 1 - p, 10int,
{
    if p >= ts.len() {
        let mut m = String::from_str("unexpected token: ");
        push_str(&mut m, "Eof");
        assert(m@ =~= "unexpected token: "@ + token_text(SpecToken::Eof));
        return Err(syntax(p, m));
    }
    match &ts[p] {
        Token::StringLit(s) => Ok((Expr::Literal(Value::String(s.clone())), p + 1)),
        Token::NumberLit(n) => Ok((Expr::Literal(Value::Number(n.copy())), p + 1)),
        Token::True => Ok((Expr::Literal(Value::Bool(true)), p + 1)),
        Token::False => Ok((Expr::Literal(Value::Bool(false)), p + 1)),
        Token::Null => Ok((Expr::Literal(Value::Null), p + 1)),
        Token::LParen => match parse_level(ts, 0, p + 1) {
            Err(e) => Err(e),
            Ok((e, q)) => {
                if kind_at(ts, q) == SpecKind::RParen {
                    Ok((e, q + 1))
                } else {
                    Err(expect_failure(ts, q, "RParen"))
                }
            },
        },
        Token::Ident(name) => {
            if kind_at(ts, p + 1) == SpecKind::LParen {
                match parse_args(ts, p + 2) {
                    Err(e) => Err(e),
                    Ok((args, q)) => {
                        let ghost av = exprs_view(args@);
                        let nm = name.clone();
                        proof {
                            crate::ast::lemma_call_view(nm, args);
                        }
                        let call = Expr::FunctionCall(nm, args);
                        Ok((call, q))
                    },
                }
            } else {
                Ok((Expr::Ident(name.clone()), p + 1))
            }
        },
        t => {
            let mut m = String::from_str("unexpected token: ");
            push_str(&mut m, token_debug(t).as_str());
            assert(m@ =~= "unexpected token: "@ + token_text(t@));
            Err(syntax(p, m))
        },
    }
}

/// The views of a list of expressions.
pub open spec fn exprs_view(v: Seq<Expr>) -> Seq<SpecExpr> {
    v.map_values(|e: Expr| e@)
}

fn parse_args(ts: &Vec<Token>, p: usize) -> (r: Result<(Vec<Expr>, usize), Error>)
    requires
        p <= ts@.len() < usize::MAX,
    ensures
        match p_args(tokens_view(ts@), p as int) {
            Ok((a, q)) => r matches Ok((v, q2)) && exprs_view(v@) == a && q2 == q,
            Err(e) => r matches Err(err) && err@ == e,
        },
        r matches Ok((_, q)) ==> p < q <= ts@.len(),
    decreases ts@.len() + 1 - p, 22int,
{
    if kind_at(ts, p) == SpecKind::RParen {
        let v: Vec<Expr> = Vec::new();
        assert(exprs_view(v@) =~= Seq::<SpecExpr>::empty());
        return Ok((v, p + 1));
    }
    match parse_level(ts, 0, p) {
        Err(e) => Err(e),
        Ok((a, q)) => {
            let mut v: Vec<Expr> = Vec::new();
            v.push(a);
            assert(exprs_view(v@) =~= seq![v@[0]@]);
            parse_args_tail(ts, v, q)
        },
    }
}

fn parse_args_tail(ts: &Vec<Token>, acc: Vec<Expr>, p: usize) -> (r: Result<(Vec<Expr>, usize), Error>)
    requires
        p <= ts@.len() < usize::MAX,
    ensures
        match p_args_tail(tokens_view(ts@), exprs_view(acc@), p as int) {
            Ok((a, q)) => r matches Ok((v, q2)) && exprs_view(v@) == a && q2 == q,
            Err(e) => r matches Err(err) && err@ == e,
        },
        r matches Ok((_, q)) ==> p < q <= ts@.len(),
    decreases ts@.len() + 1 - p, 22int,
{
    let k = kind_at(ts, p);
    if k == SpecKind::Comma {
        match parse_level(ts, 0, p + 1) {
            Err(e) => Err(e),
            Ok((a, q)) => {
                let mut acc = acc;
                let ghost before = exprs_view(acc@);
                let ghost av = a@;
                acc.push(a);
                assert(exprs_view(acc@) =~= before.push(av));
                parse_args_tail(ts, acc, q)
            },
        }
    } else if k == SpecKind::RParen {
        Ok((acc, p + 1))
    } else {
        Err(expect_failure(ts, p, "RParen"))
    }
}

/// A parser over a token list.
pub struct Parser {
    tokens: Vec<Token>,
    pos: usize,
}

impl Parser {
    /// The tokens.
    pub closed spec fn tokens(&self) -> Seq<SpecToken> {
        tokens_view(self.tokens@)
    }

    /// The position reached.
    pub closed spec fn position(&self) -> int {
        self.pos as int
    }

    /// A parser at the start of `tokens`.
    pub fn new(tokens: Vec<Token>) -> (p: Parser)
        ensures
            p.tokens() == tokens_view(tokens@),
            p.position() == 0,
    {
        Parser { tokens, pos: 0 }
    }

    /// Parses the tokens from the current position as one expression that
    /// must end at `Eof` (`parse_tokens`).
    pub fn parse(&mut self) -> (r: Result<Expr, Error>)
        requires
            old(self).position() <= old(self).tokens().len() < usize::MAX,
        ensures
            match parse_tokens(old(self).tokens(), old(self).position()) {
                Ok(e) => r matches Ok(x) && x@ == e,
                Err(e) => r matches Err(err) && err@ == e,
            },
    {
        match parse_level(&self.tokens, 0, self.pos) {
            Err(e) => Err(e),
            Ok((e, q)) => {
                self.pos = q;
                if kind_at(&self.tokens, q) == SpecKind::Eof {
                    Ok(e)
                } else {
                    Err(syntax(q, String::from_str("unexpected token after expression")))
                }
            },
        }
    }
}

} // verus!
