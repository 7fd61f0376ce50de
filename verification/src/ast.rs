//! The syntax tree of an expression.
use crate::value::{SpecValue, Value};
use vstd::prelude::*;

verus! {

/// A binary operator.
#[derive(Debug, Clone, Copy, PartialEq, Eq, Structural)]
pub enum BinaryOp {
    Or,
    And,
    Eq,
    Neq,
    Lt,
    Gt,
    Lte,
    Gte,
}

/// An expression.
pub enum Expr {
    /// A literal value (string, number, boolean, null).
    Literal(Value),
    /// A bare name such as `github` or `env`.
    Ident(String),
    /// Property access: `expr.name`.
    Property(Box<Expr>, String),
    /// Index access: `expr[expr]`.
    Index(Box<Expr>, Box<Expr>),
    /// Wildcard filter: `expr.*`.
    Wildcard(Box<Expr>),
    /// Function call: `name(args...)`.
    FunctionCall(String, Vec<Expr>),
    /// Negation: `!expr`.
    Not(Box<Expr>),
    /// A binary operation.
    BinaryOp(BinaryOp, Box<Expr>, Box<Expr>),
}

/// The mathematical form of an expression.
pub ghost enum SpecExpr {
    Literal(SpecValue),
    Ident(Seq<char>),
    Property(Box<SpecExpr>, Seq<char>),
    Index(Box<SpecExpr>, Box<SpecExpr>),
    Wildcard(Box<SpecExpr>),
    FunctionCall(Seq<char>, Seq<SpecExpr>),
    Not(Box<SpecExpr>),
    BinaryOp(BinaryOp, Box<SpecExpr>, Box<SpecExpr>),
}

/// The mathematical form of an expression.
pub open spec fn expr_view(e: Expr) -> SpecExpr
    decreases e,
{
    match e {
        Expr::Literal(v) => SpecExpr::Literal(v@),
        Expr::Ident(s) => SpecExpr::Ident(s@),
        Expr::Property(b, n) => SpecExpr::Property(Box::new(expr_view(*b)), n@),
        Expr::Index(a, b) => SpecExpr::Index(Box::new(expr_view(*a)), Box::new(expr_view(*b))),
        Expr::Wildcard(b) => SpecExpr::Wildcard(Box::new(expr_view(*b))),
        Expr::FunctionCall(n, args) => SpecExpr::FunctionCall(
            n@,
            Seq::new(
                args@.len(),
                |i: int|
                    if 0 <= i < args@.len() {
                        expr_view(args@[i])
                    } else {
                        SpecExpr::Ident(Seq::empty())
                    },
            ),
        ),
        Expr::Not(b) => SpecExpr::Not(Box::new(expr_view(*b))),
        Expr::BinaryOp(op, a, b) => SpecExpr::BinaryOp(
            op,
            Box::new(expr_view(*a)),
            Box::new(expr_view(*b)),
        ),
    }
}

/// The form of a call is its name and the forms of its arguments.
pub proof fn lemma_call_view(name: String, args: Vec<Expr>)
    ensures
        expr_view(Expr::FunctionCall(name, args)) == SpecExpr::FunctionCall(
            name@,
            args@.map_values(|e: Expr| e@),
        ),
{
    let v = expr_view(Expr::FunctionCall(name, args));
    assert(v is FunctionCall);
    if let SpecExpr::FunctionCall(n, xs) = v {
        assert(xs.len() == args@.len());
        assert forall|i: int| 0 <= i < xs.len() implies xs[i] == args@.map_values(
            |e: Expr| e@,
        )[i] by {
            assert(xs[i] == expr_view(args@[i]));
        }
        assert(xs =~= args@.map_values(|e: Expr| e@));
    }
}

impl View for Expr {
    type V = SpecExpr;

    open spec fn view(&self) -> SpecExpr {
        expr_view(*self)
    }
}

} // verus!
