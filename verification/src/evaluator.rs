//! Evaluation of expressions: `${{ }}` interpolation in strings, `if:`
//! conditions, and the value of a parsed expression in its contexts.
use crate::ast::{BinaryOp, Expr, SpecExpr};
use crate::context::{ExpressionContext, JobStatus};
use crate::error::Error;
use crate::functions::{CallResult, EvalError, FileSet, SpecStop, call_function, call_spec, eval_failure, file_sets_view, values_view};
use crate::lexer::{Lexer, lex, lemma_lex_len};
use crate::number::{num_eq, num_lt};
use crate::parser::{Parser, parse_tokens};
use crate::strmap::StrMap;
use crate::text::{chars_of, contains_seq, find_chars, find_from, lemma_find_from, lowercase_of, push_str, str_eq, string_of_range, to_lowercase, trim, trim_of};
use crate::value::{ObjectMap, SpecValue, Value, lemma_fold_holds_map, lemma_holds_map_unique, loose_eq, map_value, member_pairs_view, obj_fold, obj_get, truthy, value_number, value_text};
use vstd::prelude::*;

verus! {

/// The file sets known so far, as the functions see them.
pub open spec fn sets_of(sets: Seq<FileSet>) -> Seq<(Seq<Seq<char>>, Seq<(Seq<char>, Seq<u8>)>)> {
    file_sets_view(sets)
}

/// A map of strings as an object of string values.
pub open spec fn map_object(entries: Seq<(Seq<char>, Seq<char>)>) -> SpecValue {
    SpecValue::Object(
        obj_fold(
            Seq::empty(),
            entries.map_values(|e: (Seq<char>, Seq<char>)| (e.0, SpecValue::Str(e.1))),
        ),
    )
}

/// The value of a top-level name: one of the contexts, or the empty
/// string for an unknown name.
pub open spec fn ident_value(name: Seq<char>, ctx: ExpressionContext) -> SpecValue {
    if name == "github"@ {
        ctx.github@
    } else if name == "env"@ {
        map_object(ctx.env.entries())
    } else if name == "secrets"@ {
        map_object(ctx.secrets.entries())
    } else if name == "vars"@ {
        map_object(ctx.vars.entries())
    } else if name == "runner"@ {
        map_object(ctx.runner.entries())
    } else if name == "inputs"@ {
        map_object(ctx.inputs.entries())
    } else if name == "matrix"@ {
        ctx.matrix@
    } else if name == "strategy"@ {
        ctx.strategy@
    } else if name == "needs"@ {
        ctx.needs@
    } else if name == "job"@ {
        ctx.job@
    } else if name == "steps"@ {
        ctx.steps@
    } else {
        SpecValue::Str(Seq::empty())
    }
}

/// A property of a value: an object's member (null when missing); an
/// array's element for a count key (null past the end), or else the
/// property of each element, the nulls left out (null when none is left);
/// null for anything else.
pub open spec fn property_of(v: SpecValue, key: Seq<char>) -> SpecValue
    decreases v, 1nat,
{
    match v {
        SpecValue::Object(es) => match obj_get(es, key) {
            Some(x) => x,
            None => SpecValue::Null,
        },
        SpecValue::Array(items) => match crate::functions::parse_usize(key) {
            Some(i) => if i < items.len() {
                items[i as int]
            } else {
                SpecValue::Null
            },
            None => {
                let f = filtered_properties(items, key);
                if f.len() == 0 {
                    SpecValue::Null
                } else {
                    SpecValue::Array(f)
                }
            },
        },
        _ => SpecValue::Null,
    }
}

/// The property `key` of each of `items` that is not null.
pub open spec fn filtered_properties(items: Seq<SpecValue>, key: Seq<char>) -> Seq<SpecValue>
    decreases items, 0nat,
{
    if items.len() == 0 {
        Seq::empty()
    } else {
        let rest = filtered_properties(items.drop_last(), key);
        let p = property_of(items.last(), key);
        if p is Null {
            rest
        } else {
            rest.push(p)
        }
    }
}

/// The elements of a value for `.*`: an array's elements, an object's
/// member values, nothing otherwise.
pub open spec fn wildcard_of(v: SpecValue) -> SpecValue {
    match v {
        SpecValue::Array(a) => SpecValue::Array(a),
        SpecValue::Object(es) => SpecValue::Array(
            es.map_values(|e: (Seq<char>, SpecValue)| e.1),
        ),
        _ => SpecValue::Array(Seq::empty()),
    }
}

/// A relational comparison of two values as numbers: false when either is
/// not a number.
pub open spec fn compare_spec(op: BinaryOp, l: SpecValue, r: SpecValue) -> bool {
    let a = value_number(l);
    let b = value_number(r);
    if a is NaN || b is NaN {
        false
    } else {
        match op {
            BinaryOp::Lt => num_lt(a, b),
            BinaryOp::Gt => num_lt(b, a),
            BinaryOp::Lte => num_lt(a, b) || num_eq(a, b),
            _ => num_lt(b, a) || num_eq(a, b),
        }
    }
}

/// The value of an expression in a context, given the workspace (for
/// `hashFiles`) and the file sets known so far.  `||` and `&&` give one of
/// their operands, evaluating the right one only when the left one does
/// not decide; the status functions read the job status.
pub open spec fn eval(
    e: SpecExpr,
    ctx: ExpressionContext,
    ws: Seq<char>,
    sets: Seq<(Seq<Seq<char>>, Seq<(Seq<char>, Seq<u8>)>)>,
) -> CallResult
    decreases e,
{
    match e {
        SpecExpr::Literal(v) => Ok(v),
        SpecExpr::Ident(n) => Ok(ident_value(n, ctx)),
        SpecExpr::Property(b, p) => match eval(*b, ctx, ws, sets) {
            Ok(v) => Ok(property_of(v, p)),
            Err(s) => Err(s),
        },
        SpecExpr::Index(b, i) => match eval(*b, ctx, ws, sets) {
            Err(s) => Err(s),
            Ok(v) => match eval(*i, ctx, ws, sets) {
                Err(s) => Err(s),
                Ok(k) => Ok(property_of(v, value_text(k))),
            },
        },
        SpecExpr::Wildcard(b) => match eval(*b, ctx, ws, sets) {
            Ok(v) => Ok(wildcard_of(v)),
            Err(s) => Err(s),
        },
        SpecExpr::FunctionCall(name, args) => {
            if name == "success"@ {
                Ok(SpecValue::Bool(ctx.job_status == JobStatus::Success))
            } else if name == "failure"@ {
                Ok(SpecValue::Bool(ctx.job_status == JobStatus::Failure))
            } else if name == "always"@ {
                Ok(SpecValue::Bool(true))
            } else if name == "cancelled"@ {
                Ok(SpecValue::Bool(ctx.job_status == JobStatus::Cancelled))
            } else {
                match eval_list(args, ctx, ws, sets) {
                    Err(s) => Err(s),
                    Ok(vs) => call_spec(name, vs, ws, sets),
                }
            }
        },
        SpecExpr::Not(b) => match eval(*b, ctx, ws, sets) {
            Ok(v) => Ok(SpecValue::Bool(!truthy(v))),
            Err(s) => Err(s),
        },
        SpecExpr::BinaryOp(op, l, r) => match eval(*l, ctx, ws, sets) {
            Err(s) => Err(s),
            Ok(lv) => match op {
                BinaryOp::Or => if truthy(lv) {
                    Ok(lv)
                } else {
                    eval(*r, ctx, ws, sets)
                },
                BinaryOp::And => if !truthy(lv) {
                    Ok(lv)
                } else {
                    eval(*r, ctx, ws, sets)
                },
                _ => match eval(*r, ctx, ws, sets) {
                    Err(s) => Err(s),
                    Ok(rv) => match op {
                        BinaryOp::Eq => Ok(SpecValue::Bool(loose_eq(lv, rv))),
                        BinaryOp::Neq => Ok(SpecValue::Bool(!loose_eq(lv, rv))),
                        _ => Ok(SpecValue::Bool(compare_spec(op, lv, rv))),
                    },
                },
            },
        },
    }
}

/// The values of a list of expressions, left to right, stopping at the
/// first that fails.
pub open spec fn eval_list(
    args: Seq<SpecExpr>,
    ctx: ExpressionContext,
    ws: Seq<char>,
    sets: Seq<(Seq<Seq<char>>, Seq<(Seq<char>, Seq<u8>)>)>,
) -> Result<Seq<SpecValue>, SpecStop>
    decreases args,
{
    if args.len() == 0 {
        Ok(Seq::empty())
    } else {
        match eval_list(args.drop_last(), ctx, ws, sets) {
            Err(s) => Err(s),
            Ok(vs) => match eval(args.last(), ctx, ws, sets) {
                Err(s) => Err(s),
                Ok(v) => Ok(vs.push(v)),
            },
        }
    }
}

/// A map of strings as an object of string values (`map_object`).
pub fn map_to_value(m: &StrMap) -> (v: Value)
    ensures
        v@ == map_object(m.entries()),
        v@ == map_value(m@),
{
    m.entries_distinct();
    proof {
        lemma_fold_holds_map(m.entries());
        lemma_holds_map_unique(
            obj_fold(
                Seq::empty(),
                m.entries().map_values(|e: (Seq<char>, Seq<char>)| (e.0, SpecValue::Str(e.1))),
            ),
            m@,
        );
    }
    let mut pairs: Vec<(String, Value)> = Vec::new();
    let n = m.len();
    let mut i: usize = 0;
    while i < n
        invariant
            i <= n == m.entries().len(),
            member_pairs_view(pairs@) == m.entries().map_values(
                |e: (Seq<char>, Seq<char>)| (e.0, SpecValue::Str(e.1)),
            ).take(i as int),
        decreases n - i,
    {
        let k = m.key_at(i).clone();
        let x = Value::String(m.value_at(i).clone());
        let ghost before = pairs@;
        pairs.push((k, x));
        assert(member_pairs_view(pairs@) =~= member_pairs_view(before).push(
            (m.entries()[i as int].0, SpecValue::Str(m.entries()[i as int].1)),
        ));
        assert(m.entries().map_values(|e: (Seq<char>, Seq<char>)| (e.0, SpecValue::Str(e.1))).take(
            i + 1,
        ) =~= m.entries().map_values(|e: (Seq<char>, Seq<char>)| (e.0, SpecValue::Str(e.1))).take(
            i as int,
        ).push((m.entries()[i as int].0, SpecValue::Str(m.entries()[i as int].1))));
        i += 1;
    }
    assert(m.entries().map_values(|e: (Seq<char>, Seq<char>)| (e.0, SpecValue::Str(e.1))).take(
        i as int,
    ) =~= m.entries().map_values(|e: (Seq<char>, Seq<char>)| (e.0, SpecValue::Str(e.1))));
    Value::Object(ObjectMap::from_pairs(&pairs))
}

/// The value of a top-level name (`ident_value`).
pub fn resolve_ident(name: &str, ctx: &ExpressionContext) -> (v: Value)
    ensures
        v@ == ident_value(name@, *ctx),
{
    if str_eq(name, "github") {
        ctx.github.copy()
    } else if str_eq(name, "env") {
        map_to_value(&ctx.env)
    } else if str_eq(name, "secrets") {
        map_to_value(&ctx.secrets)
    } else if str_eq(name, "vars") {
        map_to_value(&ctx.vars)
    } else if str_eq(name, "runner") {
        map_to_value(&ctx.runner)
    } else if str_eq(name, "inputs") {
        map_to_value(&ctx.inputs)
    } else if str_eq(name, "matrix") {
        ctx.matrix.copy()
    } else if str_eq(name, "strategy") {
        ctx.strategy.copy()
    } else if str_eq(name, "needs") {
        ctx.needs.copy()
    } else if str_eq(name, "job") {
        ctx.job.copy()
    } else if str_eq(name, "steps") {
        ctx.steps.copy()
    } else {
        Value::String(String::new())
    }
}

/// A property of a value (`property_of`).
#[verifier::loop_isolation(false)]
pub fn get_property(value: &Value, key: &str) -> (r: Value)
    ensures
        r@ == property_of(value@, key@),
    decreases value,
{
    match value {
        Value::Object(m) => match m.get(key) {
            Some(x) => x.copy(),
            None => Value::Null,
        },
        Value::Array(items) => {
            proof {
                crate::value::lemma_array_view(*items);
            }
            let kc = chars_of(key);
            match crate::functions::parse_usize_text(kc.as_slice()) {
                Some(i) => {
                    if i < items.len() {
                        proof {
                            assert(values_view(items@)[i as int] == items@[i as int]@);
                        }
                        items[i].copy()
                    } else {
                        Value::Null
                    }
                },
                None => {
                    let mut out: Vec<Value> = Vec::new();
                    let mut k: usize = 0;
                    while k < items.len()
                        invariant
                            k <= items@.len(),
                            value@ == SpecValue::Array(values_view(items@)),
                            values_view(out@) == filtered_properties(
                                values_view(items@).take(k as int),
                                key@,
                            ),
                        decreases items@.len() - k,
                    {
                        proof {
                            assert(decreases_to!(*value => value->Array_0));
                            assert(decreases_to!(value->Array_0 => value->Array_0@));
                            assert(decreases_to!(value->Array_0@ => value->Array_0@[k as int]));
                        }
                        let p = get_property(&items[k], key);
                        let ghost t = values_view(items@).take(k + 1);
                        assert(t.drop_last() =~= values_view(items@).take(k as int));
                        assert(t.last() == items@[k as int]@);
                        match p {
                            Value::Null => {},
                            _ => {
                                let ghost before = out@;
                                let ghost pv = p@;
                                out.push(p);
                                assert(values_view(out@) =~= values_view(before).push(pv));
                            },
                        }
                        k += 1;
                    }
                    assert(values_view(items@).take(k as int) =~= values_view(items@));
                    if out.len() == 0 {
                        Value::Null
                    } else {
                        let r = Value::Array(out);
                        proof {
                            crate::value::lemma_array_view(out);
                        }
                        r
                    }
                },
            }
        },
        _ => Value::Null,
    }
}

/// The elements of a value for `.*` (`wildcard_of`).
fn wildcard(v: Value) -> (r: Value)
    ensures
        r@ == wildcard_of(v@),
{
    match v {
        Value::Array(a) => Value::Array(a),
        Value::Object(m) => {
            let mut out: Vec<Value> = Vec::new();
            let n = m.len();
            let mut i: usize = 0;
            while i < n
                invariant
                    i <= n == m@.len(),
                    values_view(out@) == m@.map_values(|e: (Seq<char>, SpecValue)| e.1).take(
                        i as int,
                    ),
                decreases n - i,
            {
                let ghost before = out@;
                let x = m.value_at(i).copy();
                out.push(x);
                assert(values_view(out@) =~= values_view(before).push(m@[i as int].1));
                assert(m@.map_values(|e: (Seq<char>, SpecValue)| e.1).take(i + 1) =~= m@.map_values(
                    |e: (Seq<char>, SpecValue)| e.1,
                ).take(i as int).push(m@[i as int].1));
                i += 1;
            }
            assert(m@.map_values(|e: (Seq<char>, SpecValue)| e.1).take(i as int) =~= m@.map_values(
                |e: (Seq<char>, SpecValue)| e.1,
            ));
            proof {
                crate::value::lemma_array_view(out);
            }
            Value::Array(out)
        },
        _ => {
            let e: Vec<Value> = Vec::new();
            proof {
                crate::value::lemma_array_view(e);
            }
            assert(e@.map_values(|x: Value| x@) =~= Seq::<SpecValue>::empty());
            Value::Array(e)
        },
    }
}

/// The result of an evaluation, related to its specification.
pub open spec fn eval_matches(r: Result<Value, EvalError>, s: CallResult) -> bool {
    match s {
        Ok(v) => r matches Ok(x) && x@ == v,
        Err(e) => r matches Err(err) && err@ == e,
    }
}

/// The value of an expression (`eval`).
pub fn eval_ast(expr: &Expr, ctx: &ExpressionContext, workspace: &str, sets: &Vec<FileSet>) -> (r:
    Result<Value, EvalError>)
    ensures
        eval_matches(r, eval(expr@, *ctx, workspace@, sets_of(sets@))),
    decreases expr, 1nat,
{
    match expr {
        Expr::Literal(v) => Ok(v.copy()),
        Expr::Ident(name) => Ok(resolve_ident(name.as_str(), ctx)),
        Expr::Property(b, p) => {
            let v = eval_ast(b, ctx, workspace, sets)?;
            Ok(get_property(&v, p.as_str()))
        },
        Expr::Index(b, i) => {
            let v = eval_ast(b, ctx, workspace, sets)?;
            let k = eval_ast(i, ctx, workspace, sets)?;
            let key = k.to_str();
            Ok(get_property(&v, key.as_str()))
        },
        Expr::Wildcard(b) => {
            let v = eval_ast(b, ctx, workspace, sets)?;
            Ok(wildcard(v))
        },
        Expr::FunctionCall(name, args) => {
            proof {
                crate::ast::lemma_call_view(*name, *args);
            }
            if str_eq(name.as_str(), "success") {
                return Ok(Value::Bool(ctx.job_status == JobStatus::Success));
            }
            if str_eq(name.as_str(), "failure") {
                return Ok(Value::Bool(ctx.job_status == JobStatus::Failure));
            }
            if str_eq(name.as_str(), "always") {
                return Ok(Value::Bool(true));
            }
            if str_eq(name.as_str(), "cancelled") {
                return Ok(Value::Bool(ctx.job_status == JobStatus::Cancelled));
            }
            let vals = eval_args(args, ctx, workspace, sets, expr)?;
            call_function(name.as_str(), &vals, workspace, sets)
        },
        Expr::Not(b) => {
            let v = eval_ast(b, ctx, workspace, sets)?;
            Ok(Value::Bool(!v.is_truthy()))
        },
        Expr::BinaryOp(op, l, r) => {
            let lv = eval_ast(l, ctx, workspace, sets)?;
            match op {
                BinaryOp::Or => {
                    if lv.is_truthy() {
                        Ok(lv)
                    } else {
                        eval_ast(r, ctx, workspace, sets)
                    }
                },
                BinaryOp::And => {
                    if !lv.is_truthy() {
                        Ok(lv)
                    } else {
                        eval_ast(r, ctx, workspace, sets)
                    }
                },
                _ => {
                    let rv = eval_ast(r, ctx, workspace, sets)?;
                    match op {
                        BinaryOp::Eq => Ok(Value::Bool(lv.loose_eq(&rv))),
                        BinaryOp::Neq => Ok(Value::Bool(!lv.loose_eq(&rv))),
                        _ => Ok(Value::Bool(compare(*op, &lv, &rv))),
                    }
                },
            }
        },
    }
}

/// A relational comparison (`compare_spec`).
fn compare(op: BinaryOp, l: &Value, r: &Value) -> (b: bool)
    ensures
        b == compare_spec(op, l@, r@),
{
    let a = l.to_number();
    let c = r.to_number();
    if a.is_nan() || c.is_nan() {
        return false;
    }
    match op {
        BinaryOp::Lt => a.less_than(&c),
        BinaryOp::Gt => c.less_than(&a),
        BinaryOp::Lte => a.less_than(&c) || a.equals(&c),
        _ => c.less_than(&a) || a.equals(&c),
    }
}

/// The values of the arguments of a call, left to right (`eval_list`).
fn eval_args(
    args: &Vec<Expr>,
    ctx: &ExpressionContext,
    workspace: &str,
    sets: &Vec<FileSet>,
    call: &Expr,
) -> (r: Result<Vec<Value>, EvalError>)
    requires
        call matches Expr::FunctionCall(_, a) && a == *args,
    ensures
        match eval_list(args@.map_values(|e: Expr| e@), *ctx, workspace@, sets_of(sets@)) {
            Ok(vs) => r matches Ok(v) && values_view(v@) == vs,
            Err(s) => r matches Err(e) && e@ == s,
        },
    decreases call, 0nat,
{
    let ghost all = args@.map_values(|e: Expr| e@);
    let mut out: Vec<Value> = Vec::new();
    let mut i: usize = 0;
    assert(all.take(0) =~= Seq::<SpecExpr>::empty());
    assert(values_view(out@) =~= Seq::<SpecValue>::empty());
    while i < args.len()
        invariant
            i <= args@.len(),
            all == args@.map_values(|e: Expr| e@),
            call matches Expr::FunctionCall(_, a) && a == *args,
            eval_list(all.take(i as int), *ctx, workspace@, sets_of(sets@)) == Ok::<
                Seq<SpecValue>,
                SpecStop,
            >(values_view(out@)),
        decreases args@.len() - i,
    {
        proof {
            assert(decreases_to!(*call => call->FunctionCall_1));
            assert(decreases_to!(call->FunctionCall_1 => call->FunctionCall_1@));
            assert(decreases_to!(call->FunctionCall_1@ => call->FunctionCall_1@[i as int]));
        }
        let ghost t = all.take(i + 1);
        assert(t.drop_last() =~= all.take(i as int));
        assert(t.last() == args@[i as int]@);
        match eval_ast(&args[i], ctx, workspace, sets) {
            Ok(v) => {
                let ghost before = out@;
                let ghost vv = v@;
                out.push(v);
                assert(values_view(out@) =~= values_view(before).push(vv));
            },
            Err(e) => {
                proof {
                    lemma_eval_list_prefix_err(all, i as int + 1, *ctx, workspace@, sets_of(sets@));
                }
                return Err(e);
            },
        }
        i += 1;
    }
    assert(all.take(i as int) =~= all);
    Ok(out)
}

/// Once a prefix of the arguments fails, the whole list fails the same way.
proof fn lemma_eval_list_prefix_err(
    all: Seq<SpecExpr>,
    k: int,
    ctx: ExpressionContext,
    ws: Seq<char>,
    sets: Seq<(Seq<Seq<char>>, Seq<(Seq<char>, Seq<u8>)>)>,
)
    requires
        0 <= k <= all.len(),
        eval_list(all.take(k), ctx, ws, sets) is Err,
    ensures
        eval_list(all, ctx, ws, sets) == eval_list(all.take(k), ctx, ws, sets),
    decreases all.len() - k,
{
    if k < all.len() {
        assert(all.take(k + 1).drop_last() =~= all.take(k));
        lemma_eval_list_prefix_err(all, k + 1, ctx, ws, sets);
    } else {
        assert(all.take(k) =~= all);
    }
}

/// The value of an expression's text: the empty string for empty text,
/// otherwise what its tokens parse to, evaluated.  A text too long for
/// its tokens to be counted is refused.
pub open spec fn eval_text(
    s: Seq<char>,
    ctx: ExpressionContext,
    ws: Seq<char>,
    sets: Seq<(Seq<Seq<char>>, Seq<(Seq<char>, Seq<u8>)>)>,
) -> CallResult {
    if s.len() == 0 {
        Ok(SpecValue::Str(Seq::empty()))
    } else if s.len() + 2 >= usize::MAX {
        Err(eval_failure("expression too long"@))
    } else {
        match lex(s) {
            Err(e) => Err(SpecStop::Failed(e)),
            Ok(ts) => match parse_tokens(ts, 0) {
                Err(e) => Err(SpecStop::Failed(e)),
                Ok(a) => eval(a, ctx, ws, sets),
            },
        }
    }
}

/// Parses and evaluates the text of one expression (`eval_text`).
pub fn eval_expr_string(expr: &str, ctx: &ExpressionContext, workspace: &str, sets: &Vec<FileSet>) -> (r:
    Result<Value, EvalError>)
    ensures
        eval_matches(r, eval_text(expr@, *ctx, workspace@, sets_of(sets@))),
{
    let cs = chars_of(expr);
    let n = cs.len();
    if n == 0 {
        return Ok(Value::String(String::new()));
    }
    if n >= usize::MAX - 2 {
        return Err(EvalError::Failed(Error::ExpressionEval(String::from_str("expression too long"))));
    }
    let mut lexer = Lexer::new(expr);
    let tokens = match lexer.tokenize() {
        Ok(t) => t,
        Err(e) => {
            return Err(EvalError::Failed(e));
        },
    };
    proof {
        lemma_lex_len(expr@, 0);
    }
    let mut parser = Parser::new(tokens);
    let ast = match parser.parse() {
        Ok(a) => a,
        Err(e) => {
            return Err(EvalError::Failed(e));
        },
    };
    eval_ast(&ast, ctx, workspace, sets)
}

/// One step of `${{ }}` interpolation of `s` (`input` being the original
/// text, which an error names): `None` when `s` holds no `${{`; otherwise
/// the first `${{ ... }}` replaced by the text of the value of what it
/// encloses (trimmed), or why that failed.
pub open spec fn interp_step(
    input: Seq<char>,
    s: Seq<char>,
    ctx: ExpressionContext,
    ws: Seq<char>,
    sets: Seq<(Seq<Seq<char>>, Seq<(Seq<char>, Seq<u8>)>)>,
) -> Option<Result<Seq<char>, SpecStop>> {
    match find_from(s, "${{"@, 0) {
        None => None,
        Some(start) => match find_from(s.skip(start), "}}"@, 0) {
            None => Some(Err(eval_failure("unclosed expression in: "@ + input))),
            Some(rel) => {
                let end = start + rel + 2;
                match eval_text(trim_of(s.subrange(start + 3, end - 2)), ctx, ws, sets) {
                    Err(e) => Some(Err(e)),
                    Ok(v) => Some(Ok(s.take(start) + value_text(v) + s.skip(end))),
                }
            },
        },
    }
}

/// Interpolation of `s` in at most `n` steps: its result, or `None` when
/// more steps are needed.
pub open spec fn interp_fuel(
    input: Seq<char>,
    s: Seq<char>,
    n: nat,
    ctx: ExpressionContext,
    ws: Seq<char>,
    sets: Seq<(Seq<Seq<char>>, Seq<(Seq<char>, Seq<u8>)>)>,
) -> Option<Result<Seq<char>, SpecStop>>
    decreases n,
{
    if n == 0 {
        None
    } else {
        match interp_step(input, s, ctx, ws, sets) {
            None => Some(Ok(s)),
            Some(Err(e)) => Some(Err(e)),
            Some(Ok(t)) => interp_fuel(input, t, (n - 1) as nat, ctx, ws, sets),
        }
    }
}

/// Once interpolation ends within `n` steps, it ends the same way with more.
pub proof fn lemma_interp_fuel_mono(
    input: Seq<char>,
    s: Seq<char>,
    n: nat,
    m: nat,
    ctx: ExpressionContext,
    ws: Seq<char>,
    sets: Seq<(Seq<Seq<char>>, Seq<(Seq<char>, Seq<u8>)>)>,
)
    requires
        n <= m,
        interp_fuel(input, s, n, ctx, ws, sets) is Some,
    ensures
        interp_fuel(input, s, m, ctx, ws, sets) == interp_fuel(input, s, n, ctx, ws, sets),
    decreases n,
{
    if n > 0 {
        match interp_step(input, s, ctx, ws, sets) {
            Some(Ok(t)) => {
                lemma_interp_fuel_mono(input, t, (n - 1) as nat, (m - 1) as nat, ctx, ws, sets);
            },
            _ => {},
        }
    }
}

/// Runs one interpolation step on `s` (`interp_step`); `None` when `s`
/// holds no `${{`.
fn interp_once(
    input: &str,
    s: &String,
    ctx: &ExpressionContext,
    workspace: &str,
    sets: &Vec<FileSet>,
) -> (r: Option<Result<String, EvalError>>)
    ensures
        match interp_step(input@, s@, *ctx, workspace@, sets_of(sets@)) {
            None => r is None,
            Some(Ok(t)) => r matches Some(Ok(x)) && x@ == t,
            Some(Err(e)) => r matches Some(Err(x)) && x@ == e,
        },
{
    let cs = chars_of(s.as_str());
    let n = cs.len();
    let open = chars_of("${{");
    let close = chars_of("}}");
    proof {
        reveal_strlit("${{");
        reveal_strlit("}}");
    }
    match find_chars(cs.as_slice(), open.as_slice(), 0) {
        None => None,
        Some(start) => {
            proof {
                lemma_find_from(cs@, open@, 0);
            }
            let rest = string_of_range(cs.as_slice(), start, n);
            let rc = chars_of(rest.as_str());
            assert(rc@ =~= s@.skip(start as int));
            match find_chars(rc.as_slice(), close.as_slice(), 0) {
                None => {
                    let mut m = String::from_str("unclosed expression in: ");
                    push_str(&mut m, input);
                    Some(Err(EvalError::Failed(Error::ExpressionEval(m))))
                },
                Some(rel) => {
                    proof {
                        lemma_find_from(rc@, close@, 0);
                        assert(rc@[0] == '$');
                        assert(rc@[1] == '{');
                        assert(rc@[2] == '{');
                        if rel < 3 {
                            assert(rc@.subrange(rel as int, rel + 2)[0] == rc@[rel as int]);
                        }
                    }
                    let end = start + rel + 2;
                    let inner = string_of_range(cs.as_slice(), start + 3, end - 2);
                    let expr = trim(inner.as_str());
                    match eval_expr_string(expr.as_str(), ctx, workspace, sets) {
                        Err(e) => Some(Err(e)),
                        Ok(v) => {
                            let mut out = string_of_range(cs.as_slice(), 0, start);
                            push_str(&mut out, v.to_str().as_str());
                            let tail = string_of_range(cs.as_slice(), end, n);
                            push_str(&mut out, tail.as_str());
                            assert(out@ =~= s@.take(start as int) + value_text(v@) + s@.skip(
                                end as int,
                            ));
                            Some(Ok(out))
                        },
                    }
                },
            }
        },
    }
}

/// Whether the interpolation of `input` ends.
pub open spec fn interp_ends(
    input: Seq<char>,
    ctx: ExpressionContext,
    ws: Seq<char>,
    sets: Seq<(Seq<Seq<char>>, Seq<(Seq<char>, Seq<u8>)>)>,
) -> bool {
    exists|n: nat| #[trigger] interp_fuel(input, input, n, ctx, ws, sets) is Some
}

/// The interpolation of `input` when it ends (see `interp_ends`).
pub open spec fn interp_result(
    input: Seq<char>,
    ctx: ExpressionContext,
    ws: Seq<char>,
    sets: Seq<(Seq<Seq<char>>, Seq<(Seq<char>, Seq<u8>)>)>,
) -> Result<Seq<char>, SpecStop> {
    match interp_fuel(
        input,
        input,
        choose|n: nat| #[trigger] interp_fuel(input, input, n, ctx, ws, sets) is Some,
        ctx,
        ws,
        sets,
    ) {
        Some(res) => res,
        None => Ok(input),
    }
}

/// Evaluates the `${{ }}` expressions of a string, each replaced by the
/// text of its value, until none is left (`interp_fuel`); a string without
/// `${{` comes back unchanged.  Replaced text is scanned again, so the
/// interpolation of some inputs never ends: those are left out.
#[verifier::loop_isolation(false)]
pub fn evaluate_expression(input: &str, ctx: &ExpressionContext, workspace: &str, sets: &Vec<FileSet>) -> (r:
    Result<String, EvalError>)
    requires
        interp_ends(input@, *ctx, workspace@, sets_of(sets@)),
    ensures
        forall|n: nat|
            #[trigger] interp_fuel(input@, input@, n, *ctx, workspace@, sets_of(sets@)) matches Some(
                res,
            ) ==> match res {
                Ok(t) => r matches Ok(x) && x@ == t,
                Err(e) => r matches Err(x) && x@ == e,
            },
        !contains_seq(input@, "${{"@) ==> (r matches Ok(x) && x@ == input@),
        match interp_result(input@, *ctx, workspace@, sets_of(sets@)) {
            Ok(t) => r matches Ok(x) && x@ == t,
            Err(e) => r matches Err(x) && x@ == e,
        },
{
    let ghost ws = workspace@;
    let ghost ss = sets_of(sets@);
    let ghost fuel = choose|n: nat| #[trigger] interp_fuel(input@, input@, n, *ctx, ws, ss) is Some;
    let ghost goal = interp_fuel(input@, input@, fuel, *ctx, ws, ss);
    proof {
        assert forall|n: nat| #[trigger]
            interp_fuel(input@, input@, n, *ctx, ws, ss) is Some implies interp_fuel(
            input@,
            input@,
            n,
            *ctx,
            ws,
            ss,
        ) == goal by {
            if n <= fuel {
                lemma_interp_fuel_mono(input@, input@, n, fuel, *ctx, ws, ss);
            } else {
                lemma_interp_fuel_mono(input@, input@, fuel, n, *ctx, ws, ss);
            }
        }
        if !contains_seq(input@, "${{"@) {
            assert(find_from(input@, "${{"@, 0) is None) by {
                crate::text::lemma_find_from(input@, "${{"@, 0);
            }
            assert(interp_fuel(input@, input@, 1, *ctx, ws, ss) == Some(
                Ok::<Seq<char>, SpecStop>(input@),
            ));
        }
    }
    let mut result = String::from_str(input);
    let ghost mut left: nat = fuel;
    loop
        invariant
            interp_fuel(input@, result@, left, *ctx, ws, ss) == goal,
            goal is Some,
            ws == workspace@,
            ss == sets_of(sets@),
        decreases left,
    {
        let step = interp_once(input, &result, ctx, workspace, sets);
        match step {
            None => {
                return Ok(result);
            },
            Some(Err(e)) => {
                return Err(e);
            },
            Some(Ok(t)) => {
                result = t;
                proof {
                    left = (left - 1) as nat;
                }
            },
        }
    }
}

/// Like `evaluate_expression`, with at most `max_steps` replacements:
/// `None` when more would be needed.
#[verifier::loop_isolation(false)]
pub fn evaluate_expression_within(
    input: &str,
    ctx: &ExpressionContext,
    workspace: &str,
    sets: &Vec<FileSet>,
    max_steps: usize,
) -> (r: Result<Option<String>, EvalError>)
    ensures
        match interp_fuel(input@, input@, max_steps as nat + 1, *ctx, workspace@, sets_of(sets@)) {
            Some(Ok(t)) => r matches Ok(Some(x)) && x@ == t,
            Some(Err(e)) => r matches Err(x) && x@ == e,
            None => r matches Ok(None),
        },
{
    let ghost ws = workspace@;
    let ghost ss = sets_of(sets@);
    let ghost goal = interp_fuel(input@, input@, max_steps as nat + 1, *ctx, ws, ss);
    let mut result = String::from_str(input);
    let mut left: usize = max_steps;
    loop
        invariant
            interp_fuel(input@, result@, left as nat + 1, *ctx, ws, ss) == goal,
            ws == workspace@,
            ss == sets_of(sets@),
        decreases left,
    {
        let step = interp_once(input, &result, ctx, workspace, sets);
        match step {
            None => {
                return Ok(Some(result));
            },
            Some(Err(e)) => {
                return Err(e);
            },
            Some(Ok(t)) => {
                if left == 0 {
                    assert(interp_fuel(input@, result@, 1, *ctx, ws, ss) == interp_fuel(
                        input@,
                        t@,
                        0,
                        *ctx,
                        ws,
                        ss,
                    ));
                    return Ok(None);
                }
                result = t;
                left -= 1;
            },
        }
    }
}

/// Whether the text of an interpolated condition counts as true: not empty
/// (after trimming, ignoring case) and none of `false`, `0`, `null`,
/// `undefined`.
pub open spec fn truthy_text(s: Seq<char>) -> bool {
    let v = lowercase_of(trim_of(s));
    v.len() > 0 && v != "false"@ && v != "0"@ && v != "null"@ && v != "undefined"@
}

/// Whether the text of an interpolated condition counts as true
/// (`truthy_text`).
pub fn is_truthy_str(s: &str) -> (b: bool)
    ensures
        b == truthy_text(s@),
{
    let t = trim(s);
    let v = to_lowercase(t.as_str());
    proof {
        reveal_strlit("");
    }
    let empty = str_eq(v.as_str(), "");
    assert(empty == (v@.len() == 0)) by {
        if v@.len() == 0 {
            assert(v@ =~= ""@);
        }
    }
    !empty && !str_eq(v.as_str(), "false") && !str_eq(v.as_str(), "0") && !str_eq(v.as_str(), "null")
        && !str_eq(v.as_str(), "undefined")
}

/// The outcome of an `if:` condition: with `${{ }}` markers, the
/// interpolated text judged by `truthy_text`; without them, the condition
/// evaluated as one expression and judged by truthiness.  The condition is
/// trimmed first.
pub open spec fn condition_outcome(
    c: Seq<char>,
    ctx: ExpressionContext,
    ws: Seq<char>,
    sets: Seq<(Seq<Seq<char>>, Seq<(Seq<char>, Seq<u8>)>)>,
    n: nat,
) -> Option<Result<bool, SpecStop>> {
    let t = trim_of(c);
    if contains_seq(t, "${{"@) {
        match interp_fuel(t, t, n, ctx, ws, sets) {
            Some(Ok(x)) => Some(Ok(truthy_text(x))),
            Some(Err(e)) => Some(Err(e)),
            None => None,
        }
    } else {
        match eval_text(t, ctx, ws, sets) {
            Ok(v) => Some(Ok(truthy(v))),
            Err(e) => Some(Err(e)),
        }
    }
}

/// The outcome of an `if:` condition whose interpolation ends.
pub open spec fn condition_result(
    c: Seq<char>,
    ctx: ExpressionContext,
    ws: Seq<char>,
    sets: Seq<(Seq<Seq<char>>, Seq<(Seq<char>, Seq<u8>)>)>,
) -> Result<bool, SpecStop> {
    let t = trim_of(c);
    if contains_seq(t, "${{"@) {
        match interp_result(t, ctx, ws, sets) {
            Ok(x) => Ok(truthy_text(x)),
            Err(e) => Err(e),
        }
    } else {
        match eval_text(t, ctx, ws, sets) {
            Ok(v) => Ok(truthy(v)),
            Err(e) => Err(e),
        }
    }
}

/// Whether the interpolations an `if:` condition needs end.
pub open spec fn condition_ends(
    c: Seq<char>,
    ctx: ExpressionContext,
    ws: Seq<char>,
    sets: Seq<(Seq<Seq<char>>, Seq<(Seq<char>, Seq<u8>)>)>,
) -> bool {
    contains_seq(trim_of(c), "${{"@) ==> interp_ends(trim_of(c), ctx, ws, sets)
}

/// Evaluates an `if:` condition (`condition_outcome`).
pub fn evaluate_condition(condition: &str, ctx: &ExpressionContext, workspace: &str, sets: &Vec<FileSet>) -> (r:
    Result<bool, EvalError>)
    requires
        condition_ends(condition@, *ctx, workspace@, sets_of(sets@)),
    ensures
        forall|n: nat|
            #[trigger] condition_outcome(condition@, *ctx, workspace@, sets_of(sets@), n) matches Some(
                res,
            ) ==> match res {
                Ok(b) => r == Ok::<bool, EvalError>(b),
                Err(e) => r matches Err(x) && x@ == e,
            },
        match condition_result(condition@, *ctx, workspace@, sets_of(sets@)) {
            Ok(b) => r == Ok::<bool, EvalError>(b),
            Err(e) => r matches Err(x) && x@ == e,
        },
{
    let t = trim(condition);
    let tc = chars_of(t.as_str());
    let mark = chars_of("${{");
    if crate::text::contains_chars(tc.as_slice(), mark.as_slice()) {
        let v = evaluate_expression(t.as_str(), ctx, workspace, sets)?;
        Ok(is_truthy_str(v.as_str()))
    } else {
        let v = eval_expr_string(t.as_str(), ctx, workspace, sets)?;
        Ok(v.is_truthy())
    }
}

/// Whether the interpolation of `input` ends within `max_steps`
/// replacements (then it ends: `interp_ends`).
pub fn interp_ends_within(
    input: &str,
    ctx: &ExpressionContext,
    workspace: &str,
    sets: &Vec<FileSet>,
    max_steps: usize,
) -> (b: bool)
    ensures
        b == interp_fuel(input@, input@, max_steps as nat + 1, *ctx, workspace@, sets_of(sets@)) is Some,
        b ==> interp_ends(input@, *ctx, workspace@, sets_of(sets@)),
{
    match evaluate_expression_within(input, ctx, workspace, sets, max_steps) {
        Ok(Some(_)) => true,
        Ok(None) => false,
        Err(_) => true,
    }
}

/// Whether the interpolation an `if:` condition needs ends within
/// `max_steps` replacements (then `condition_ends` holds); a condition
/// without `${{` needs none.
pub fn condition_ends_within(
    condition: &str,
    ctx: &ExpressionContext,
    workspace: &str,
    sets: &Vec<FileSet>,
    max_steps: usize,
) -> (b: bool)
    ensures
        b == (contains_seq(trim_of(condition@), "${{"@) ==> interp_fuel(
            trim_of(condition@),
            trim_of(condition@),
            max_steps as nat + 1,
            *ctx,
            workspace@,
            sets_of(sets@),
        ) is Some),
        b ==> condition_ends(condition@, *ctx, workspace@, sets_of(sets@)),
{
    let t = trim(condition);
    let tc = chars_of(t.as_str());
    let mark = chars_of("${{");
    if crate::text::contains_chars(tc.as_slice(), mark.as_slice()) {
        interp_ends_within(t.as_str(), ctx, workspace, sets, max_steps)
    } else {
        true
    }
}

/// `>` is the converse of `<` and `>=` that of `<=`: `l > r` holds exactly
/// when `r < l`, which for two numbers (neither NaN) is `r` coming before
/// `l` in number order; so no value is greater than itself, and a value
/// that is a number is at least itself.
pub proof fn law_greater_is_converse_of_less(l: SpecValue, r: SpecValue)
    ensures
        compare_spec(BinaryOp::Gt, l, r) == compare_spec(BinaryOp::Lt, r, l),
        compare_spec(BinaryOp::Gte, l, r) == compare_spec(BinaryOp::Lte, r, l),
        !(value_number(l) is NaN) && !(value_number(r) is NaN) ==> (compare_spec(BinaryOp::Gt, l, r)
            <==> num_lt(value_number(r), value_number(l))),
        !compare_spec(BinaryOp::Gt, l, l),
        !compare_spec(BinaryOp::Lt, l, l),
        compare_spec(BinaryOp::Gte, l, l) == !(value_number(l) is NaN),
        !(compare_spec(BinaryOp::Gt, l, r) && compare_spec(BinaryOp::Lt, l, r)),
{
    let a = value_number(l);
    let b = value_number(r);
    crate::number::lemma_num_lt_irreflexive(a);
    crate::number::lemma_num_lt_asymmetric(a, b);
}

/// Evaluating `l > r` gives what evaluating `r < l` gives, once both sides
/// have values; `e > e` is false for every such expression, and for two
/// numbers `l > r` is true exactly when `r` comes before `l` in number
/// order.
pub proof fn law_evaluate_greater(
    l: SpecExpr,
    r: SpecExpr,
    ctx: ExpressionContext,
    ws: Seq<char>,
    sets: Seq<(Seq<Seq<char>>, Seq<(Seq<char>, Seq<u8>)>)>,
)
    requires
        eval(l, ctx, ws, sets) is Ok,
        eval(r, ctx, ws, sets) is Ok,
    ensures
        eval(SpecExpr::BinaryOp(BinaryOp::Gt, Box::new(l), Box::new(r)), ctx, ws, sets) == eval(
            SpecExpr::BinaryOp(BinaryOp::Lt, Box::new(r), Box::new(l)),
            ctx,
            ws,
            sets,
        ),
        eval(SpecExpr::BinaryOp(BinaryOp::Gt, Box::new(l), Box::new(l)), ctx, ws, sets) == Ok::<
            SpecValue,
            SpecStop,
        >(SpecValue::Bool(false)),
        ({
            let a = value_number(eval(l, ctx, ws, sets)->Ok_0);
            let b = value_number(eval(r, ctx, ws, sets)->Ok_0);
            !(a is NaN) && !(b is NaN) ==> eval(
                SpecExpr::BinaryOp(BinaryOp::Gt, Box::new(l), Box::new(r)),
                ctx,
                ws,
                sets,
            ) == Ok::<SpecValue, SpecStop>(SpecValue::Bool(num_lt(b, a)))
        }),
{
    law_greater_is_converse_of_less(eval(l, ctx, ws, sets)->Ok_0, eval(r, ctx, ws, sets)->Ok_0);
    law_greater_is_converse_of_less(eval(l, ctx, ws, sets)->Ok_0, eval(l, ctx, ws, sets)->Ok_0);
}

} // verus!
