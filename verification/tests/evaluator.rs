use enact_core::value::Value;
use enact_core::context::{ExpressionContext, JobStatus};
use enact_core::evaluator::{
    condition_ends_within, evaluate_condition, evaluate_expression, evaluate_expression_within,
    interp_ends_within, is_truthy_str,
};
use enact_core::functions::{EvalError, FileSet, call_function};

fn parse_json(s: &str) -> Result<Value, EvalError> {
    call_function("fromJSON", &vec![Value::String(s.to_string())], "/", &Vec::new())
}

fn ws() -> &'static str {
    "/tmp"
}

fn no_files() -> Vec<FileSet> {
    Vec::new()
}

fn make_ctx() -> ExpressionContext {
    let mut ctx = ExpressionContext::new();
    ctx.github = parse_json(
        r#"{
            "ref": "refs/heads/main",
            "event_name": "push",
            "event": {
                "pull_request": {
                    "head": { "ref": "feature-branch" },
                    "labels": [
                        { "name": "bug" },
                        { "name": "enhancement" }
                    ]
                }
            },
            "repository": "owner/repo"
        }"#,
    )
    .ok()
    .unwrap();
    ctx.env.insert("CI".into(), "true".into());
    ctx.secrets.insert("MY_TOKEN".into(), "abc123".into());
    ctx.matrix = parse_json(r#"{"os": "ubuntu-latest"}"#).ok().unwrap();
    ctx.steps = parse_json(r#"{"build": {"outputs": {"result": "ok"}, "outcome": "success"}}"#)
        .ok()
        .unwrap();
    ctx.runner.insert("os".into(), "Linux".into());
    ctx
}

fn eval(s: &str, ctx: &ExpressionContext) -> String {
    evaluate_expression(s, ctx, ws(), &no_files()).ok().unwrap()
}

fn cond(s: &str, ctx: &ExpressionContext) -> bool {
    evaluate_condition(s, ctx, ws(), &no_files()).ok().unwrap()
}

#[test]
fn test_simple_context_access() {
    let ctx = make_ctx();
    assert_eq!(eval("${{ github.ref }}", &ctx), "refs/heads/main");
}

#[test]
fn test_deep_context_access() {
    let ctx = make_ctx();
    assert_eq!(eval("${{ github.event.pull_request.head.ref }}", &ctx), "feature-branch");
}

#[test]
fn test_env_context() {
    let ctx = make_ctx();
    assert_eq!(eval("${{ env.CI }}", &ctx), "true");
}

#[test]
fn test_step_outputs() {
    let ctx = make_ctx();
    assert_eq!(eval("${{ steps.build.outputs.result }}", &ctx), "ok");
}

#[test]
fn test_comparison() {
    let ctx = make_ctx();
    assert_eq!(eval("${{ github.event_name == 'push' }}", &ctx), "true");
}

#[test]
fn test_logical_and() {
    let ctx = make_ctx();
    assert_eq!(
        eval("${{ github.ref == 'refs/heads/main' && env.CI == 'true' }}", &ctx),
        "true"
    );
}

#[test]
fn evaluator_test_negation() {
    let ctx = make_ctx();
    assert_eq!(eval("${{ !failure() }}", &ctx), "true");
}

#[test]
fn test_string_interpolation() {
    let ctx = make_ctx();
    assert_eq!(eval("Hello ${{ github.event_name }} world", &ctx), "Hello push world");
}

#[test]
fn test_condition_evaluation() {
    let ctx = make_ctx();
    assert!(cond("success()", &ctx));
    assert!(!cond("failure()", &ctx));
    assert!(cond("github.event_name == 'push'", &ctx));
}

#[test]
fn test_contains_function() {
    let ctx = make_ctx();
    assert_eq!(eval("${{ contains(github.repository, 'owner') }}", &ctx), "true");
}

#[test]
fn test_starts_with_function() {
    let ctx = make_ctx();
    assert_eq!(eval("${{ startsWith(github.ref, 'refs/heads/') }}", &ctx), "true");
}

#[test]
fn test_or_returns_value() {
    let ctx = make_ctx();
    assert_eq!(eval("${{ matrix.os || 'default' }}", &ctx), "ubuntu-latest");
}

#[test]
fn test_or_fallback() {
    let ctx = make_ctx();
    assert_eq!(eval("${{ matrix.nonexistent || 'fallback' }}", &ctx), "fallback");
}

#[test]
fn test_format_function() {
    let ctx = make_ctx();
    assert_eq!(eval("${{ format('Hello {0}!', 'world') }}", &ctx), "Hello world!");
}

#[test]
fn test_relational_comparison() {
    let ctx = make_ctx();
    assert_eq!(eval("${{ 1 < 2 }}", &ctx), "true");
    assert_eq!(eval("${{ 3 >= 3 }}", &ctx), "true");
}

#[test]
fn test_undefined_returns_empty() {
    let ctx = make_ctx();
    assert_eq!(eval("${{ github.nonexistent_field }}", &ctx), "");
}

#[test]
fn test_always() {
    let ctx = make_ctx();
    assert!(cond("always()", &ctx));
}

#[test]
fn wildcard_and_array_filters() {
    let ctx = make_ctx();
    assert_eq!(
        eval("${{ github.event.pull_request.labels.*.name }}", &ctx),
        "[\"bug\",\"enhancement\"]"
    );
    assert_eq!(eval("${{ github.event.pull_request.labels[1].name }}", &ctx), "enhancement");
    assert!(evaluate_expression("${{ github.event.pull_request.labels.1.name }}", &ctx, ws(), &no_files()).is_err());
    assert_eq!(eval("${{ github.event.pull_request.labels.name }}", &ctx), "[\"bug\",\"enhancement\"]");
    assert_eq!(eval("${{ contains(github.event.pull_request.labels.*.name, 'BUG') }}", &ctx), "true");
    assert_eq!(eval("${{ matrix['os'] }}", &ctx), "ubuntu-latest");
}

#[test]
fn status_functions_follow_job_status() {
    let mut ctx = make_ctx();
    ctx.job_status = JobStatus::Failure;
    assert!(cond("failure()", &ctx));
    assert!(!cond("success()", &ctx));
    ctx.job_status = JobStatus::Cancelled;
    assert!(cond("cancelled()", &ctx));
}

#[test]
fn conditions_with_markers_use_text_truthiness() {
    let ctx = make_ctx();
    assert!(!cond("${{ false }}", &ctx));
    assert!(!cond(" ${{ 'NULL' }} ", &ctx));
    assert!(cond("${{ 'yes' }}", &ctx));
    assert!(is_truthy_str(" True "));
    assert!(!is_truthy_str("undefined"));
    assert!(!is_truthy_str("  "));
}

#[test]
fn errors_and_plain_text() {
    let ctx = make_ctx();
    assert_eq!(eval("no markers here", &ctx), "no markers here");
    match evaluate_expression("${{ github.ref ", &ctx, ws(), &no_files()) {
        Err(EvalError::Failed(e)) => assert_eq!(
            e.to_string(),
            "expression evaluation error: unclosed expression in: ${{ github.ref "
        ),
        _ => panic!("expected an error"),
    }
    match evaluate_expression("${{ nope(1) }}", &ctx, ws(), &no_files()) {
        Err(EvalError::Failed(e)) => assert_eq!(e.to_string(), "unknown function: nope"),
        _ => panic!("expected an error"),
    }
    assert_eq!(eval("${{ }}x", &ctx), "x");
    assert_eq!(eval("${{ secrets.MY_TOKEN }}-${{ runner.os }}", &ctx), "abc123-Linux");
}

#[test]
fn interpolation_budget() {
    let mut ctx = make_ctx();
    ctx.env.insert("LOOP".into(), "${{ env.LOOP }}".into());
    let r = evaluate_expression_within("${{ env.LOOP }}", &ctx, ws(), &no_files(), 5);
    assert!(matches!(r, Ok(None)));
    let r = evaluate_expression_within("a ${{ env.CI }}", &ctx, ws(), &no_files(), 5);
    assert!(matches!(r, Ok(Some(ref s)) if s == "a true"));
}

#[test]
fn hash_files_asks_for_files_then_hashes_them() {
    let ctx = make_ctx();
    match evaluate_expression("${{ hashFiles('*.lock') }}", &ctx, ws(), &no_files()) {
        Err(EvalError::NeedFiles(p)) => assert_eq!(p, vec!["/tmp/*.lock".to_string()]),
        _ => panic!("expected a request for files"),
    }
    let sets = vec![FileSet {
        patterns: vec!["/tmp/*.lock".to_string()],
        files: vec![("/tmp/a.lock".to_string(), b"abc".to_vec())],
    }];
    let h = evaluate_expression("${{ hashFiles('*.lock') }}", &ctx, ws(), &sets).ok().unwrap();
    assert_eq!(h, "ba7816bf8f01cfea414140de5dae2223b00361a396177a9cb410ff61f20015ad");
}

#[test]
fn termination_checks() {
    let mut ctx = make_ctx();
    ctx.env.insert("LOOP".into(), "${{ env.LOOP }}".into());
    assert!(!interp_ends_within("${{ env.LOOP }}", &ctx, ws(), &no_files(), 50));
    assert!(interp_ends_within("a ${{ env.CI }}", &ctx, ws(), &no_files(), 50));
    assert!(interp_ends_within("plain", &ctx, ws(), &no_files(), 0));
    assert!(!condition_ends_within("  ${{ env.LOOP }} ", &ctx, ws(), &no_files(), 50));
    assert!(condition_ends_within("env.LOOP == 'x'", &ctx, ws(), &no_files(), 0));
}
