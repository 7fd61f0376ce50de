use enact_core::functions::{EvalError, FileSet, call_function, hash_files};
use enact_core::number::parse_number_text;
use enact_core::value::Value;

fn parse_json(s: &str) -> Result<Value, EvalError> {
    call_function("fromJSON", &vec![Value::String(s.to_string())], "/", &Vec::new())
}

fn ws() -> &'static str {
    "/tmp"
}

fn call(name: &str, args: Vec<Value>) -> Value {
    call_function(name, &args, ws(), &Vec::new()).ok().unwrap()
}

fn is_true(v: &Value) -> bool {
    matches!(v, Value::Bool(true))
}

#[test]
fn test_contains_string() {
    let args = vec![Value::String("Hello World".into()), Value::String("hello".into())];
    assert!(is_true(&call("contains", args)));
}

#[test]
fn test_contains_array() {
    let args = vec![
        Value::Array(vec![Value::String("foo".into()), Value::String("bar".into())]),
        Value::String("Foo".into()),
    ];
    assert!(is_true(&call("contains", args)));
}

#[test]
fn test_starts_with() {
    let args = vec![Value::String("Hello World".into()), Value::String("hello".into())];
    assert!(is_true(&call("startsWith", args)));
}

#[test]
fn test_ends_with() {
    let args = vec![Value::String("Hello World".into()), Value::String("WORLD".into())];
    assert!(is_true(&call("endsWith", args)));
}

#[test]
fn functions_test_format() {
    let args = vec![
        Value::String("Hello {0}, you are {1}!".into()),
        Value::String("world".into()),
        Value::Number(parse_number_text("42")),
    ];
    assert_eq!(call("format", args).to_str(), "Hello world, you are 42!");
}

#[test]
fn test_format_escape_braces() {
    let args = vec![Value::String("{{0}} = {0}".into()), Value::String("x".into())];
    assert_eq!(call("format", args).to_str(), "{0} = x");
}

#[test]
fn test_join() {
    let args = vec![
        Value::Array(vec![
            Value::String("a".into()),
            Value::String("b".into()),
            Value::String("c".into()),
        ]),
        Value::String(", ".into()),
    ];
    assert_eq!(call("join", args).to_str(), "a, b, c");
}

#[test]
fn test_to_json() {
    let args = vec![Value::Bool(true)];
    assert_eq!(call("toJSON", args).to_str(), "true");
}

#[test]
fn test_from_json() {
    let args = vec![Value::String(r#"{"key": "value"}"#.into())];
    match call("fromJSON", args) {
        Value::Object(map) => assert_eq!(map.get("key").unwrap().to_str(), "value"),
        _ => panic!("expected object"),
    }
}

#[test]
fn test_hash_files_empty() {
    let args = vec![Value::String("nonexistent_pattern_*.xyz".into())];
    let sets = vec![FileSet {
        patterns: vec!["/tmp/nonexistent_pattern_*.xyz".to_string()],
        files: Vec::new(),
    }];
    let result = call_function("hashFiles", &args, ws(), &sets).ok().unwrap();
    assert_eq!(result.to_str(), "");
}

#[test]
fn arity_and_unknown_names() {
    match call_function("contains", &vec![Value::Null], ws(), &Vec::new()) {
        Err(EvalError::Failed(e)) => assert_eq!(
            e.to_string(),
            "expression evaluation error: contains() expects 2-2 arguments, got 1"
        ),
        _ => panic!("expected an error"),
    }
    match call_function("format", &vec![], ws(), &Vec::new()) {
        Err(EvalError::Failed(e)) => assert_eq!(
            e.to_string(),
            "expression evaluation error: format() requires at least 1 argument"
        ),
        _ => panic!("expected an error"),
    }
    match call_function("Contains", &vec![], ws(), &Vec::new()) {
        Err(EvalError::Failed(e)) => assert_eq!(e.to_string(), "unknown function: Contains"),
        _ => panic!("expected an error"),
    }
    assert!(is_true(&call("startswith", vec![Value::String("ab".into()), Value::String("A".into())])));
}

#[test]
fn format_edge_cases() {
    let r = call(
        "format",
        vec![Value::String("{1}{x}{ {5} }}".into()), Value::String("a".into()), Value::Bool(true)],
    );
    assert_eq!(r.to_str(), "true }");
    let r = call("format", vec![Value::String("{".into())]);
    assert_eq!(r.to_str(), "{");
}

#[test]
fn join_defaults_and_to_json_pretty() {
    let arr = Value::Array(vec![Value::String("a".into()), Value::Null]);
    assert_eq!(call("join", vec![arr]).to_str(), "a,");
    assert_eq!(call("join", vec![Value::String("x".into())]).to_str(), "x");
    let obj = parse_json(r#"{"b": [1, "x"], "a": {}}"#).ok().unwrap();
    assert_eq!(
        call("toJSON", vec![obj]).to_str(),
        "{\n  \"a\": {},\n  \"b\": [\n    1.0,\n    \"x\"\n  ]\n}"
    );
}

#[test]
fn from_json_failure_message() {
    match call_function("fromJSON", &vec![Value::String("{".into())], ws(), &Vec::new()) {
        Err(EvalError::Failed(e)) => assert!(e.to_string().starts_with("expression evaluation error: fromJSON failed: ")),
        _ => panic!("expected an error"),
    }
}

#[test]
fn hash_files_sorts_by_path_and_concatenates() {
    let files = vec![
        ("/w/b".to_string(), b"c".to_vec()),
        ("/w/a".to_string(), b"ab".to_vec()),
    ];
    assert_eq!(
        hash_files(&files),
        "ba7816bf8f01cfea414140de5dae2223b00361a396177a9cb410ff61f20015ad"
    );
    assert_eq!(hash_files(&Vec::new()), "");
}
