use enact_core::functions::{EvalError, call_function};
use enact_core::number::{parse_number_text, Number};
use enact_core::value::{to_json_text, ObjectMap, Value};

fn parse_json(s: &str) -> Result<Value, EvalError> {
    call_function("fromJSON", &vec![Value::String(s.to_string())], "/", &Vec::new())
}

fn n(x: f64) -> Number {
    parse_number_text(&format!("{x}"))
}

fn f(v: Number) -> f64 {
    v.to_text().parse().unwrap()
}

#[test]
fn test_truthiness() {
    assert!(!Value::Null.is_truthy());
    assert!(!Value::Bool(false).is_truthy());
    assert!(!Value::Number(n(0.0)).is_truthy());
    assert!(!Value::String(String::new()).is_truthy());
    assert!(Value::Bool(true).is_truthy());
    assert!(Value::Number(n(1.0)).is_truthy());
    assert!(Value::String("hello".into()).is_truthy());
    assert!(Value::Array(vec![]).is_truthy());
}

#[test]
fn test_to_number() {
    assert_eq!(f(Value::Null.to_number()), 0.0);
    assert_eq!(f(Value::Bool(true).to_number()), 1.0);
    assert_eq!(f(Value::Bool(false).to_number()), 0.0);
    assert_eq!(f(Value::String("42".into()).to_number()), 42.0);
    assert_eq!(f(Value::String("0xFF".into()).to_number()), 255.0);
    assert!(Value::String("abc".into()).to_number().is_nan());
    assert_eq!(f(Value::String("".into()).to_number()), 0.0);
}

#[test]
fn test_to_str() {
    assert_eq!(Value::Null.to_str(), "");
    assert_eq!(Value::Bool(true).to_str(), "true");
    assert_eq!(Value::Number(n(42.0)).to_str(), "42");
    assert_eq!(Value::Number(n(1.2)).to_str(), "1.2");
}

#[test]
fn test_loose_eq() {
    assert!(Value::Null.loose_eq(&Value::Null));
    assert!(Value::Bool(true).loose_eq(&Value::Bool(true)));
    assert!(!Value::Bool(true).loose_eq(&Value::Bool(false)));
    assert!(Value::String("Hello".into()).loose_eq(&Value::String("hello".into())));
    assert!(Value::Bool(true).loose_eq(&Value::Number(n(1.0))));
    assert!(Value::Bool(false).loose_eq(&Value::Number(n(0.0))));
    assert!(Value::Null.loose_eq(&Value::Number(n(0.0))));
    assert!(!Value::String("abc".into()).loose_eq(&Value::String("def".into())));
}

#[test]
fn test_json_roundtrip() {
    let mut m = ObjectMap::new();
    m.insert("key".into(), Value::String("value".into()));
    m.insert("num".into(), Value::Number(n(42.0)));
    let v = Value::Object(m);
    let json = to_json_text(&v);
    let back = parse_json(&json).ok().unwrap();
    assert_eq!(back.to_str(), v.to_str());
}

#[test]
fn object_members_keep_key_order_and_json_texts() {
    let mut m = ObjectMap::new();
    m.insert("b".into(), Value::Bool(true));
    m.insert("a".into(), Value::Null);
    m.insert("b".into(), Value::String("x\"y".into()));
    let v = Value::Object(m);
    assert_eq!(v.to_str(), "{\"a\":null,\"b\":\"x\\\"y\"}");
    assert_eq!(Value::Array(vec![Value::Number(n(1.0)), Value::Null]).to_str(), "[1.0,null]");
}

#[test]
fn numbers_as_text() {
    assert_eq!(Value::Number(n(0.5)).to_str(), "0.5");
    assert_eq!(Value::String("1e3".into()).to_number().to_text(), "1000");
    assert_eq!(Value::String(" 7 ".into()).to_number().to_text(), "7");
    assert!(Value::Array(vec![]).to_number().is_nan());
}
