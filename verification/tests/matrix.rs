use enact_core::functions::{EvalError, call_function};
use enact_core::matrix::{expand_matrix, format_matrix_combo};
use enact_core::model::Matrix;
use enact_core::value::{ObjectMap, Value};

fn parse_json(s: &str) -> Result<Value, EvalError> {
    call_function("fromJSON", &vec![Value::String(s.to_string())], "/", &Vec::new())
}

fn json(s: &str) -> Value {
    parse_json(s).ok().unwrap()
}

fn obj(pairs: Vec<(&str, Value)>) -> ObjectMap {
    let mut m = ObjectMap::new();
    for (k, v) in pairs {
        m.insert(k.to_string(), v);
    }
    m
}

fn make_matrix(dims: Vec<(&str, &str)>) -> Matrix {
    let mut dimensions = ObjectMap::new();
    for (k, v) in dims {
        dimensions.insert(k.to_string(), json(v));
    }
    Matrix { additions: None, exclude: None, dimensions }
}

fn text_of(m: &ObjectMap, key: &str) -> Option<String> {
    m.get(key).map(|v| v.to_str())
}

#[test]
fn test_simple_expansion() {
    let m = make_matrix(vec![("os", r#"["ubuntu", "macos"]"#), ("node", "[18, 20]")]);
    let combos = expand_matrix(&m);
    assert_eq!(combos.len(), 4);
}

#[test]
fn test_single_dimension() {
    let m = make_matrix(vec![("os", r#"["ubuntu", "macos"]"#)]);
    let combos = expand_matrix(&m);
    assert_eq!(combos.len(), 2);
}

#[test]
fn test_exclude() {
    let mut m = make_matrix(vec![("os", r#"["ubuntu", "windows"]"#), ("node", "[18, 20]")]);
    m.exclude = Some(vec![obj(vec![("os", json(r#""windows""#)), ("node", json("18"))])]);
    let combos = expand_matrix(&m);
    assert_eq!(combos.len(), 3);
}

#[test]
fn test_include_new_combo() {
    let mut m = make_matrix(vec![("os", r#"["ubuntu"]"#)]);
    m.additions = Some(vec![obj(vec![("os", json(r#""macos""#)), ("extra", json("true"))])]);
    let combos = expand_matrix(&m);
    assert_eq!(combos.len(), 2);
    let macos = combos.iter().find(|c| text_of(c, "os") == Some("macos".to_string()));
    assert!(macos.is_some());
    assert!(matches!(macos.unwrap().get("extra"), Some(Value::Bool(true))));
}

#[test]
fn test_empty_matrix() {
    let m = Matrix { additions: None, exclude: None, dimensions: ObjectMap::new() };
    let combos = expand_matrix(&m);
    assert_eq!(combos.len(), 1);
}

#[test]
fn matrix_test_format() {
    let combo = obj(vec![("os", json(r#""ubuntu""#)), ("node", json("18"))]);
    let s = format_matrix_combo(&combo);
    assert!(s.contains("node: 18"));
    assert!(s.contains("os: ubuntu"));
}

#[test]
fn format_sorts_parts_and_is_empty_for_no_variables() {
    let combo = obj(vec![
        ("os", json(r#""ubuntu""#)),
        ("node", json("18")),
        ("flags", json(r#"["a", 1.5]"#)),
        ("debug", json("false")),
    ]);
    assert_eq!(
        format_matrix_combo(&combo),
        " (debug: false, flags: [\"a\",1.5], node: 18, os: ubuntu)"
    );
    assert_eq!(format_matrix_combo(&ObjectMap::new()), "");
    // Parts sort as whole texts, so `a b` comes before `a`.
    let combo = obj(vec![("a", json("1")), ("a b", json("2"))]);
    assert_eq!(format_matrix_combo(&combo), " (a b: 2, a: 1)");
}

#[test]
fn expansion_order_and_values() {
    let m = make_matrix(vec![("os", r#"["u", "m"]"#), ("node", "[18, 20]"), ("empty", "[]"), ("one", "7")]);
    let combos = expand_matrix(&m);
    let labels: Vec<String> = combos.iter().map(format_matrix_combo).collect();
    assert_eq!(
        labels,
        vec![
            " (node: 18, one: 7, os: u)",
            " (node: 18, one: 7, os: m)",
            " (node: 20, one: 7, os: u)",
            " (node: 20, one: 7, os: m)",
        ]
    );
}

#[test]
fn include_merges_into_matching_runs() {
    let mut m = make_matrix(vec![("os", r#"["ubuntu", "windows"]"#), ("node", "[18, 20]")]);
    m.additions = Some(vec![
        obj(vec![("os", json(r#""windows""#)), ("shell", json(r#""pwsh""#))]),
        obj(vec![("other", json("1"))]),
    ]);
    let combos = expand_matrix(&m);
    assert_eq!(combos.len(), 5);
    let with_shell = combos.iter().filter(|c| c.get("shell").is_some()).count();
    assert_eq!(with_shell, 2);
    assert_eq!(format_matrix_combo(&combos[4]), " (other: 1)");
}

#[test]
fn exclude_needs_every_variable_to_match() {
    let mut m = make_matrix(vec![("os", r#"["ubuntu", "windows"]"#), ("node", "[18, 20]")]);
    m.exclude = Some(vec![
        obj(vec![("os", json(r#""windows""#)), ("arch", json(r#""arm""#))]),
        obj(vec![("node", json("20"))]),
    ]);
    let combos = expand_matrix(&m);
    assert_eq!(combos.len(), 2);
    assert!(combos.iter().all(|c| text_of(c, "node") == Some("18".to_string())));
}
