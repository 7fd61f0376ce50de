use enact_core::json::{read_json, tree_value, JsonTree};
use enact_core::value::to_json_pretty;

#[test]
fn tree_becomes_a_value_with_members_in_key_order() {
    let t = JsonTree::Object(vec![
        ("b".to_string(), JsonTree::Array(vec![JsonTree::Number("1.50".to_string()), JsonTree::Null])),
        ("a".to_string(), JsonTree::Bool(true)),
        ("b".to_string(), JsonTree::Text("last".to_string())),
    ]);
    let v = tree_value(&t);
    assert_eq!(to_json_pretty(&v), "{\n  \"a\": true,\n  \"b\": \"last\"\n}");
    let n = tree_value(&JsonTree::Array(vec![JsonTree::Number("1.50".to_string())]));
    assert_eq!(to_json_pretty(&n), "[\n  1.5\n]");
}

#[test]
fn json_text_is_read_through_the_parser() {
    let v = read_json("{\"x\": [1, \"y\"]}").ok().unwrap();
    assert_eq!(to_json_pretty(&v), "{\n  \"x\": [\n    1.0,\n    \"y\"\n  ]\n}");
    assert!(read_json("{").is_err());
}
