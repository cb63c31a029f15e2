use bones_core::event::canonical::{canonicalize_json, canonicalize_json_str, parse_json};
use bones_core::event::json::JsonValue;

fn json_value(text: &str) -> JsonValue {
    parse_json(text).expect("test JSON")
}

#[test]
fn null_value() {
    assert_eq!(canonicalize_json(&json_value(r#"null"#)), "null");
}

#[test]
fn boolean_values() {
    assert_eq!(canonicalize_json(&json_value(r#"true"#)), "true");
    assert_eq!(canonicalize_json(&json_value(r#"false"#)), "false");
}

#[test]
fn integer_value() {
    assert_eq!(canonicalize_json(&json_value(r#"42"#)), "42");
}

#[test]
fn float_value() {
    assert_eq!(canonicalize_json(&json_value(r#"3.14"#)), "3.14");
}

#[test]
fn string_value() {
    assert_eq!(canonicalize_json(&json_value(r#""hello""#)), "\"hello\"");
}

#[test]
fn string_with_escapes() {
    assert_eq!(
        canonicalize_json(&json_value(r#""he said \"hi\"""#)),
        "\"he said \\\"hi\\\"\""
    );
}

#[test]
fn empty_array() {
    assert_eq!(canonicalize_json(&json_value(r#"[]"#)), "[]");
}

#[test]
fn array_preserves_order() {
    assert_eq!(canonicalize_json(&json_value(r#"[3, 1, 2]"#)), "[3,1,2]");
}

#[test]
fn empty_object() {
    assert_eq!(canonicalize_json(&json_value(r#"{}"#)), "{}");
}

#[test]
fn object_keys_sorted() {
    let val = json_value(r#"{"z": 1, "a": 2, "m": 3}"#);
    assert_eq!(canonicalize_json(&val), r#"{"a":2,"m":3,"z":1}"#);
}

#[test]
fn nested_object_keys_sorted() {
    let val = json_value(r#"{"z": 1, "a": {"c": 3, "b": 2}}"#);
    assert_eq!(
        canonicalize_json(&val),
        r#"{"a":{"b":2,"c":3},"z":1}"#
    );
}

#[test]
fn deeply_nested_sorting() {
    let val = json_value(r#"{"b": {"d": {"f": 1, "e": 2}, "c": 3}, "a": 4}"#);
    assert_eq!(
        canonicalize_json(&val),
        r#"{"a":4,"b":{"c":3,"d":{"e":2,"f":1}}}"#
    );
}

#[test]
fn array_of_objects_sorted() {
    let val = json_value(r#"[{"b": 1, "a": 2}, {"d": 3, "c": 4}]"#);
    assert_eq!(
        canonicalize_json(&val),
        r#"[{"a":2,"b":1},{"c":4,"d":3}]"#
    );
}

#[test]
fn mixed_types() {
    let val = json_value(r#"{"num": 42, "str": "hello", "arr": [1, "two"], "nil": null, "bool": true}"#);
    assert_eq!(
        canonicalize_json(&val),
        r#"{"arr":[1,"two"],"bool":true,"nil":null,"num":42,"str":"hello"}"#
    );
}

#[test]
fn no_whitespace() {
    let val = json_value(r#"{"key": "value"}"#);
    let result = canonicalize_json(&val);
    // Should have no spaces, newlines, or tabs
    assert!(!result.contains(' '));
    assert!(!result.contains('\n'));
    assert!(!result.contains('\t'));
}

#[test]
fn create_event_payload_canonical() {
    let val = json_value(r#"{"title": "Fix auth retry", "kind": "task", "size": "m", "labels": ["backend"]}"#);
    assert_eq!(
        canonicalize_json(&val),
        r#"{"kind":"task","labels":["backend"],"size":"m","title":"Fix auth retry"}"#
    );
}

#[test]
fn canonicalize_json_str_valid() {
    let input = r#"{"z":1,"a":2}"#;
    let result = canonicalize_json_str(input).expect("valid JSON");
    assert_eq!(result, r#"{"a":2,"z":1}"#);
}

#[test]
fn canonicalize_json_str_invalid() {
    let result = canonicalize_json_str("not json");
    assert!(result.is_err());
}

#[test]
fn idempotent() {
    let val = json_value(r#"{"b": 1, "a": {"d": 2, "c": 3}}"#);
    let first = canonicalize_json(&val);
    let reparsed = parse_json(&first).expect("parse");
    let second = canonicalize_json(&reparsed);
    assert_eq!(first, second);
}

#[test]
fn unicode_string() {
    let val = json_value(r#"{"emoji": "🎉", "cjk": "日本語"}"#);
    let result = canonicalize_json(&val);
    assert!(result.contains("🎉"));
    assert!(result.contains("日本語"));
}
