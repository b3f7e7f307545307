use crab_city::json::{canonicalize_json, JsonValue};

fn num(n: i64) -> JsonValue {
    JsonValue::Number(n.to_string())
}

fn obj(entries: Vec<(&str, JsonValue)>) -> JsonValue {
    JsonValue::Object(entries.into_iter().map(|(k, v)| (k.to_string(), v)).collect())
}

#[test]
fn object_keys_are_sorted() {
    let c = canonicalize_json(&obj(vec![("zzz", num(1)), ("aaa", num(2)), ("mmm", JsonValue::Null)]));
    assert_eq!(c, obj(vec![("aaa", num(2)), ("mmm", JsonValue::Null), ("zzz", num(1))]));
}

#[test]
fn key_order_does_not_change_the_result() {
    let a = canonicalize_json(&obj(vec![("b", num(1)), ("a", JsonValue::Bool(true))]));
    let b = canonicalize_json(&obj(vec![("a", JsonValue::Bool(true)), ("b", num(1))]));
    assert_eq!(a, b);
}

#[test]
fn nested_objects_are_sorted() {
    let inner = obj(vec![("y", num(1)), ("x", num(2))]);
    let input = obj(vec![("list", JsonValue::Array(vec![inner, JsonValue::String("s".to_string())])), ("first", obj(vec![]))]);
    let expected = obj(vec![
        ("first", obj(vec![])),
        ("list", JsonValue::Array(vec![obj(vec![("x", num(2)), ("y", num(1))]), JsonValue::String("s".to_string())])),
    ]);
    assert_eq!(canonicalize_json(&input), expected);
}

#[test]
fn repeated_key_keeps_last_value() {
    let c = canonicalize_json(&obj(vec![("k", num(1)), ("a", num(0)), ("k", num(2))]));
    assert_eq!(c, obj(vec![("a", num(0)), ("k", num(2))]));
}

#[test]
fn scalars_are_unchanged() {
    assert_eq!(canonicalize_json(&JsonValue::Null), JsonValue::Null);
    assert_eq!(canonicalize_json(&JsonValue::Bool(false)), JsonValue::Bool(false));
    assert_eq!(canonicalize_json(&num(-7)), num(-7));
    assert_eq!(canonicalize_json(&JsonValue::String("é".to_string())), JsonValue::String("é".to_string()));
}
