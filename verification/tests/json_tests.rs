use arka_sdk::json::{array_text, canonical_json, object_text, JsonMap, JsonNumber, JsonValue};

fn num(text: &str) -> JsonValue {
    JsonValue::Number(JsonNumber::parse(text).unwrap())
}

fn text(s: &str) -> JsonValue {
    JsonValue::String(s.to_string())
}

fn object(members: Vec<(&str, JsonValue)>) -> JsonValue {
    let mut m = JsonMap::new();
    for (k, v) in members {
        m.insert(k.to_string(), v);
    }
    JsonValue::Object(m)
}

#[test]
fn test_canonical_json_object() {
    let value = object(vec![("c", num("3")), ("a", num("1")), ("b", num("2"))]);
    assert_eq!(canonical_json(&value), r#"{"a":1,"b":2,"c":3}"#);
}

#[test]
fn test_canonical_json_nested_object() {
    let value = object(vec![("z", object(vec![("b", num("2")), ("a", num("1"))])), ("a", num("1"))]);
    assert_eq!(canonical_json(&value), r#"{"a":1,"z":{"a":1,"b":2}}"#);
}

#[test]
fn test_canonical_json_array() {
    let value = JsonValue::Array(vec![num("3"), num("1"), num("2")]);
    assert_eq!(canonical_json(&value), "[3,1,2]");
}

#[test]
fn test_canonical_json_string() {
    assert_eq!(canonical_json(&text("hello")), r#""hello""#);
}

#[test]
fn test_canonical_json_number() {
    assert_eq!(canonical_json(&num("42")), "42");
}

#[test]
fn test_canonical_json_boolean() {
    assert_eq!(canonical_json(&JsonValue::Bool(true)), "true");
    assert_eq!(canonical_json(&JsonValue::Bool(false)), "false");
}

#[test]
fn test_canonical_json_null() {
    assert_eq!(canonical_json(&JsonValue::Null), "null");
}

#[test]
fn test_canonical_json_complex() {
    let value = object(vec![
        (
            "users",
            JsonValue::Array(vec![
                object(vec![("name", text("Bob")), ("age", num("25"))]),
                object(vec![("name", text("Alice")), ("age", num("30"))]),
            ]),
        ),
        ("count", num("2")),
    ]);
    assert_eq!(canonical_json(&value), r#"{"count":2,"users":[{"age":25,"name":"Bob"},{"age":30,"name":"Alice"}]}"#);
}

#[test]
fn canonical_json_escapes_strings_and_keys() {
    let value = object(vec![("q\"k", text("a\\b\n"))]);
    assert_eq!(canonical_json(&value), r#"{"q\"k":"a\\b\n"}"#);
}

#[test]
fn canonical_json_empty_containers() {
    assert_eq!(canonical_json(&object(vec![])), "{}");
    assert_eq!(canonical_json(&JsonValue::Array(vec![])), "[]");
}

#[test]
fn canonical_json_orders_keys_by_code_point() {
    let value = object(vec![("b", num("1")), ("B", num("2")), ("ab", num("3")), ("a", num("4")), ("é", num("5"))]);
    assert_eq!(canonical_json(&value), r#"{"B":2,"a":4,"ab":3,"b":1,"é":5}"#);
}

#[test]
fn canonical_json_ignores_insertion_order() {
    let one = object(vec![("x", num("1")), ("y", text("two")), ("z", JsonValue::Null)]);
    let other = object(vec![("z", JsonValue::Null), ("x", num("1")), ("y", text("two"))]);
    assert_eq!(canonical_json(&one), canonical_json(&other));
}

#[test]
fn object_insert_replaces_value_of_existing_key() {
    let mut m = JsonMap::new();
    m.insert("k".to_string(), num("1"));
    m.insert("j".to_string(), num("2"));
    m.insert("k".to_string(), num("3"));
    assert_eq!(m.len(), 2);
    assert!(m.contains_key("j"));
    assert!(!m.contains_key("x"));
    assert_eq!(canonical_json(m.get("k").unwrap()), "3");
    assert!(m.get("x").is_none());
}

#[test]
fn duplicate_has_same_content() {
    let value = object(vec![("a", JsonValue::Array(vec![num("1"), text("s")])), ("b", JsonValue::Bool(false))]);
    let copy = value.duplicate();
    assert_eq!(canonical_json(&copy), canonical_json(&value));
}

#[test]
fn entries_come_in_insertion_order() {
    let mut m = JsonMap::new();
    m.insert("z".to_string(), num("1"));
    m.insert("a".to_string(), text("x"));
    let (k0, v0) = m.entry(0);
    let (k1, v1) = m.entry(1);
    assert_eq!(k0, "z");
    assert_eq!(canonical_json(v0), "1");
    assert_eq!(k1, "a");
    assert_eq!(canonical_json(v1), "\"x\"");
}

#[test]
fn object_text_joins_members_in_given_order() {
    assert_eq!(object_text(&vec![]), "{}");
    let members = vec![("\"b\"".to_string(), "1".to_string()), ("\"a\"".to_string(), "[2]".to_string())];
    assert_eq!(object_text(&members), r#"{"b":1,"a":[2]}"#);
}

#[test]
fn array_text_joins_parts() {
    assert_eq!(array_text(&vec![]), "[]");
    assert_eq!(array_text(&vec!["1".to_string(), "\"x\"".to_string(), "null".to_string()]), r#"[1,"x",null]"#);
}

#[test]
fn canonical_json_escapes_control_characters() {
    assert_eq!(canonical_json(&text("\u{1}\t\u{8}\u{c}\r\u{1f}/")), r#""\u0001\t\b\f\r\u001f/""#);
}

#[test]
fn numbers_hold_serde_json_text() {
    assert_eq!(JsonNumber::parse("1000.50").unwrap().text(), "1000.5");
    assert_eq!(JsonNumber::parse("42").unwrap().text(), "42");
    assert_eq!(JsonNumber::parse("-7").unwrap().text(), "-7");
    assert_eq!(canonical_json(&num("1000.50")), "1000.5");
    assert!(JsonNumber::parse("abc").is_none());
    assert!(JsonNumber::parse("1 ").is_none());
    assert!(JsonNumber::parse("01").is_none());
    assert!(JsonNumber::parse("").is_none());
}
