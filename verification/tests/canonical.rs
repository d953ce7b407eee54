use spectra::json::{canonical_json, JsonValue};

fn num(t: &str) -> JsonValue {
    JsonValue::Number(t.to_string())
}

fn s(t: &str) -> JsonValue {
    JsonValue::String(t.to_string())
}

fn obj(entries: Vec<(&str, JsonValue)>) -> JsonValue {
    JsonValue::Object(entries.into_iter().map(|(k, v)| (k.to_string(), v)).collect())
}

fn arr(items: Vec<JsonValue>) -> JsonValue {
    JsonValue::Array(items)
}

#[test]
fn test_canonical_sorts_keys() {
    let obj = obj(vec![("b", num("2")), ("a", num("1"))]);
    assert_eq!(canonical_json(&obj), r#"{"a":1,"b":2}"#);
}

#[test]
fn test_canonical_nested() {
    let obj = obj(vec![("outer", obj(vec![("z", num("26")), ("a", num("1"))])), ("a", num("1"))]);
    assert_eq!(canonical_json(&obj), r#"{"a":1,"outer":{"a":1,"z":26}}"#);
}

#[test]
fn test_canonical_array() {
    let a = arr(vec![num("3"), num("1"), num("2")]);
    assert_eq!(canonical_json(&a), "[3,1,2]");
}

#[test]
fn test_canonical_null() {
    assert_eq!(canonical_json(&JsonValue::Null), "null");
}

#[test]
fn test_canonical_string_escaping() {
    let val = s("hello\nworld");
    assert_eq!(canonical_json(&val), r#""hello\nworld""#);
}

#[test]
fn test_canonical_empty_object() {
    assert_eq!(canonical_json(&obj(vec![])), "{}");
}

#[test]
fn test_canonical_empty_array() {
    assert_eq!(canonical_json(&arr(vec![])), "[]");
}

#[test]
fn test_canonical_deep_nesting() {
    let o = obj(vec![("a", obj(vec![("b", obj(vec![("c", obj(vec![("d", num("4"))]))]))]))]);
    assert_eq!(canonical_json(&o), r#"{"a":{"b":{"c":{"d":4}}}}"#);
}

#[test]
fn test_canonical_mixed_types() {
    let o = obj(vec![
        ("string", s("hello")),
        ("number", num("42")),
        ("float", num("3.14")),
        ("bool", JsonValue::Bool(true)),
        ("null", JsonValue::Null),
        ("array", arr(vec![num("1"), num("2"), num("3")])),
        ("object", obj(vec![("nested", s("value"))])),
    ]);
    let result = canonical_json(&o);
    assert!(result.starts_with("{"));
    assert!(result.ends_with("}"));
    assert!(result.contains(r#""array":"#));
    assert!(result.contains(r#""bool":"#));
    assert!(result.contains(r#""null":"#));
    assert!(result.contains(r#""number":"#));
    assert!(result.contains(r#""float":"#));
    assert!(result.contains(r#""object":"#));
    assert!(result.contains(r#""string":"#));
    let pos_array = result.find(r#""array":"#).unwrap();
    let pos_bool = result.find(r#""bool":"#).unwrap();
    let pos_null = result.find(r#""null":"#).unwrap();
    let pos_number = result.find(r#""number":"#).unwrap();
    assert!(pos_array < pos_bool);
    assert!(pos_bool < pos_null);
    assert!(pos_null < pos_number);
}

#[test]
fn canonical_exact_mixed_text() {
    let o = obj(vec![
        ("string", s("hello")),
        ("number", num("42")),
        ("bool", JsonValue::Bool(false)),
        ("null", JsonValue::Null),
        ("array", arr(vec![num("1"), s("x")])),
    ]);
    assert_eq!(
        canonical_json(&o),
        r#"{"array":[1,"x"],"bool":false,"null":null,"number":42,"string":"hello"}"#
    );
}

#[test]
fn canonical_escapes_quotes_backslashes_and_controls() {
    let val = s("a\"b\\c\td\u{1}e\u{8}f\u{c}g\rh");
    assert_eq!(canonical_json(&val), "\"a\\\"b\\\\c\\td\\u0001e\\bf\\fg\\rh\"");
}

#[test]
fn canonical_keeps_unicode_as_is() {
    let val = s("é€😀");
    assert_eq!(canonical_json(&val), "\"é€😀\"");
}

#[test]
fn canonical_ignores_entry_order_of_distinct_keys() {
    let a = obj(vec![("x", num("1")), ("y", s("2")), ("b", JsonValue::Null)]);
    let b = obj(vec![("b", JsonValue::Null), ("x", num("1")), ("y", s("2"))]);
    assert_eq!(canonical_json(&a), canonical_json(&b));
    assert_eq!(canonical_json(&a), r#"{"b":null,"x":1,"y":"2"}"#);
}

#[test]
fn canonical_escapes_keys() {
    let a = obj(vec![("k\"1", num("1"))]);
    assert_eq!(canonical_json(&a), "{\"k\\\"1\":1}");
}
