//! JSON documents.

use agent::{JsonValue, Number, Object};

#[test]
fn documents_are_written_compactly_with_sorted_names() {
    let object = Object::new()
        .with("b", JsonValue::Array(vec![JsonValue::Null, JsonValue::Bool(true)]))
        .with("a", JsonValue::Number(Number::NegInt(-3)))
        .with("c", JsonValue::text("line\n\"quoted\" 日"));
    assert_eq!(
        JsonValue::Object(object).to_text(),
        "{\"a\":-3,\"b\":[null,true],\"c\":\"line\\n\\\"quoted\\\" 日\"}"
    );
}

#[test]
fn documents_are_read_back() {
    for text in [
        "null",
        "true",
        "0",
        "18446744073709551615",
        "-9223372036854775808",
        "0.2",
        "1.5e+300",
        "\"\"",
        "[]",
        "{}",
        "[1,[2,{\"a\":[3]}]]",
        "{\"a\":{\"b\":null},\"c\":\"x\"}",
    ] {
        assert_eq!(JsonValue::parse(text).expect(text).to_text(), text);
    }
    // Spaces are not kept, and the last of several members of one name is.
    assert_eq!(JsonValue::parse(" { \"a\" : 1 , \"a\" : 2 } ").unwrap().to_text(), "{\"a\":2}");
}

#[test]
fn what_is_no_document_is_not_read() {
    for text in ["", "{", "{\"path\":", "nul", "[1,]", "1 2", "'a'"] {
        assert!(JsonValue::parse(text).is_none(), "{text}");
    }
}

#[test]
fn numbers_are_told_apart() {
    assert!(matches!(JsonValue::parse("7"), Some(JsonValue::Number(Number::PosInt(7)))));
    assert!(matches!(JsonValue::parse("-7"), Some(JsonValue::Number(Number::NegInt(-7)))));
    assert!(matches!(
        JsonValue::parse("7.0"),
        Some(JsonValue::Number(Number::Float(text))) if text == "7.0"
    ));
    // A decimal text that is no number cannot be written as one.
    let odd = JsonValue::Number(Number::Float("seven".to_string()));
    assert_eq!(odd.to_text(), "null");
}

#[test]
fn members_are_replaced_and_merged() {
    let mut object = Object::new().with("a", JsonValue::text("1")).with("b", JsonValue::text("2"));
    object.insert("a".to_string(), JsonValue::text("3"));
    assert!(object.contains_key("a"));
    assert!(!object.contains_key("c"));
    assert!(matches!(object.get("a"), Some(JsonValue::String(text)) if text == "3"));
    assert!(object.get("c").is_none());

    let other = Object::new().with("b", JsonValue::Null).with("c", JsonValue::Bool(false));
    object.merge(&other);
    let copy = object.clone();
    assert_eq!(JsonValue::Object(object).to_text(), "{\"a\":\"3\",\"b\":null,\"c\":false}");
    let names: Vec<String> = copy.into_entries().into_iter().map(|(name, _)| name).collect();
    assert_eq!(names, ["a", "b", "c"]);
}
