use jqtui::codec::{parse_json, pretty_json, serialize_pretty};
use jqtui::json::JsonValue;
use jqtui::text::{chars_to_string, str_to_chars};

fn chars(s: &str) -> Vec<char> {
    s.chars().collect()
}

fn string_of(v: &Vec<char>) -> String {
    v.iter().collect()
}

fn num(s: &str) -> JsonValue {
    JsonValue::Num(chars(s))
}

#[test]
fn parses_scalars() {
    assert_eq!(parse_json(&chars("null")), Some(JsonValue::Null));
    assert_eq!(parse_json(&chars("true")), Some(JsonValue::Bool(true)));
    assert_eq!(parse_json(&chars("false")), Some(JsonValue::Bool(false)));
    assert_eq!(parse_json(&chars("42")), Some(num("42")));
    assert_eq!(parse_json(&chars("-1.5e3")), Some(num("-1.5e3")));
    assert_eq!(parse_json(&chars("\"hi\"")), Some(JsonValue::Str(chars("hi"))));
}

#[test]
fn parses_structures_in_document_order() {
    let v = parse_json(&chars("{\"a\":1,\"b\":[2,3]}")).unwrap();
    assert_eq!(
        v,
        JsonValue::Object(vec![
            (chars("a"), num("1")),
            (chars("b"), JsonValue::Array(vec![num("2"), num("3")])),
        ])
    );
}

#[test]
fn parses_with_surrounding_whitespace() {
    assert_eq!(parse_json(&chars("  [ 1 , 2 ]\n")), Some(JsonValue::Array(vec![num("1"), num("2")])));
}

#[test]
fn parses_string_escapes() {
    assert_eq!(
        parse_json(&chars("\"a\\n\\t\\\\\\\"\\u0041\"")),
        Some(JsonValue::Str(chars("a\n\t\\\"A")))
    );
}

#[test]
fn rejects_invalid_documents() {
    assert_eq!(parse_json(&chars("")), None);
    assert_eq!(parse_json(&chars("{")), None);
    assert_eq!(parse_json(&chars("[1,]")), None);
    assert_eq!(parse_json(&chars("01")), None);
    assert_eq!(parse_json(&chars("1 2")), None);
    assert_eq!(parse_json(&chars("nul")), None);
    assert_eq!(parse_json(&chars("\"unterminated")), None);
    assert_eq!(parse_json(&chars("{\"a\" 1}")), None);
    assert_eq!(parse_json(&chars("\"\\uD800\"")), None);
    assert_eq!(parse_json(&chars("Error: nope")), None);
}

#[test]
fn serializes_array_pretty() {
    let v = JsonValue::Array(vec![num("1"), num("2"), num("3")]);
    assert_eq!(string_of(&serialize_pretty(&v, 2)), "[\n  1,\n  2,\n  3\n]");
}

#[test]
fn serializes_nested_object_pretty() {
    let v = JsonValue::Object(vec![
        (chars("a"), num("1")),
        (chars("b"), JsonValue::Array(vec![JsonValue::Bool(true), JsonValue::Null])),
    ]);
    assert_eq!(
        string_of(&serialize_pretty(&v, 2)),
        "{\n  \"a\": 1,\n  \"b\": [\n    true,\n    null\n  ]\n}"
    );
}

#[test]
fn serializes_empty_containers_on_one_line() {
    assert_eq!(string_of(&serialize_pretty(&JsonValue::Object(vec![]), 2)), "{}");
    assert_eq!(string_of(&serialize_pretty(&JsonValue::Array(vec![]), 2)), "[]");
}

#[test]
fn serializes_with_configured_step() {
    let v = JsonValue::Array(vec![num("7")]);
    assert_eq!(string_of(&serialize_pretty(&v, 4)), "[\n    7\n]");
    assert_eq!(string_of(&serialize_pretty(&v, 0)), "[\n7\n]");
}

#[test]
fn escapes_strings_when_serializing() {
    let v = JsonValue::Str(chars("a\"b\\c\nd\u{1}"));
    assert_eq!(string_of(&serialize_pretty(&v, 2)), "\"a\\\"b\\\\c\\nd\\u0001\"");
}

#[test]
fn round_trip_parse_of_serialized_value() {
    let v = JsonValue::Object(vec![
        (chars("list"), JsonValue::Array(vec![num("1"), num("-2.5"), num("3e8")])),
        (chars("text"), JsonValue::Str(chars("line\nbreak \"quoted\""))),
        (chars("empty"), JsonValue::Object(vec![])),
        (chars("flag"), JsonValue::Bool(false)),
        (chars("nothing"), JsonValue::Null),
    ]);
    let text = serialize_pretty(&v, 2);
    assert_eq!(parse_json(&text), Some(v));
}

#[test]
fn round_trip_with_unusual_step() {
    let v = JsonValue::Array(vec![JsonValue::Array(vec![num("0")]), JsonValue::Str(chars(""))]);
    let text = serialize_pretty(&v, 7);
    assert_eq!(parse_json(&text), Some(v));
}

#[test]
fn pretty_json_reformats_compact_text() {
    let out = pretty_json(&String::from("{\"a\":1}")).unwrap();
    assert_eq!(out, "{\n  \"a\": 1\n}");
}

#[test]
fn pretty_json_rejects_invalid_text() {
    assert_eq!(pretty_json(&String::from("not json")), None);
    assert_eq!(pretty_json(&String::from("")), None);
}

#[test]
fn char_conversions_round_trip() {
    let v = str_to_chars("ab\u{e9}\u{1f600}");
    assert_eq!(v.len(), 4);
    assert_eq!(chars_to_string(&v), "ab\u{e9}\u{1f600}");
}
