use jqtui::codec::parse_json;
use jqtui::json::JsonValue;
use jqtui::render::{render_document, StyleRole, StyledLine};

fn chars(s: &str) -> Vec<char> {
    s.chars().collect()
}

fn num(s: &str) -> JsonValue {
    JsonValue::Num(chars(s))
}

fn flatten(lines: &Vec<StyledLine>) -> Vec<Vec<(String, StyleRole)>> {
    lines
        .iter()
        .map(|l| l.frags.iter().map(|f| (f.text.iter().collect::<String>(), f.role)).collect())
        .collect()
}

fn line_texts(lines: &Vec<StyledLine>) -> Vec<String> {
    lines
        .iter()
        .map(|l| l.frags.iter().map(|f| f.text.iter().collect::<String>()).collect::<Vec<_>>().join(""))
        .collect()
}

#[test]
fn rendering_is_deterministic() {
    let text = chars("{\"k\":[1,{\"x\":null}],\"s\":\"v\"}");
    let v1 = parse_json(&text).unwrap();
    let v2 = parse_json(&text).unwrap();
    let d1 = render_document(&v1, 2);
    let d2 = render_document(&v2, 2);
    assert_eq!(flatten(&d1), flatten(&d2));
}

#[test]
fn empty_object_renders_as_single_line() {
    let d = render_document(&JsonValue::Object(vec![]), 2);
    assert_eq!(d.len(), 1);
    assert_eq!(line_texts(&d), vec!["{}".to_string()]);
}

#[test]
fn empty_array_renders_as_single_line() {
    let d = render_document(&JsonValue::Array(vec![]), 2);
    assert_eq!(d.len(), 1);
    assert_eq!(line_texts(&d), vec!["[]".to_string()]);
}

#[test]
fn scalar_renders_as_one_line_with_its_role() {
    let d = render_document(&JsonValue::Bool(true), 2);
    assert_eq!(flatten(&d), vec![vec![("true".to_string(), StyleRole::Bool)]]);
    let d = render_document(&JsonValue::Null, 2);
    assert_eq!(flatten(&d), vec![vec![("null".to_string(), StyleRole::Null)]]);
    let d = render_document(&JsonValue::Str(chars("hi")), 2);
    assert_eq!(flatten(&d), vec![vec![("\"hi\"".to_string(), StyleRole::Str)]]);
}

#[test]
fn line_count_matches_structural_boundaries() {
    assert_eq!(render_document(&num("5"), 2).len(), 1);
    let arr = JsonValue::Array(vec![num("1"), num("2"), num("3")]);
    assert_eq!(render_document(&arr, 2).len(), 5);
    let obj = JsonValue::Object(vec![(chars("a"), num("1"))]);
    assert_eq!(render_document(&obj, 2).len(), 3);
    let nested = JsonValue::Array(vec![JsonValue::Array(vec![num("1")])]);
    assert_eq!(render_document(&nested, 2).len(), 5);
}

#[test]
fn object_lines_carry_key_role_and_indentation() {
    let v = JsonValue::Object(vec![(chars("a"), num("1")), (chars("b"), JsonValue::Bool(false))]);
    let d = render_document(&v, 2);
    assert_eq!(line_texts(&d), vec![
        "{".to_string(),
        "  \"a\": 1,".to_string(),
        "  \"b\": false".to_string(),
        "}".to_string(),
    ]);
    let flat = flatten(&d);
    assert_eq!(flat[1][1], ("\"a\": ".to_string(), StyleRole::Key));
    assert_eq!(flat[1][2], ("1".to_string(), StyleRole::Num));
    assert_eq!(flat[1][3], (",".to_string(), StyleRole::Default));
    assert_eq!(flat[2][2], ("false".to_string(), StyleRole::Bool));
}

#[test]
fn nested_indentation_uses_the_step() {
    let v = JsonValue::Array(vec![JsonValue::Array(vec![num("9")])]);
    let d = render_document(&v, 3);
    assert_eq!(line_texts(&d), vec![
        "[".to_string(),
        "   [".to_string(),
        "      9".to_string(),
        "   ]".to_string(),
        "]".to_string(),
    ]);
}
