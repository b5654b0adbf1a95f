use jqtui::keys::{KeyCode, KeyInput};
use jqtui::pane::Json;
use jqtui::render::StyleRole;

fn chars(s: &str) -> Vec<char> {
    s.chars().collect()
}

fn key(code: KeyCode) -> KeyInput {
    KeyInput { code, ctrl: false, alt: false, shift: false, super_key: false }
}

fn pane(payload: &str) -> Json {
    Json::new(chars(payload), String::from("JSON File"), None)
}

fn line_text(p: &Json, i: usize) -> String {
    p.lines()[i].frags.iter().map(|f| f.text.iter().collect::<String>()).collect()
}

#[test]
fn valid_payload_is_rendered_structurally() {
    let p = pane("{\"a\":1}");
    assert_eq!(p.lines().len(), 3);
    assert_eq!(line_text(&p, 0), "{");
    assert_eq!(line_text(&p, 1), "  \"a\": 1");
    assert_eq!(line_text(&p, 2), "}");
    assert!(!p.is_error);
    assert_eq!(p.viewport.line_count, 3);
}

#[test]
fn error_payload_is_one_invalid_tagged_line() {
    let p = pane("Error: something broke");
    assert_eq!(p.lines().len(), 1);
    assert!(p.is_error);
    assert_eq!(p.lines()[0].frags.len(), 1);
    assert_eq!(p.lines()[0].frags[0].role, StyleRole::Invalid);
    assert_eq!(line_text(&p, 0), "Error: something broke");
}

#[test]
fn non_json_payload_without_marker_is_valid_tagged() {
    let p = pane("plain words");
    assert_eq!(p.lines().len(), 1);
    assert!(!p.is_error);
    assert_eq!(p.lines()[0].frags[0].role, StyleRole::Valid);
}

#[test]
fn set_json_reclamps_scroll_offset() {
    let mut p = pane("[1,2,3,4,5,6,7,8,9]");
    assert_eq!(p.viewport.line_count, 11);
    p.handle_event(&key(KeyCode::PageDown));
    assert_eq!(p.viewport.scroll_offset, 10);
    p.set_json(chars("[1]"));
    assert_eq!(p.viewport.line_count, 3);
    assert_eq!(p.viewport.scroll_offset, 2);
}

#[test]
fn navigation_keys_scroll_and_others_do_not() {
    let mut p = pane("[1,2,3,4,5,6,7,8,9]");
    p.handle_event(&key(KeyCode::Down));
    p.handle_event(&key(KeyCode::Down));
    assert_eq!(p.viewport.scroll_offset, 2);
    p.handle_event(&key(KeyCode::Char('x')));
    assert_eq!(p.viewport.scroll_offset, 2);
    p.handle_event(&key(KeyCode::Up));
    assert_eq!(p.viewport.scroll_offset, 1);
}

#[test]
fn visible_range_follows_height() {
    let mut p = pane("[1,2,3,4,5,6,7,8,9]");
    p.set_visible_height(4);
    assert_eq!(p.viewport.visible_range(), (0, 4));
    p.handle_event(&key(KeyCode::PageDown));
    assert_eq!(p.viewport.visible_range(), (10, 11));
}

#[test]
fn selection_flag_round_trips() {
    let mut p = pane("{}");
    assert!(!p.selected());
    p.set_selected(true);
    assert!(p.selected());
    p.set_selected(false);
    assert!(!p.selected());
}
