use jqtui::focus::Selected;
use jqtui::keys::{KeyCode, KeyInput};
use jqtui::session::{Session, SessionAction};

fn chars(s: &str) -> Vec<char> {
    s.chars().collect()
}

fn string_of(v: &Vec<char>) -> String {
    v.iter().collect()
}

fn key(code: KeyCode) -> KeyInput {
    KeyInput { code, ctrl: false, alt: false, shift: false, super_key: false }
}

fn ctrl(code: KeyCode) -> KeyInput {
    KeyInput { code, ctrl: true, alt: false, shift: false, super_key: false }
}

fn shift(code: KeyCode) -> KeyInput {
    KeyInput { code, ctrl: false, alt: false, shift: true, super_key: false }
}

#[test]
fn startup_rejects_invalid_document() {
    assert!(Session::new("not json").is_none());
    assert!(Session::new("").is_none());
}

#[test]
fn startup_accepts_valid_document_with_editor_focused() {
    let s = Session::new("{\"a\":1}").unwrap();
    assert_eq!(s.selected, Selected::Input);
    assert!(s.jq.input.selected);
    assert!(!s.jq.json_base.selected());
    assert_eq!(string_of(s.jq.json_base.json()), "{\n  \"a\": 1\n}");
    assert_eq!(string_of(s.jq.input.value()), ".");
}

#[test]
fn ctrl_c_quits() {
    let mut s = Session::new("{\"a\":1}").unwrap();
    assert_eq!(s.handle_key(&ctrl(KeyCode::Char('c'))), SessionAction::Quit);
}

#[test]
fn tab_four_times_returns_to_editor_exactly_once() {
    let mut s = Session::new("{\"a\":1}").unwrap();
    let mut seen = Vec::new();
    for _ in 0..4 {
        assert_eq!(s.handle_key(&key(KeyCode::Tab)), SessionAction::Continue);
        seen.push(s.selected);
    }
    assert_eq!(
        seen,
        vec![Selected::JsonFiltered, Selected::JsonBase, Selected::Input, Selected::JsonFiltered]
    );
    assert_eq!(seen.iter().filter(|v| **v == Selected::Input).count(), 1);
}

#[test]
fn shift_tab_walks_the_ring_backward() {
    let mut s = Session::new("{\"a\":1}").unwrap();
    s.handle_key(&shift(KeyCode::Tab));
    assert_eq!(s.selected, Selected::JsonBase);
    assert!(s.jq.json_base.selected());
    assert!(!s.jq.input.selected);
    s.handle_key(&ctrl(KeyCode::Tab));
    assert_eq!(s.selected, Selected::JsonFiltered);
    assert!(s.jq.json_filtered.selected());
}

#[test]
fn editing_the_query_requests_a_refilter() {
    let mut s = Session::new("{\"a\":1}").unwrap();
    assert_eq!(s.handle_key(&key(KeyCode::Char('a'))), SessionAction::Refilter);
    assert_eq!(string_of(s.jq.input.value()), ".a");
}

#[test]
fn cursor_moves_do_not_request_a_refilter() {
    let mut s = Session::new("{\"a\":1}").unwrap();
    assert_eq!(s.handle_key(&key(KeyCode::Left)), SessionAction::Continue);
    assert_eq!(s.handle_key(&key(KeyCode::End)), SessionAction::Continue);
    assert_eq!(s.handle_key(&key(KeyCode::Home)), SessionAction::Continue);
    // deleting before the cursor at the start changes nothing either
    assert_eq!(s.handle_key(&key(KeyCode::Backspace)), SessionAction::Continue);
    assert_eq!(string_of(s.jq.input.value()), ".");
    // a real edit changes the text and owes a re-evaluation
    assert_eq!(s.handle_key(&key(KeyCode::Delete)), SessionAction::Refilter);
    assert_eq!(string_of(s.jq.input.value()), "");
}

#[test]
fn filter_success_shows_pretty_result_and_marks_valid() {
    // base document {"a":1}, expression `.a`: the evaluator hands back `1`.
    let mut s = Session::new("{\"a\":1}").unwrap();
    s.handle_key(&key(KeyCode::Char('a')));
    assert_eq!(string_of(s.jq.input.value()), ".a");
    s.jq.apply_filter(Ok(chars("1\n")));
    assert_eq!(string_of(s.jq.json_filtered.json()), "1");
    assert!(s.jq.input.is_valid);
    assert!(!s.jq.json_filtered.is_error);
    assert!(!s.jq.consume_clear());
}

#[test]
fn filter_map_result_is_pretty_printed_with_the_indent_step() {
    // base document [1,2,3], expression `map(.+1)`: the evaluator hands back
    // [2,3,4].
    let mut s = Session::new("[1,2,3]").unwrap();
    s.jq.apply_filter(Ok(chars("[2,3,4]\n")));
    assert_eq!(string_of(s.jq.json_filtered.json()), "[\n  2,\n  3,\n  4\n]");
    assert!(s.jq.input.is_valid);
}

#[test]
fn evaluator_error_marks_invalid_and_demands_repaint() {
    // an expression that indexes into a non-object makes the evaluator fail
    let mut s = Session::new("{\"a\":1}").unwrap();
    s.jq.apply_filter(Err(chars("Cannot index number")));
    assert_eq!(string_of(s.jq.json_filtered.json()), "Error: Cannot index number");
    assert!(!s.jq.input.is_valid);
    assert!(s.jq.json_filtered.is_error);
    assert!(s.jq.consume_clear());
    assert!(!s.jq.consume_clear());
}

#[test]
fn unparseable_evaluator_output_marks_invalid() {
    let mut s = Session::new("{\"a\":1}").unwrap();
    s.jq.apply_filter(Ok(chars("1\n2\n")));
    assert_eq!(string_of(s.jq.json_filtered.json()), "Error: Invalid JSON");
    assert!(!s.jq.input.is_valid);
    assert!(s.jq.json_filtered.is_error);
    assert!(!s.jq.consume_clear());
}

#[test]
fn pane_keys_scroll_the_focused_pane() {
    let mut s = Session::new("[1,2,3,4,5,6,7,8,9,10,11,12]").unwrap();
    s.jq.apply_filter(Ok(chars("[1,2,3,4,5,6,7,8,9,10,11,12]")));
    s.handle_key(&key(KeyCode::Tab));
    assert_eq!(s.selected, Selected::JsonFiltered);
    assert_eq!(s.handle_key(&key(KeyCode::Down)), SessionAction::Continue);
    assert_eq!(s.jq.json_filtered.viewport.scroll_offset, 1);
    s.handle_key(&key(KeyCode::PageDown));
    assert_eq!(s.jq.json_filtered.viewport.scroll_offset, 11);
    s.handle_key(&key(KeyCode::PageDown));
    assert_eq!(s.jq.json_filtered.viewport.scroll_offset, 13);
    s.handle_key(&key(KeyCode::Up));
    assert_eq!(s.jq.json_filtered.viewport.scroll_offset, 12);
    s.handle_key(&key(KeyCode::PageUp));
    assert_eq!(s.jq.json_filtered.viewport.scroll_offset, 2);
    // the base pane was untouched
    assert_eq!(s.jq.json_base.viewport.scroll_offset, 0);
}
