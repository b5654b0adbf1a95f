use jqtui::focus::Selected;
use jqtui::input::Input;
use jqtui::keys::{KeyCode, KeyInput};
use jqtui::render::StyleRole;

fn string_of(v: &Vec<char>) -> String {
    v.iter().collect()
}

fn key(code: KeyCode) -> KeyInput {
    KeyInput { code, ctrl: false, alt: false, shift: false, super_key: false }
}

fn ctrl(code: KeyCode) -> KeyInput {
    KeyInput { code, ctrl: true, alt: false, shift: false, super_key: false }
}

fn focused(default: &str) -> Input {
    let mut i = Input::new("Input", default);
    i.set_selected(&Selected::Input);
    i
}

fn content(i: &Input) -> Vec<(String, StyleRole)> {
    i.render_content().frags.iter().map(|f| (f.text.iter().collect(), f.role)).collect()
}

#[test]
fn starts_with_default_and_cursor_at_end() {
    let i = Input::new("Input", ".");
    assert_eq!(string_of(i.value()), ".");
    assert_eq!(i.buffer.cursor, 1);
    assert!(i.is_valid);
    assert!(!i.selected);
}

#[test]
fn ignores_keys_when_unfocused() {
    let mut i = Input::new("Input", ".");
    i.handle_event(&key(KeyCode::Char('x')));
    assert_eq!(string_of(i.value()), ".");
}

#[test]
fn edits_when_focused() {
    let mut i = focused(".");
    i.handle_event(&key(KeyCode::Char('a')));
    assert_eq!(string_of(i.value()), ".a");
    i.handle_event(&key(KeyCode::Backspace));
    assert_eq!(string_of(i.value()), ".");
    i.handle_event(&key(KeyCode::Left));
    i.handle_event(&key(KeyCode::Delete));
    assert_eq!(string_of(i.value()), "");
}

#[test]
fn control_chords_move_and_clear() {
    let mut i = focused("abc");
    i.handle_event(&ctrl(KeyCode::Char('a')));
    assert_eq!(i.buffer.cursor, 0);
    i.handle_event(&ctrl(KeyCode::Char('e')));
    assert_eq!(i.buffer.cursor, 3);
    i.handle_event(&key(KeyCode::Home));
    assert_eq!(i.buffer.cursor, 0);
    i.handle_event(&key(KeyCode::End));
    assert_eq!(i.buffer.cursor, 3);
    i.handle_event(&ctrl(KeyCode::Char('l')));
    assert_eq!(string_of(i.value()), "");
    assert_eq!(i.buffer.cursor, 0);
}

#[test]
fn plain_chars_insert_even_with_other_modifiers() {
    let mut i = focused("");
    i.handle_event(&ctrl(KeyCode::Char('q')));
    assert_eq!(string_of(i.value()), "q");
}

#[test]
fn unfocused_content_is_plain_text() {
    let i = Input::new("Input", "ab");
    assert_eq!(content(&i), vec![("ab".to_string(), StyleRole::Default)]);
}

#[test]
fn focused_empty_content_is_one_cursor_space() {
    let i = focused("");
    assert_eq!(content(&i), vec![(" ".to_string(), StyleRole::Cursor)]);
}

#[test]
fn focused_cursor_at_end_appends_cursor_space() {
    let i = focused("ab");
    assert_eq!(
        content(&i),
        vec![("ab".to_string(), StyleRole::Default), (" ".to_string(), StyleRole::Cursor)]
    );
}

#[test]
fn focused_cursor_inside_splits_text_around_it() {
    let mut i = focused("abc");
    i.handle_event(&key(KeyCode::Left));
    i.handle_event(&key(KeyCode::Left));
    assert_eq!(
        content(&i),
        vec![
            ("a".to_string(), StyleRole::Default),
            ("b".to_string(), StyleRole::Cursor),
            ("c".to_string(), StyleRole::Default),
        ]
    );
}

#[test]
fn validity_flag_is_advisory_state() {
    let mut i = focused(".");
    i.set_valid(false);
    assert!(!i.is_valid);
    i.handle_event(&key(KeyCode::Char('x')));
    assert_eq!(string_of(i.value()), ".x");
    i.set_valid(true);
    assert!(i.is_valid);
}
