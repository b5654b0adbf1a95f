use jqtui::buffer::TextEditBuffer;

fn chars(s: &str) -> Vec<char> {
    s.chars().collect()
}

fn text_of(b: &TextEditBuffer) -> String {
    b.text.iter().collect()
}

#[test]
fn insert_advances_cursor() {
    let mut b = TextEditBuffer::new();
    b.insert('a');
    b.insert('b');
    assert_eq!(text_of(&b), "ab");
    assert_eq!(b.cursor, 2);
    b.move_left();
    b.insert('x');
    assert_eq!(text_of(&b), "axb");
    assert_eq!(b.cursor, 2);
}

#[test]
fn insert_then_delete_before_restores_state() {
    let mut b = TextEditBuffer::with_text(chars("hello"));
    b.move_left();
    b.move_left();
    let text_before = text_of(&b);
    let cursor_before = b.cursor;
    b.insert('Z');
    b.delete_before();
    assert_eq!(text_of(&b), text_before);
    assert_eq!(b.cursor, cursor_before);
}

#[test]
fn cursor_stays_in_bounds_through_any_sequence() {
    let mut b = TextEditBuffer::new();
    b.delete_before();
    assert!(b.cursor <= b.text.len());
    b.insert('q');
    assert!(b.cursor <= b.text.len());
    b.move_right();
    assert!(b.cursor <= b.text.len());
    b.move_home();
    assert!(b.cursor <= b.text.len());
    b.delete_at();
    assert!(b.cursor <= b.text.len());
    b.delete_at();
    assert!(b.cursor <= b.text.len());
    b.insert('r');
    b.insert('s');
    b.move_end();
    assert!(b.cursor <= b.text.len());
    b.move_left();
    b.delete_before();
    assert!(b.cursor <= b.text.len());
    b.clear();
    assert_eq!(b.cursor, 0);
    assert_eq!(text_of(&b), "");
}

#[test]
fn delete_before_at_start_is_noop() {
    let mut b = TextEditBuffer::with_text(chars("ab"));
    b.move_home();
    b.delete_before();
    assert_eq!(text_of(&b), "ab");
    assert_eq!(b.cursor, 0);
}

#[test]
fn delete_at_end_is_noop() {
    let mut b = TextEditBuffer::with_text(chars("ab"));
    b.delete_at();
    assert_eq!(text_of(&b), "ab");
    assert_eq!(b.cursor, 2);
}

#[test]
fn delete_at_removes_under_cursor() {
    let mut b = TextEditBuffer::with_text(chars("abc"));
    b.move_home();
    b.move_right();
    b.delete_at();
    assert_eq!(text_of(&b), "ac");
    assert_eq!(b.cursor, 1);
}

#[test]
fn moves_clamp_at_both_ends() {
    let mut b = TextEditBuffer::with_text(chars("x"));
    b.move_right();
    assert_eq!(b.cursor, 1);
    b.move_left();
    b.move_left();
    assert_eq!(b.cursor, 0);
    b.move_end();
    assert_eq!(b.cursor, 1);
}
