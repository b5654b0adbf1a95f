use jqtui::focus::Selected;

#[test]
fn next_cycles_in_three() {
    let mut s = Selected::Input;
    s.next();
    assert_eq!(s, Selected::JsonFiltered);
    s.next();
    assert_eq!(s, Selected::JsonBase);
    s.next();
    assert_eq!(s, Selected::Input);
}

#[test]
fn prev_cycles_in_three_backward() {
    let mut s = Selected::Input;
    s.prev();
    assert_eq!(s, Selected::JsonBase);
    s.prev();
    assert_eq!(s, Selected::JsonFiltered);
    s.prev();
    assert_eq!(s, Selected::Input);
}

#[test]
fn next_and_prev_are_inverses() {
    for start in [Selected::Input, Selected::JsonFiltered, Selected::JsonBase] {
        let mut s = start;
        s.next();
        s.prev();
        assert_eq!(s, start);
        s.prev();
        s.next();
        assert_eq!(s, start);
    }
}
