use jqtui::viewport::Viewport;

#[test]
fn scroll_offset_stays_in_bounds_through_any_sequence() {
    let mut vp = Viewport::new(10, 4);
    vp.scroll_down(3);
    assert!(vp.scroll_offset <= 9);
    vp.scroll_down(100);
    assert_eq!(vp.scroll_offset, 9);
    vp.scroll_up(2);
    assert_eq!(vp.scroll_offset, 7);
    vp.scroll_up(100);
    assert_eq!(vp.scroll_offset, 0);
    vp.scroll_down(5);
    vp.set_line_count(3);
    assert!(vp.scroll_offset <= 2);
    vp.set_line_count(0);
    assert_eq!(vp.scroll_offset, 0);
    vp.scroll_down(1);
    assert_eq!(vp.scroll_offset, 0);
}

#[test]
fn set_line_count_reclamps_stale_offset() {
    let mut vp = Viewport::new(100, 10);
    vp.scroll_down(50);
    assert_eq!(vp.scroll_offset, 50);
    vp.set_line_count(20);
    assert_eq!(vp.scroll_offset, 19);
    vp.set_line_count(30);
    assert_eq!(vp.scroll_offset, 19);
}

#[test]
fn visible_range_clips_to_content() {
    let mut vp = Viewport::new(10, 4);
    assert_eq!(vp.visible_range(), (0, 4));
    vp.scroll_down(8);
    assert_eq!(vp.visible_range(), (8, 10));
    let vp2 = Viewport::new(2, 5);
    assert_eq!(vp2.visible_range(), (0, 2));
    let vp3 = Viewport::new(0, 5);
    assert_eq!(vp3.visible_range(), (0, 0));
}

#[test]
fn single_line_content_never_scrolls() {
    let mut vp = Viewport::new(1, 4);
    vp.scroll_down(3);
    assert_eq!(vp.scroll_offset, 0);
    vp.scroll_up(1);
    assert_eq!(vp.scroll_offset, 0);
}
