use indexa::tui::text_box::TextBoxState;

#[test]
fn edit() {
    let mut state = TextBoxState::new();
    assert_eq!("", state.text());
    state.on_char('a');
    assert_eq!("a", state.text());
    state.on_left();
    state.on_char('x');
    assert_eq!("xa", state.text());
    state.on_char('あ');
    assert_eq!("xあa", state.text());
    state.on_backspace();
    assert_eq!("xa", state.text());
    state.on_end();
    state.on_char('亜');
    assert_eq!("xa亜", state.text());
    state.on_left();
    state.on_delete();
    assert_eq!("xa", state.text());
    state.on_home();
    state.on_char('𠮷');
    assert_eq!("𠮷xa", state.text());
    state.on_right();
    state.on_char('b');
    assert_eq!("𠮷xba", state.text());

    let mut state2 = TextBoxState::with_text("𠮷x".to_string());
    state2.on_char('b');
    state2.on_char('a');
    assert_eq!(state.text(), state2.text());

    state.clear();
    assert_eq!("", state.text());
}

#[test]
fn edges_do_nothing() {
    let mut state = TextBoxState::new();
    state.on_backspace();
    state.on_delete();
    state.on_left();
    state.on_right();
    assert_eq!("", state.text());
    let mut state = TextBoxState::with_text("ab".to_string());
    state.on_delete();
    assert_eq!("ab", state.text());
    state.on_home();
    state.on_backspace();
    assert_eq!("ab", state.text());
    state.on_delete();
    assert_eq!("b", state.text());
}

#[test]
fn deleting_removes_one_char_where_a_grapheme_starts() {
    let mut state = TextBoxState::with_text("e\u{301}x".to_string());
    state.on_home();
    assert!(state.on_delete());
    assert_eq!("\u{301}x", state.text());
    let mut state = TextBoxState::with_text("ae\u{301}".to_string());
    assert!(state.on_backspace());
    assert_eq!("a\u{301}", state.text());
    let mut state = TextBoxState::with_text("ae\u{301}".to_string());
    assert!(state.on_left());
    assert!(state.on_left());
    assert!(!state.on_left());
    assert!(state.on_right());
    state.on_char('z');
    assert_eq!("aze\u{301}", state.text());
}

#[test]
fn segments_mark_the_cursor() {
    let mut state = TextBoxState::with_text("ae\u{301}b".to_string());
    let (segs, at_end) = state.segments();
    assert_eq!(segs, vec![(0, 1, false), (1, 4, false), (4, 5, false)]);
    assert!(at_end);
    state.on_left();
    state.on_left();
    let (segs, at_end) = state.segments();
    assert_eq!(segs, vec![(0, 1, false), (1, 4, true), (4, 5, false)]);
    assert!(!at_end);
}

#[test]
fn typing_keeps_the_cursor_after_the_insertion() {
    let mut s = TextBoxState::with_text("𠮷x".to_string());
    s.on_char('b');
    s.on_char('a');
    assert_eq!(s.text(), "𠮷xba");
    assert_eq!(s.cursor(), s.text().len());
    assert!(!s.on_end());
    assert_eq!(s.cursor(), s.text().len());
    s.on_left();
    assert_eq!(s.cursor(), "𠮷xb".len());
}
