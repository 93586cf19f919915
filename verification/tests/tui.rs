use indexa::database::{EntryId, StatusKind};
use indexa::query::{QueryBuilder, SortOrder};
use indexa::Error;
use indexa::tui::app::{
    column_widths, counter_text, format_query_error, format_size, header_label, key_action, page_scroll_amount,
    status_message, Action, ColumnWidth, Finder, KeyCode, KeyModifiers, LoopStep, State,
};
use indexa::tui::backend::{draw, term_color, Attribute, Cell, Command, ModifierDiff, TermColor};
use indexa::tui::style::{Color, Modifier, Style};
use indexa::tui::table::{build_spans, columns_budget, layout_cells, visible_rows, TableState};

const NONE: KeyModifiers = KeyModifiers { shift: false, control: false, alt: false };
const CTRL: KeyModifiers = KeyModifiers { shift: false, control: true, alt: false };
const SHIFT: KeyModifiers = KeyModifiers { shift: true, control: false, alt: false };

#[test]
fn key_bindings() {
    assert_eq!(key_action(NONE, KeyCode::Enter), Action::Accept);
    assert_eq!(key_action(NONE, KeyCode::Esc), Action::Abort);
    assert_eq!(key_action(CTRL, KeyCode::Char('c')), Action::Abort);
    assert_eq!(key_action(CTRL, KeyCode::Char('g')), Action::Abort);
    assert_eq!(key_action(NONE, KeyCode::Up), Action::Up);
    assert_eq!(key_action(CTRL, KeyCode::Char('p')), Action::Up);
    assert_eq!(key_action(NONE, KeyCode::Down), Action::Down);
    assert_eq!(key_action(CTRL, KeyCode::Char('n')), Action::Down);
    assert_eq!(key_action(NONE, KeyCode::PageUp), Action::PageUp);
    assert_eq!(key_action(NONE, KeyCode::PageDown), Action::PageDown);
    assert_eq!(key_action(CTRL, KeyCode::Home), Action::ScrollToTop);
    assert_eq!(key_action(SHIFT, KeyCode::Home), Action::ScrollToTop);
    assert_eq!(key_action(CTRL, KeyCode::End), Action::ScrollToBottom);
    assert_eq!(key_action(SHIFT, KeyCode::End), Action::ScrollToBottom);
    assert_eq!(key_action(CTRL, KeyCode::Char('a')), Action::Home);
    assert_eq!(key_action(NONE, KeyCode::Home), Action::Home);
    assert_eq!(key_action(CTRL, KeyCode::Char('e')), Action::End);
    assert_eq!(key_action(NONE, KeyCode::End), Action::End);
    assert_eq!(key_action(CTRL, KeyCode::Char('u')), Action::Clear);
    assert_eq!(key_action(NONE, KeyCode::Char('u')), Action::Insert('u'));
    assert_eq!(key_action(SHIFT, KeyCode::Char('U')), Action::Insert('U'));
    assert_eq!(key_action(NONE, KeyCode::Tab), Action::Nothing);
}

fn hits(n: u32) -> Vec<EntryId> {
    (0..n).map(EntryId).collect()
}

#[test]
fn moving_the_selection() {
    let mut f = Finder::new(None);
    f.on_down();
    assert_eq!(f.table_state.selected(), 0);
    f.handle_search_result(hits(5));
    assert!(matches!(f.status, State::Ready));
    f.on_down();
    f.on_down();
    assert_eq!(f.table_state.selected(), 2);
    f.on_up();
    assert_eq!(f.table_state.selected(), 1);
    f.on_scroll_to_bottom();
    assert_eq!(f.table_state.selected(), 4);
    f.on_down();
    assert_eq!(f.table_state.selected(), 4);
    assert_eq!(f.selected_hit(), Some(EntryId(4)));
    f.handle_search_result(hits(2));
    assert_eq!(f.table_state.selected(), 1);
    f.on_scroll_to_top();
    assert_eq!(f.table_state.selected(), 0);
    f.on_up();
    assert_eq!(f.table_state.selected(), 0);
    f.page_scroll_amount = 10;
    f.on_pagedown();
    assert_eq!(f.table_state.selected(), 1);
    f.on_pageup();
    assert_eq!(f.table_state.selected(), 0);
    f.handle_scroll(false);
    assert_eq!(f.table_state.selected(), 1);
    f.handle_scroll(true);
    assert_eq!(f.table_state.selected(), 0);
}

#[test]
fn keys_edit_the_query() {
    let mut f = Finder::new(Some("ab".to_string()));
    assert_eq!(f.text_box_state.text(), "ab");
    assert!(f.handle_key(NONE, KeyCode::Char('c')));
    assert_eq!(f.text_box_state.text(), "abc");
    assert!(!f.handle_key(NONE, KeyCode::Left));
    assert!(f.handle_key(NONE, KeyCode::Backspace));
    assert_eq!(f.text_box_state.text(), "ac");
    assert!(!f.handle_key(CTRL, KeyCode::Char('d')) || f.text_box_state.text() == "a");
    assert!(f.handle_key(CTRL, KeyCode::Char('u')));
    assert_eq!(f.text_box_state.text(), "");
    assert!(!f.handle_key(NONE, KeyCode::Backspace));
    assert!(!f.handle_key(NONE, KeyCode::Enter));
    assert!(matches!(f.status, State::Accepted));
    assert_eq!(f.after_event(true), LoopStep::QuitAndAccept);
    assert_eq!(f.after_event(false), LoopStep::Quit);
    let mut f = Finder::new(None);
    f.handle_key(NONE, KeyCode::Esc);
    assert_eq!(f.after_event(true), LoopStep::Quit);
    let f = Finder::new(None);
    assert_eq!(f.after_event(true), LoopStep::Continue);
}

#[test]
fn query_errors() {
    assert_eq!(format_query_error("regex parse error:\n    (\n    ^\nerror: unclosed group\n"), "Error: unclosed group");
    assert_eq!(format_query_error("  oops "), "Oops");
    assert_eq!(format_query_error(""), "");
    let mut f = Finder::new(None);
    f.set_query_error("bad");
    assert_eq!(status_message(&f.status), ("Bad".to_string(), true));
    assert_eq!(status_message(&State::Loading), ("Loading database".to_string(), false));
    assert_eq!(status_message(&State::Searching), ("Searching".to_string(), false));
    assert_eq!(status_message(&State::Ready), ("Ready".to_string(), false));
}

#[test]
fn built_queries_start_a_search() {
    let mut f = Finder::new(None);
    let q = QueryBuilder::new("a").build().unwrap();
    assert!(f.on_query_built(Ok(q)).is_some());
    assert_eq!(status_message(&f.status), ("Searching".to_string(), false));
    let r = f.on_query_built(Err(Error::RegexSyntax("regex parse error:\n  (\nerror: unclosed group".to_string())));
    assert!(r.is_none());
    assert_eq!(status_message(&f.status), ("Error: unclosed group".to_string(), true));
}

#[test]
fn status_bar_and_headers() {
    assert_eq!(counter_text(3, 120), "3 / 120");
    assert_eq!(header_label(StatusKind::Size, StatusKind::Size, SortOrder::Ascending), "Size▲");
    assert_eq!(header_label(StatusKind::Path, StatusKind::Size, SortOrder::Descending), "Path");
    assert_eq!(header_label(StatusKind::Basename, StatusKind::Basename, SortOrder::Descending), "Basename▼");
    assert_eq!(page_scroll_amount(20), 17);
    assert_eq!(page_scroll_amount(3), 1);
}

#[test]
fn sizes() {
    assert_eq!(format_size(1, true, true), "1 item");
    assert_eq!(format_size(3, true, false), "3 items");
    assert_eq!(format_size(2048, false, false), "2048");
    assert!(format_size(2048, false, true).ends_with("KiB"));
    assert_ne!(format_size(2048, false, true), "2048");
}

#[test]
fn widths_of_columns() {
    let w = column_widths(&vec![None, Some(10), Some(16), None], 100);
    assert_eq!(w, vec![ColumnWidth::Min(37), ColumnWidth::Length(10), ColumnWidth::Length(16), ColumnWidth::Min(37)]);
}

#[test]
fn table_layout() {
    assert_eq!(visible_rows(0, 10, 4), (0, 4));
    assert_eq!(visible_rows(8, 10, 4), (8, 10));
    assert_eq!(visible_rows(12, 10, 4), (10, 10));
    assert_eq!(columns_budget(20, 2, 3), Some(14));
    assert_eq!(columns_budget(5, 2, 3), None);
    assert_eq!(layout_cells(1, &vec![5, 4], 2, 2), vec![(3, 3), (8, 4)]);
    assert_eq!(
        build_spans(10, &vec![(2, 4), (4, 6), (8, 8)]),
        vec![(0, 2, false), (2, 4, true), (4, 6, true), (6, 8, false), (8, 10, false)]
    );
    let mut t = TableState::new();
    t.select(7);
    t.scroll_to_selected(20, 5);
    assert_eq!(t.offset(), 3);
    t.select(1);
    t.scroll_to_selected(20, 5);
    assert_eq!(t.offset(), 1);
}

#[test]
fn drawing_cells() {
    let plain = Modifier::empty();
    let cell = |x: u16, y: u16, fg: Color, modifier: Modifier| Cell {
        x,
        y,
        symbol: "x".to_string(),
        fg,
        bg: Color::Reset,
        modifier,
    };
    let cells = vec![
        cell(0, 0, Color::Reset, plain),
        cell(1, 0, Color::Red, plain),
        cell(5, 0, Color::Red, Modifier { bold: true, ..plain }),
    ];
    assert_eq!(
        draw(&cells),
        vec![
            Command::MoveTo(0, 0),
            Command::Print(0),
            Command::SetForeground(TermColor::DarkRed),
            Command::Print(1),
            Command::MoveTo(5, 0),
            Command::SetAttribute(Attribute::Bold),
            Command::Print(2),
            Command::SetForeground(TermColor::Reset),
            Command::SetBackground(TermColor::Reset),
            Command::SetAttribute(Attribute::Reset),
        ]
    );
    assert_eq!(term_color(Color::Rgb(1, 2, 3)), TermColor::Rgb { r: 1, g: 2, b: 3 });
    assert_eq!(term_color(Color::LightBlue), TermColor::Blue);
    let diff = ModifierDiff { from: Modifier { bold: true, ..plain }, to: Modifier { dim: true, ..plain } };
    assert_eq!(diff.queue(), vec![Attribute::NormalIntensity, Attribute::Dim, Attribute::Dim]);
    let style = Style::new().fg(Color::Blue).add_bold();
    assert_eq!(style.fg, Some(Color::Blue));
    assert!(style.add_modifier.bold);
}

#[test]
fn sizes_up_to_the_human_readable_limit() {
    assert!(format_size(indexa::tui::app::HUMAN_SIZE_LIMIT - 1, false, true).ends_with("EiB"));
    assert_eq!(format_size(u64::MAX, false, false), "18446744073709551615");
}
