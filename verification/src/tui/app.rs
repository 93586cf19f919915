//! The interactive finder's decisions: what each key does, how the
//! selection moves, what the status bar says, and how the table's columns
//! are laid out and filled.

use vstd::prelude::*;
use crate::database::{EntryId, Entry, StatusKind, FileTime};
use crate::database::last_index_of;
use crate::query::{Query, SortOrder};
use crate::tui::table::TableState;
use crate::tui::text_box::TextBoxState;
use crate::text::{decimal, spec_decimal, str_trim, trim_ws, rsplit_once_char, char_to_uppercase, uppercase,
    split_first_char};
use crate::mode::Mode;
use crate::Error;
use crate::database::indexer::Metadata;
use crate::config::{ModeFormatUnix, ModeFormatWindows};

verus! {

/// What the finder is doing.
pub enum State {
    Loading,
    Ready,
    Searching,
    InvalidQuery(String),
    Aborted,
    Accepted,
}

/// A key of the keyboard.
#[derive(Clone, Copy, PartialEq, Eq, Structural, Debug)]
pub enum KeyCode {
    Backspace,
    Enter,
    Left,
    Right,
    Up,
    Down,
    Home,
    End,
    PageUp,
    PageDown,
    Tab,
    BackTab,
    Delete,
    Insert,
    F(u8),
    Char(char),
    Null,
    Esc,
}

/// The modifier keys held with a key.
#[derive(Clone, Copy, PartialEq, Eq, Structural, Debug)]
pub struct KeyModifiers {
    pub shift: bool,
    pub control: bool,
    pub alt: bool,
}

impl KeyModifiers {
    /// Control alone.
    pub open spec fn is_control(self) -> bool {
        self.control && !self.shift && !self.alt
    }

    /// Shift alone.
    pub open spec fn is_shift(self) -> bool {
        self.shift && !self.control && !self.alt
    }
}

/// What a key asks for.
#[derive(Clone, Copy, PartialEq, Eq, Structural, Debug)]
pub enum Action {
    Abort,
    Accept,
    Up,
    Down,
    PageUp,
    PageDown,
    ScrollToTop,
    ScrollToBottom,
    Backspace,
    Delete,
    Left,
    Right,
    Home,
    End,
    Clear,
    Insert(char),
    Nothing,
}

/// The key bindings: Esc, Ctrl+C or Ctrl+G abort; Enter accepts; Up or
/// Ctrl+P, Down or Ctrl+N, Page Up and Page Down move the selection;
/// Ctrl+Home or Shift+Home and Ctrl+End or Shift+End scroll to the top and
/// the bottom; Backspace or Ctrl+H, Delete or Ctrl+D edit; Left or Ctrl+B,
/// Right or Ctrl+F, Home or Ctrl+A, End or Ctrl+E move the cursor; Ctrl+U
/// clears the query; any other character is typed. The first binding that
/// fits wins.
pub open spec fn spec_key_action(m: KeyModifiers, code: KeyCode) -> Action {
    if code == KeyCode::Esc || (m.is_control() && (code == KeyCode::Char('c') || code == KeyCode::Char('g'))) {
        Action::Abort
    } else if code == KeyCode::Enter {
        Action::Accept
    } else if code == KeyCode::Up || (m.is_control() && code == KeyCode::Char('p')) {
        Action::Up
    } else if code == KeyCode::Down || (m.is_control() && code == KeyCode::Char('n')) {
        Action::Down
    } else if code == KeyCode::PageUp {
        Action::PageUp
    } else if code == KeyCode::PageDown {
        Action::PageDown
    } else if (m.is_control() || m.is_shift()) && code == KeyCode::Home {
        Action::ScrollToTop
    } else if (m.is_control() || m.is_shift()) && code == KeyCode::End {
        Action::ScrollToBottom
    } else if code == KeyCode::Backspace || (m.is_control() && code == KeyCode::Char('h')) {
        Action::Backspace
    } else if code == KeyCode::Delete || (m.is_control() && code == KeyCode::Char('d')) {
        Action::Delete
    } else if code == KeyCode::Left || (m.is_control() && code == KeyCode::Char('b')) {
        Action::Left
    } else if code == KeyCode::Right || (m.is_control() && code == KeyCode::Char('f')) {
        Action::Right
    } else if code == KeyCode::Home || (m.is_control() && code == KeyCode::Char('a')) {
        Action::Home
    } else if code == KeyCode::End || (m.is_control() && code == KeyCode::Char('e')) {
        Action::End
    } else if m.is_control() && code == KeyCode::Char('u') {
        Action::Clear
    } else {
        match code {
            KeyCode::Char(c) => Action::Insert(c),
            _ => Action::Nothing,
        }
    }
}

/// The README's table of key bindings, key by key, whatever modifiers are
/// held unless a binding asks for Control or Shift alone: the keys named by
/// the table always do the same; Home and End scroll the hits with Control
/// or Shift alone and move the cursor otherwise; a character typed with
/// Control alone runs its binding, and any other character is inserted;
/// the keys without a binding do nothing.
pub proof fn law_key_bindings(m: KeyModifiers, c: char)
    ensures
        spec_key_action(m, KeyCode::Esc) == Action::Abort,
        spec_key_action(m, KeyCode::Enter) == Action::Accept,
        spec_key_action(m, KeyCode::Up) == Action::Up,
        spec_key_action(m, KeyCode::Down) == Action::Down,
        spec_key_action(m, KeyCode::PageUp) == Action::PageUp,
        spec_key_action(m, KeyCode::PageDown) == Action::PageDown,
        spec_key_action(m, KeyCode::Backspace) == Action::Backspace,
        spec_key_action(m, KeyCode::Delete) == Action::Delete,
        spec_key_action(m, KeyCode::Left) == Action::Left,
        spec_key_action(m, KeyCode::Right) == Action::Right,
        spec_key_action(m, KeyCode::Home) == if (m.control || m.shift) && !(m.control && m.shift) && !m.alt {
            Action::ScrollToTop
        } else {
            Action::Home
        },
        spec_key_action(m, KeyCode::End) == if (m.control || m.shift) && !(m.control && m.shift) && !m.alt {
            Action::ScrollToBottom
        } else {
            Action::End
        },
        spec_key_action(m, KeyCode::Tab) == Action::Nothing,
        spec_key_action(m, KeyCode::BackTab) == Action::Nothing,
        spec_key_action(m, KeyCode::Insert) == Action::Nothing,
        spec_key_action(m, KeyCode::Null) == Action::Nothing,
        forall|n: u8| #[trigger] spec_key_action(m, KeyCode::F(n)) == Action::Nothing,
        !(m.control && !m.shift && !m.alt) ==> spec_key_action(m, KeyCode::Char(c)) == Action::Insert(c),
        m.control && !m.shift && !m.alt ==> spec_key_action(m, KeyCode::Char(c)) == if c == 'c' || c == 'g' {
            Action::Abort
        } else if c == 'p' {
            Action::Up
        } else if c == 'n' {
            Action::Down
        } else if c == 'h' {
            Action::Backspace
        } else if c == 'd' {
            Action::Delete
        } else if c == 'b' {
            Action::Left
        } else if c == 'f' {
            Action::Right
        } else if c == 'a' {
            Action::Home
        } else if c == 'e' {
            Action::End
        } else if c == 'u' {
            Action::Clear
        } else {
            Action::Insert(c)
        },
{
}

/// Moving the selection keeps it on a hit: Up and Down move it by one and
/// Page Up and Page Down by a page, stopping at the first and the last hit;
/// scrolling to the top or the bottom selects the first or the last hit;
/// other actions, and any action without hits, leave it where it is.
pub proof fn law_selection_moves(a: Action, sel: int, len: int, page: int)
    requires
        0 <= sel,
        0 <= len,
        len > 0 ==> sel < len,
        page >= 1,
    ensures
        len == 0 ==> moved_selection(a, sel, len, page) == sel,
        len > 0 ==> 0 <= moved_selection(a, sel, len, page) < len,
        len > 0 ==> moved_selection(Action::Up, sel, len, page) == if sel > 0 { sel - 1 } else { 0 },
        len > 0 ==> moved_selection(Action::Down, sel, len, page) == if sel + 1 < len { sel + 1 } else { sel },
        len > 0 ==> moved_selection(Action::PageUp, sel, len, page) == if sel >= page { sel - page } else { 0 },
        len > 0 ==> moved_selection(Action::PageDown, sel, len, page)
            == if sel + page < len { sel + page } else { len - 1 },
        len > 0 ==> moved_selection(Action::ScrollToTop, sel, len, page) == 0,
        len > 0 ==> moved_selection(Action::ScrollToBottom, sel, len, page) == len - 1,
        !(a is Up || a is Down || a is PageUp || a is PageDown || a is ScrollToTop || a is ScrollToBottom)
            ==> moved_selection(a, sel, len, page) == sel,
{
}

/// What a key asks for (see [`spec_key_action`]).
pub fn key_action(m: KeyModifiers, code: KeyCode) -> (a: Action)
    ensures
        a == spec_key_action(m, code),
{
    let ctrl = m.control && !m.shift && !m.alt;
    let shift = m.shift && !m.control && !m.alt;
    let is_char = |c: char| -> (r: bool)
        ensures
            r == (code == KeyCode::Char(c)),
        {
            match code {
                KeyCode::Char(x) => x == c,
                _ => false,
            }
        };
    if code == KeyCode::Esc || (ctrl && (is_char('c') || is_char('g'))) {
        Action::Abort
    } else if code == KeyCode::Enter {
        Action::Accept
    } else if code == KeyCode::Up || (ctrl && is_char('p')) {
        Action::Up
    } else if code == KeyCode::Down || (ctrl && is_char('n')) {
        Action::Down
    } else if code == KeyCode::PageUp {
        Action::PageUp
    } else if code == KeyCode::PageDown {
        Action::PageDown
    } else if (ctrl || shift) && code == KeyCode::Home {
        Action::ScrollToTop
    } else if (ctrl || shift) && code == KeyCode::End {
        Action::ScrollToBottom
    } else if code == KeyCode::Backspace || (ctrl && is_char('h')) {
        Action::Backspace
    } else if code == KeyCode::Delete || (ctrl && is_char('d')) {
        Action::Delete
    } else if code == KeyCode::Left || (ctrl && is_char('b')) {
        Action::Left
    } else if code == KeyCode::Right || (ctrl && is_char('f')) {
        Action::Right
    } else if code == KeyCode::Home || (ctrl && is_char('a')) {
        Action::Home
    } else if code == KeyCode::End || (ctrl && is_char('e')) {
        Action::End
    } else if ctrl && is_char('u') {
        Action::Clear
    } else {
        match code {
            KeyCode::Char(c) => Action::Insert(c),
            _ => Action::Nothing,
        }
    }
}

/// Where a navigation action moves the selection among `len` hits, a page
/// being `page` rows; with no hits, or for another action, it stays.
pub open spec fn moved_selection(a: Action, sel: int, len: int, page: int) -> int {
    if len == 0 {
        sel
    } else {
        match a {
            Action::Up => sat_sub(sel, 1),
            Action::Down => min(sel + 1, len - 1),
            Action::PageUp => sat_sub(sel, page),
            Action::PageDown => min(sel + page, len - 1),
            Action::ScrollToTop => 0,
            Action::ScrollToBottom => len - 1,
            _ => sel,
        }
    }
}

/// What an action does to the query box: the edits and cursor moves of
/// the box; any other action leaves it as it is.
pub open spec fn edited(a: Action, before: TextBoxState, after: TextBoxState) -> bool {
    match a {
        Action::Backspace => TextBoxState::backspaced(before, after),
        Action::Delete => TextBoxState::deleted(before, after),
        Action::Left => TextBoxState::moved_left(before, after),
        Action::Right => TextBoxState::moved_right(before, after),
        Action::Home => TextBoxState::moved_home(before, after),
        Action::End => TextBoxState::moved_end(before, after),
        Action::Clear => TextBoxState::cleared(after),
        Action::Insert(c) => TextBoxState::typed(before, after, c),
        _ => after == before,
    }
}

/// The finder's state apart from the database and the searcher: the
/// status, the hits, the selection, the query text, and how far a page
/// scrolls.
pub struct Finder {
    pub status: State,
    pub hits: Vec<EntryId>,
    pub table_state: TableState,
    pub text_box_state: TextBoxState,
    pub page_scroll_amount: u16,
}

/// `a - b`, or 0.
pub open spec fn sat_sub(a: int, b: int) -> int {
    if a >= b { a - b } else { 0 }
}

/// The smaller of two numbers.
pub open spec fn min(a: int, b: int) -> int {
    if a <= b { a } else { b }
}

/// What happens after an event has been handled.
#[derive(Clone, Copy, PartialEq, Eq, Structural, Debug)]
pub enum LoopStep {
    /// Keep going.
    Continue,
    /// Restore the terminal and stop.
    Quit,
    /// Restore the terminal, print the selected path and stop.
    QuitAndAccept,
}

impl Finder {
    /// A finder loading its database, with the initial query in the box.
    pub fn new(query: Option<String>) -> (f: Finder)
        ensures
            f.status is Loading,
            f.hits@.len() == 0,
            f.table_state.spec_selected() == 0,
            f.table_state.spec_offset() == 0,
            f.text_box_state.spec_text() == match query { Some(q) => q@, None => Seq::empty() },
            f.text_box_state.spec_cursor() == f.text_box_state.spec_bytes().len(),
            f.page_scroll_amount == 0,
    {
        let text = match query {
            Some(q) => q,
            None => String::new(),
        };
        Finder {
            status: State::Loading,
            hits: Vec::new(),
            table_state: TableState::new(),
            text_box_state: TextBoxState::with_text(text),
            page_scroll_amount: 0,
        }
    }

    /// Moves the selection up one row.
    pub fn on_up(&mut self)
        ensures
            final(self).hits@ == old(self).hits@,
            final(self).status == old(self).status,
            final(self).text_box_state == old(self).text_box_state,
            final(self).page_scroll_amount == old(self).page_scroll_amount,
            final(self).table_state.spec_selected() == if old(self).hits@.len() > 0 {
                sat_sub(old(self).table_state.spec_selected(), 1)
            } else {
                old(self).table_state.spec_selected()
            },
            final(self).table_state.spec_offset() == old(self).table_state.spec_offset(),
    {
        if self.hits.len() > 0 {
            let s = self.table_state.selected();
            self.table_state.select(s.saturating_sub(1));
        }
    }

    /// Moves the selection down one row, stopping at the last hit.
    pub fn on_down(&mut self)
        ensures
            final(self).hits@ == old(self).hits@,
            final(self).status == old(self).status,
            final(self).text_box_state == old(self).text_box_state,
            final(self).page_scroll_amount == old(self).page_scroll_amount,
            final(self).table_state.spec_selected() == if old(self).hits@.len() > 0 {
                min(old(self).table_state.spec_selected() + 1, old(self).hits@.len() - 1)
            } else {
                old(self).table_state.spec_selected()
            },
            final(self).table_state.spec_offset() == old(self).table_state.spec_offset(),
    {
        if self.hits.len() > 0 {
            let s = self.table_state.selected();
            let last = self.hits.len() - 1;
            self.table_state.select(if s < last { s + 1 } else { last });
        }
    }

    /// Moves the selection up a page.
    pub fn on_pageup(&mut self)
        ensures
            final(self).hits@ == old(self).hits@,
            final(self).status == old(self).status,
            final(self).text_box_state == old(self).text_box_state,
            final(self).page_scroll_amount == old(self).page_scroll_amount,
            final(self).table_state.spec_selected() == if old(self).hits@.len() > 0 {
                sat_sub(old(self).table_state.spec_selected(), old(self).page_scroll_amount as int)
            } else {
                old(self).table_state.spec_selected()
            },
            final(self).table_state.spec_offset() == old(self).table_state.spec_offset(),
    {
        if self.hits.len() > 0 {
            let s = self.table_state.selected();
            self.table_state.select(s.saturating_sub(self.page_scroll_amount as usize));
        }
    }

    /// Moves the selection down a page, stopping at the last hit.
    pub fn on_pagedown(&mut self)
        ensures
            final(self).hits@ == old(self).hits@,
            final(self).status == old(self).status,
            final(self).text_box_state == old(self).text_box_state,
            final(self).page_scroll_amount == old(self).page_scroll_amount,
            final(self).table_state.spec_selected() == if old(self).hits@.len() > 0 {
                min(old(self).table_state.spec_selected() + old(self).page_scroll_amount, old(self).hits@.len() - 1)
            } else {
                old(self).table_state.spec_selected()
            },
            final(self).table_state.spec_offset() == old(self).table_state.spec_offset(),
    {
        if self.hits.len() > 0 {
            let s = self.table_state.selected();
            let last = self.hits.len() - 1;
            let page = self.page_scroll_amount as usize;
            self.table_state.select(if s <= last && page <= last - s { s + page } else { last });
        }
    }

    /// Selects the first hit.
    pub fn on_scroll_to_top(&mut self)
        ensures
            final(self).hits@ == old(self).hits@,
            final(self).status == old(self).status,
            final(self).text_box_state == old(self).text_box_state,
            final(self).page_scroll_amount == old(self).page_scroll_amount,
            final(self).table_state.spec_selected() == if old(self).hits@.len() > 0 { 0 } else {
                old(self).table_state.spec_selected()
            },
            final(self).table_state.spec_offset() == old(self).table_state.spec_offset(),
    {
        if self.hits.len() > 0 {
            self.table_state.select(0);
        }
    }

    /// Selects the last hit.
    pub fn on_scroll_to_bottom(&mut self)
        ensures
            final(self).hits@ == old(self).hits@,
            final(self).status == old(self).status,
            final(self).text_box_state == old(self).text_box_state,
            final(self).page_scroll_amount == old(self).page_scroll_amount,
            final(self).table_state.spec_selected() == if old(self).hits@.len() > 0 {
                old(self).hits@.len() - 1
            } else {
                old(self).table_state.spec_selected()
            },
            final(self).table_state.spec_offset() == old(self).table_state.spec_offset(),
    {
        if self.hits.len() > 0 {
            let last = self.hits.len() - 1;
            self.table_state.select(last);
        }
    }

    /// Handles a key (see [`spec_key_action`]): changes the status, moves
    /// the selection or edits the query. Returns whether the query text
    /// changed, so that it is searched again.
    pub fn handle_key(&mut self, m: KeyModifiers, code: KeyCode) -> (changed: bool)
        ensures
            final(self).hits@ == old(self).hits@,
            changed == match spec_key_action(m, code) {
                Action::Backspace => old(self).text_box_state.spec_cursor() > 0,
                Action::Delete => old(self).text_box_state.spec_cursor() < old(self).text_box_state.spec_bytes().len(),
                Action::Clear | Action::Insert(_) => true,
                _ => false,
            },
            spec_key_action(m, code) == Action::Abort ==> final(self).status is Aborted,
            spec_key_action(m, code) == Action::Accept ==> final(self).status is Accepted,
            spec_key_action(m, code) != Action::Abort && spec_key_action(m, code) != Action::Accept
                ==> final(self).status == old(self).status,
            final(self).table_state.spec_selected() == moved_selection(spec_key_action(m, code),
                old(self).table_state.spec_selected(), old(self).hits@.len() as int, old(self).page_scroll_amount as int),
            edited(spec_key_action(m, code), old(self).text_box_state, final(self).text_box_state),
            final(self).page_scroll_amount == old(self).page_scroll_amount,
    {
        let action = key_action(m, code);
        match action {
            Action::Abort => {
                self.status = State::Aborted;
                false
            },
            Action::Accept => {
                self.status = State::Accepted;
                false
            },
            Action::Up => {
                self.on_up();
                false
            },
            Action::Down => {
                self.on_down();
                false
            },
            Action::PageUp => {
                self.on_pageup();
                false
            },
            Action::PageDown => {
                self.on_pagedown();
                false
            },
            Action::ScrollToTop => {
                self.on_scroll_to_top();
                false
            },
            Action::ScrollToBottom => {
                self.on_scroll_to_bottom();
                false
            },
            Action::Backspace => self.text_box_state.on_backspace(),
            Action::Delete => self.text_box_state.on_delete(),
            Action::Left => {
                self.text_box_state.on_left();
                false
            },
            Action::Right => {
                self.text_box_state.on_right();
                false
            },
            Action::Home => {
                self.text_box_state.on_home();
                false
            },
            Action::End => {
                self.text_box_state.on_end();
                false
            },
            Action::Clear => {
                self.text_box_state.clear();
                true
            },
            Action::Insert(c) => {
                self.text_box_state.on_char(c);
                true
            },
            Action::Nothing => false,
        }
    }

    /// Handles the mouse wheel: up or down one row.
    pub fn handle_scroll(&mut self, up: bool)
        ensures
            final(self).hits@ == old(self).hits@,
            final(self).status == old(self).status,
            final(self).text_box_state == old(self).text_box_state,
            final(self).table_state.spec_selected() == if old(self).hits@.len() == 0 {
                old(self).table_state.spec_selected()
            } else if up {
                sat_sub(old(self).table_state.spec_selected(), 1)
            } else {
                min(old(self).table_state.spec_selected() + 1, old(self).hits@.len() - 1)
            },
    {
        if up {
            self.on_up();
        } else {
            self.on_down();
        }
    }

    /// Takes the hits of a finished search: the finder is ready, and the
    /// selection stays on the same row, or the last one if there are fewer.
    pub fn handle_search_result(&mut self, hits: Vec<EntryId>)
        ensures
            final(self).hits@ == hits@,
            final(self).text_box_state == old(self).text_box_state,
            final(self).status is Ready,
            final(self).table_state.spec_selected() == if hits@.len() > 0 {
                min(old(self).table_state.spec_selected(), hits@.len() - 1)
            } else {
                old(self).table_state.spec_selected()
            },
    {
        self.hits = hits;
        self.status = State::Ready;
        if self.hits.len() > 0 {
            let s = self.table_state.selected();
            let last = self.hits.len() - 1;
            self.table_state.select(if s < last { s } else { last });
        }
    }

    /// The selected hit, if there is one.
    pub fn selected_hit(&self) -> (r: Option<EntryId>)
        ensures
            r == (if self.table_state.spec_selected() < self.hits@.len() {
                Some(self.hits@[self.table_state.spec_selected()])
            } else {
                None
            }),
    {
        let s = self.table_state.selected();
        if s < self.hits.len() {
            Some(self.hits[s])
        } else {
            None
        }
    }

    /// What the event loop does once an event has been handled: it stops
    /// on abort; on accept it stops too, printing the selection once the
    /// database is there.
    pub fn after_event(&self, loaded: bool) -> (step: LoopStep)
        ensures
            step == match self.status {
                State::Aborted => LoopStep::Quit,
                State::Accepted => if loaded { LoopStep::QuitAndAccept } else { LoopStep::Quit },
                _ => LoopStep::Continue,
            },
    {
        match self.status {
            State::Aborted => LoopStep::Quit,
            State::Accepted => if loaded { LoopStep::QuitAndAccept } else { LoopStep::Quit },
            _ => LoopStep::Continue,
        }
    }

    /// Records that a query could not be built, with its error message
    /// shortened for the status bar (see [`spec_query_error`]).
    pub fn set_query_error(&mut self, message: &str)
        ensures
            final(self).status matches State::InvalidQuery(m) && m@ == spec_query_error(message@),
            final(self).hits@ == old(self).hits@,
    {
        self.status = State::InvalidQuery(format_query_error(message));
    }

    /// Takes the result of building the query typed in the box: a query
    /// starts a search, which the finder shows, and is handed back for the
    /// searcher; a pattern that does not compile is reported in the status
    /// bar, and nothing is handed back.
    pub fn on_query_built(&mut self, built: Result<Query, Error>) -> (r: Option<Query>)
        requires
            built is Ok || built matches Err(Error::Regex(_)) || built matches Err(Error::RegexSyntax(_)),
        ensures
            final(self).hits@ == old(self).hits@,
            final(self).table_state == old(self).table_state,
            final(self).text_box_state == old(self).text_box_state,
            final(self).page_scroll_amount == old(self).page_scroll_amount,
            match built {
                Ok(q) => r == Some(q) && final(self).status == State::Searching,
                Err(Error::Regex(m)) | Err(Error::RegexSyntax(m)) => r is None
                    && (final(self).status matches State::InvalidQuery(t) && t@ == spec_query_error(m@)),
                Err(_) => false,
            },
    {
        match built {
            Ok(q) => {
                self.status = State::Searching;
                Some(q)
            },
            Err(Error::Regex(m)) | Err(Error::RegexSyntax(m)) => {
                self.status = State::InvalidQuery(format_query_error(m.as_str()));
                None
            },
            Err(_) => None,
        }
    }
}

/// The text after the last line break, or the whole text without one.
pub open spec fn last_line(s: Seq<char>) -> Seq<char> {
    if s.contains('\n') { s.subrange(last_index_of(s, '\n') + 1, s.len() as int) } else { s }
}

/// An error message fit for the status bar: trimmed; of several lines only
/// the last, trimmed; with its first character in upper case.
pub open spec fn spec_query_error(msg: Seq<char>) -> Seq<char> {
    let t = trim_ws(msg);
    let l = if t.contains('\n') { trim_ws(last_line(t)) } else { t };
    if l.len() == 0 { l } else { uppercase(l[0]) + l.drop_first() }
}

/// Shortens an error message for the status bar (see [`spec_query_error`]).
pub fn format_query_error(msg: &str) -> (r: String)
    ensures
        r@ == spec_query_error(msg@),
{
    let t = str_trim(msg);
    let l = match rsplit_once_char(t, '\n') {
        Some((before, after)) => {
            proof {
                crate::database::lemma_last_index_split(before@, after@, '\n');
            }
            str_trim(after)
        },
        None => t,
    };
    match split_first_char(l) {
        Some((c, rest)) => {
            let mut s = char_to_uppercase(c);
            s.push_str(rest);
            s
        },
        None => l.to_owned(),
    }
}

/// The message of the status bar.
pub open spec fn spec_status_message(s: State) -> Seq<char> {
    match s {
        State::Loading => "Loading database"@,
        State::Searching => "Searching"@,
        State::Ready | State::Aborted | State::Accepted => "Ready"@,
        State::InvalidQuery(m) => m@,
    }
}

/// The message of the status bar, and whether it reports an error.
pub fn status_message(s: &State) -> (r: (String, bool))
    ensures
        r.0@ == spec_status_message(*s),
        r.1 == (s is InvalidQuery),
{
    match s {
        State::Loading => ("Loading database".to_owned(), false),
        State::Searching => ("Searching".to_owned(), false),
        State::Ready | State::Aborted | State::Accepted => ("Ready".to_owned(), false),
        State::InvalidQuery(m) => (m.clone(), true),
    }
}

/// The counter of the status bar: hits and entries.
pub fn counter_text(hits: usize, entries: usize) -> (r: String)
    ensures
        r@ == spec_decimal(hits as nat) + " / "@ + spec_decimal(entries as nat),
{
    let mut s = decimal(hits as u64);
    s.push_str(" / ");
    crate::text::push_decimal(&mut s, entries as u64);
    s
}

/// The header of a column: the status's name, marked with the sort order
/// when the results are sorted by it.
pub open spec fn spec_header_label(kind: StatusKind, sort_by: StatusKind, order: SortOrder) -> Seq<char> {
    if kind == sort_by {
        match order {
            SortOrder::Ascending => kind.spec_name() + "▲"@,
            SortOrder::Descending => kind.spec_name() + "▼"@,
        }
    } else {
        kind.spec_name()
    }
}

/// The header of a column (see [`spec_header_label`]).
pub fn header_label(kind: StatusKind, sort_by: StatusKind, order: SortOrder) -> (r: String)
    ensures
        r@ == spec_header_label(kind, sort_by, order),
{
    let mut s = kind.name().to_owned();
    if kind == sort_by {
        match order {
            SortOrder::Ascending => s.push_str("▲"),
            SortOrder::Descending => s.push_str("▼"),
        }
    }
    s
}

/// How wide a column is asked to be.
#[derive(Clone, Copy, PartialEq, Eq, Structural, Debug)]
pub enum ColumnWidth {
    /// Exactly this many cells.
    Length(u16),
    /// At least this many cells.
    Min(u16),
}

/// The sum of the fixed widths.
pub open spec fn fixed_sum(ws: Seq<Option<u16>>) -> int
    decreases ws.len(),
{
    if ws.len() == 0 {
        0
    } else {
        fixed_sum(ws.drop_last()) + match ws.last() { Some(w) => w as int, None => 0 }
    }
}

/// The number of columns without a fixed width.
pub open spec fn flexible_count(ws: Seq<Option<u16>>) -> int
    decreases ws.len(),
{
    if ws.len() == 0 { 0 } else { flexible_count(ws.drop_last()) + if ws.last() is None { 1int } else { 0 } }
}

/// The widths asked of the columns: a fixed width as it is; the others
/// share what the fixed ones leave of the terminal, each asking for at
/// least an equal part.
pub fn column_widths(widths: &Vec<Option<u16>>, terminal_width: u16) -> (r: Vec<ColumnWidth>)
    requires
        fixed_sum(widths@) <= terminal_width,
        widths@.len() <= u16::MAX,
    ensures
        r@.len() == widths@.len(),
        forall|i: int| 0 <= i < r@.len() ==> #[trigger] r@[i] == match widths@[i] {
            Some(w) => ColumnWidth::Length(w),
            None => ColumnWidth::Min(((terminal_width - fixed_sum(widths@)) / flexible_count(widths@)) as u16),
        },
{
    let mut sum: u16 = 0;
    let mut flexible: usize = 0;
    let mut i: usize = 0;
    while i < widths.len()
        invariant
            fixed_sum(widths@) <= terminal_width,
            i <= widths@.len(),
            sum as int == fixed_sum(widths@.take(i as int)),
            flexible as int == flexible_count(widths@.take(i as int)),
            flexible <= i,
        decreases widths@.len() - i,
    {
        assert(widths@.take(i + 1).drop_last() =~= widths@.take(i as int));
        proof { lemma_fixed_sum_prefix(widths@, i + 1); }
        match widths[i] {
            Some(w) => {
                sum = sum + w;
            },
            None => {
                flexible = flexible + 1;
            },
        }
        i = i + 1;
    }
    assert(widths@.take(widths@.len() as int) =~= widths@);
    let remaining = terminal_width - sum;
    proof { lemma_flexible_count_bound(widths@); }
    let mut out: Vec<ColumnWidth> = Vec::new();
    let mut j: usize = 0;
    while j < widths.len()
        invariant
            j <= widths@.len(),
            remaining as int == terminal_width - fixed_sum(widths@),
            flexible as int == flexible_count(widths@),
            flexible <= widths@.len() <= u16::MAX,
            out@.len() == j,
            forall|k: int| 0 <= k < j ==> #[trigger] out@[k] == match widths@[k] {
                Some(w) => ColumnWidth::Length(w),
                None => ColumnWidth::Min(((terminal_width - fixed_sum(widths@)) / flexible_count(widths@)) as u16),
            },
        decreases widths@.len() - j,
    {
        match widths[j] {
            Some(w) => out.push(ColumnWidth::Length(w)),
            None => {
                proof { lemma_flexible_positive(widths@, j as int); }
                out.push(ColumnWidth::Min(remaining / (flexible as u16)));
            },
        }
        j = j + 1;
    }
    out
}

/// A prefix's fixed widths sum to no more than all of them.
proof fn lemma_fixed_sum_prefix(s: Seq<Option<u16>>, i: int)
    requires
        0 <= i <= s.len(),
    ensures
        0 <= fixed_sum(s.take(i)) <= fixed_sum(s),
    decreases s.len(),
{
    if i < s.len() {
        assert(s.drop_last().take(i) =~= s.take(i));
        lemma_fixed_sum_prefix(s.drop_last(), i);
    } else {
        assert(s.take(i) =~= s);
        if s.len() > 0 {
            lemma_fixed_sum_prefix(s.drop_last(), s.len() - 1);
            assert(s.drop_last().take(s.len() - 1) =~= s.drop_last());
        }
    }
}

/// A column without a fixed width is counted among the flexible ones.
proof fn lemma_flexible_positive(s: Seq<Option<u16>>, j: int)
    requires
        0 <= j < s.len(),
        s[j] is None,
    ensures
        0 < flexible_count(s) <= s.len(),
    decreases s.len(),
{
    if j < s.len() - 1 {
        lemma_flexible_positive(s.drop_last(), j);
    } else {
        lemma_flexible_count_bound(s.drop_last());
    }
}

/// At most every column is flexible.
proof fn lemma_flexible_count_bound(s: Seq<Option<u16>>)
    ensures
        0 <= flexible_count(s) <= s.len(),
    decreases s.len(),
{
    if s.len() > 0 {
        lemma_flexible_count_bound(s.drop_last());
    }
}

/// How a column's cells are aligned.
#[derive(Clone, Copy, PartialEq, Eq, Structural, Debug)]
pub enum Alignment {
    Left,
    Right,
}

/// Sizes are aligned right, everything else left.
pub fn column_alignment(kind: StatusKind) -> (a: Alignment)
    ensures
        a == if kind == StatusKind::Size { Alignment::Right } else { Alignment::Left },
{
    match kind {
        StatusKind::Size => Alignment::Right,
        _ => Alignment::Left,
    }
}

/// How many rows a page moves: the table's height less the header, the
/// gap after it and one row, but at least one.
pub fn page_scroll_amount(height: u16) -> (r: u16)
    ensures
        r == if height > 4 { height - 3 } else { 1 },
{
    let h = height.saturating_sub(3);
    if h > 1 { h } else { 1 }
}

/// The size text of an entry with a human-readable form under the `size`
/// crate (binary units, abbreviated), a function of the number.
pub uninterp spec fn human_size(n: u64) -> Seq<char>;

/// The least size that the `size` crate cannot format: it converts the
/// number to `f64` and back, and from here on the conversion rounds to
/// 2^64, which does not fit back in a `u64`.
pub const HUMAN_SIZE_LIMIT: u64 = 0xFFFF_FFFF_FFFF_FC00;

/// `size::Size::Bytes(n).to_string(Base::Base2, Style::Abbreviated)`; its
/// result is named [`human_size`]. It panics from [`HUMAN_SIZE_LIMIT`] on.
#[verifier::external_body]
fn human_readable_size(n: u64) -> (r: String)
    requires
        n < HUMAN_SIZE_LIMIT,
    ensures
        r@ == human_size(n),
{
    size::Size::Bytes(n).to_string(size::Base::Base2, size::Style::Abbreviated)
}

/// The size column of an entry: a directory's number of items, else the
/// size, human-readable or in bytes.
pub open spec fn spec_format_size(size: u64, is_dir: bool, human_readable: bool) -> Seq<char> {
    if is_dir {
        if size == 1 { spec_decimal(size as nat) + " item"@ } else { spec_decimal(size as nat) + " items"@ }
    } else if human_readable {
        human_size(size)
    } else {
        spec_decimal(size as nat)
    }
}

/// The size column of an entry (see [`spec_format_size`]). The
/// human-readable form exists below [`HUMAN_SIZE_LIMIT`].
pub fn format_size(size: u64, is_dir: bool, human_readable: bool) -> (r: String)
    requires
        !is_dir && human_readable ==> size < HUMAN_SIZE_LIMIT,
    ensures
        r@ == spec_format_size(size, is_dir, human_readable),
{
    if is_dir {
        let mut s = decimal(size);
        if size == 1 {
            s.push_str(" item");
        } else {
            s.push_str(" items");
        }
        s
    } else if human_readable {
        human_readable_size(size)
    } else {
        decimal(size)
    }
}

/// The mode column on Unix.
pub fn format_mode_unix(mode: Mode, format: ModeFormatUnix) -> (r: String)
    ensures
        r@ == match format {
            ModeFormatUnix::Octal => crate::mode::spec_display_octal(mode.0),
            ModeFormatUnix::Symbolic => crate::mode::spec_display_symbolic(mode.0),
        },
{
    match format {
        ModeFormatUnix::Octal => mode.display_octal().to_string(),
        ModeFormatUnix::Symbolic => mode.display_symbolic().to_string(),
    }
}

/// The mode column on Windows.
pub fn format_mode_windows(mode: Mode, format: ModeFormatWindows) -> (r: String)
    ensures
        r@ == match format {
            ModeFormatWindows::Traditional => crate::mode::spec_display_traditional(mode.0),
            ModeFormatWindows::PowerShell => crate::mode::spec_display_powershell(mode.0),
        },
{
    match format {
        ModeFormatWindows::Traditional => mode.display_traditional().to_string(),
        ModeFormatWindows::PowerShell => mode.display_powershell().to_string(),
    }
}

/// What a cell of the table shows.
pub enum CellContent {
    /// A text with the byte ranges of its matches.
    Highlighted(String, Vec<(usize, usize)>),
    /// A plain text.
    Raw(String),
    /// A time, formatted by the caller.
    Time(FileTime),
}

/// The mode column: Windows attributes when a Windows format is given,
/// else Unix permissions.
pub open spec fn spec_format_mode(mode: Mode, unix: ModeFormatUnix, windows: Option<ModeFormatWindows>) -> Seq<char> {
    match windows {
        Some(ModeFormatWindows::Traditional) => crate::mode::spec_display_traditional(mode.0),
        Some(ModeFormatWindows::PowerShell) => crate::mode::spec_display_powershell(mode.0),
        None => match unix {
            ModeFormatUnix::Octal => crate::mode::spec_display_octal(mode.0),
            ModeFormatUnix::Symbolic => crate::mode::spec_display_symbolic(mode.0),
        },
    }
}

/// A status as the cell shows it: the stored one when the status is
/// indexed, else the one read from the file system, if it could be read.
pub open spec fn shown_status<T>(stored: Option<T>, fetched: Option<T>) -> Option<T> {
    match stored {
        Some(x) => Some(x),
        None => fetched,
    }
}

/// The content of the cell of `entry` in a column of `kind`: the name and
/// the path with their matches, the extension, the size and the mode as
/// texts (the mode as Windows attributes when a Windows format is given),
/// and the times. A status that is not indexed is taken from `fetched`, the
/// entry's statuses as read from the file system by the caller (`None` when
/// they could not be read, and the cell is then empty). A file's size is
/// shown in human-readable form only below [`HUMAN_SIZE_LIMIT`].
pub fn column_content(kind: StatusKind, entry: &Entry, query: &Query, human_readable: bool,
    mode_format: ModeFormatUnix, windows_mode_format: Option<ModeFormatWindows>,
    fetched: Option<Metadata>) -> (c: CellContent)
    requires
        kind == StatusKind::Size && human_readable && !entry.db().idx().spec_is_dir(entry.index()) ==> match shown_status(
            entry.db().idx().spec_size(entry.index()), match fetched { Some(m) => Some(m.size), None => None }) {
            Some(n) => n < HUMAN_SIZE_LIMIT,
            None => true,
        },
    ensures
        kind == StatusKind::Basename ==> (c matches CellContent::Highlighted(t, _) && t@ == entry.spec_basename()),
        kind == StatusKind::Path ==> (c matches CellContent::Highlighted(t, _) && t@ == entry.spec_path()),
        kind == StatusKind::Extension ==> (c matches CellContent::Raw(t) && t@ == match entry.db().idx().spec_extension(entry.index()) {
            Some(e) => e,
            None => Seq::empty(),
        }),
        kind == StatusKind::Size ==> (c matches CellContent::Raw(t) && t@ == match shown_status(
            entry.db().idx().spec_size(entry.index()), match fetched { Some(m) => Some(m.size), None => None }) {
            Some(n) => spec_format_size(n, entry.db().idx().spec_is_dir(entry.index()), human_readable),
            None => Seq::empty(),
        }),
        kind == StatusKind::Mode ==> (c matches CellContent::Raw(t) && t@ == match shown_status(
            entry.db().idx().spec_mode(entry.index()), match fetched { Some(m) => Some(m.mode), None => None }) {
            Some(m) => spec_format_mode(m, mode_format, windows_mode_format),
            None => Seq::empty(),
        }),
        (kind == StatusKind::Created || kind == StatusKind::Modified || kind == StatusKind::Accessed) ==> match (
            if kind == StatusKind::Created {
                shown_status(entry.db().idx().spec_created(entry.index()), match fetched { Some(m) => Some(m.created), None => None })
            } else if kind == StatusKind::Modified {
                shown_status(entry.db().idx().spec_modified(entry.index()), match fetched { Some(m) => Some(m.modified), None => None })
            } else {
                shown_status(entry.db().idx().spec_accessed(entry.index()), match fetched { Some(m) => Some(m.accessed), None => None })
            }) {
            Some(t) => c matches CellContent::Time(x) && x == t,
            None => (c matches CellContent::Raw(s) && s@.len() == 0),
        },
{
    match kind {
        StatusKind::Basename => CellContent::Highlighted(entry.basename().to_owned(), query.basename_matches(entry)),
        StatusKind::Path => CellContent::Highlighted(entry.path(), query.path_matches(entry)),
        StatusKind::Extension => match entry.extension() {
            Some(e) => CellContent::Raw(e.to_owned()),
            None => CellContent::Raw(String::new()),
        },
        StatusKind::Size => {
            let size = match entry.size() {
                Some(n) => Some(n),
                None => match fetched { Some(m) => Some(m.size), None => None },
            };
            match size {
                Some(n) => CellContent::Raw(format_size(n, entry.is_dir(), human_readable)),
                None => CellContent::Raw(String::new()),
            }
        },
        StatusKind::Mode => {
            let mode = match entry.mode() {
                Some(m) => Some(m),
                None => match fetched { Some(md) => Some(md.mode), None => None },
            };
            match mode {
                Some(m) => CellContent::Raw(match windows_mode_format {
                    Some(w) => format_mode_windows(m, w),
                    None => format_mode_unix(m, mode_format),
                }),
                None => CellContent::Raw(String::new()),
            }
        },
        StatusKind::Created | StatusKind::Modified | StatusKind::Accessed => {
            let stored = match kind {
                StatusKind::Created => entry.created(),
                StatusKind::Modified => entry.modified(),
                _ => entry.accessed(),
            };
            let time = match stored {
                Some(t) => Some(t),
                None => match fetched {
                    Some(m) => Some(match kind {
                        StatusKind::Created => m.created,
                        StatusKind::Modified => m.modified,
                        _ => m.accessed,
                    }),
                    None => None,
                },
            };
            match time {
                Some(t) => CellContent::Time(t),
                None => CellContent::Raw(String::new()),
            }
        },
    }
}

} // verus!
