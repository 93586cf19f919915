//! The one-line input box: its text, a cursor that moves over grapheme
//! clusters, and how it is drawn.

use vstd::prelude::*;
use vstd::string::StringSliceAdditionalSpecFns;
use vstd::utf8::*;
use crate::tui::style::Style;
use crate::text::{byte_len, byte_length, str_slice, lemma_prefix_is_boundary};

verus! {

/// The next boundary of extended grapheme clusters after byte `pos` of
/// `text`, under `unicode_segmentation`; a function of the text and the
/// position.
pub uninterp spec fn grapheme_next(text: Seq<char>, pos: int) -> int;

/// The previous boundary of extended grapheme clusters before byte `pos`.
pub uninterp spec fn grapheme_prev(text: Seq<char>, pos: int) -> int;

/// `GraphemeCursor::next_boundary` from `pos`, given the whole text: the
/// next boundary, which lies on a character boundary after `pos`, or `pos`
/// itself at the end of the text. With the whole text as its chunk the
/// cursor needs no more context.
#[verifier::external_body]
fn next_boundary(text: &str, pos: usize) -> (r: usize)
    requires
        pos <= text.spec_bytes().len(),
        is_char_boundary(text.spec_bytes(), pos as int),
    ensures
        r == grapheme_next(text@, pos as int),
        pos < text.spec_bytes().len() ==> pos < r <= text.spec_bytes().len(),
        pos == text.spec_bytes().len() ==> r == pos,
        is_char_boundary(text.spec_bytes(), r as int),
{
    let mut cursor = unicode_segmentation::GraphemeCursor::new(pos, text.len(), true);
    let _ = cursor.next_boundary(text, 0);
    cursor.cur_cursor()
}

/// `GraphemeCursor::prev_boundary` from `pos`, given the whole text: the
/// previous boundary, on a character boundary before `pos`, or 0 at the
/// start.
#[verifier::external_body]
fn prev_boundary(text: &str, pos: usize) -> (r: usize)
    requires
        pos <= text.spec_bytes().len(),
        is_char_boundary(text.spec_bytes(), pos as int),
    ensures
        r == grapheme_prev(text@, pos as int),
        0 < pos ==> r < pos,
        pos == 0 ==> r == 0,
        is_char_boundary(text.spec_bytes(), r as int),
{
    let mut cursor = unicode_segmentation::GraphemeCursor::new(pos, text.len(), true);
    let _ = cursor.prev_boundary(text, 0);
    cursor.cur_cursor()
}

/// The display width of a character under `unicode_width` (0 for control
/// characters, which have none).
pub uninterp spec fn char_width(c: char) -> usize;

/// `UnicodeWidthChar::width(c).unwrap_or(0)`; its result is named
/// [`char_width`].
#[verifier::external_body]
fn width_of_char(c: char) -> (w: usize)
    ensures
        w == char_width(c),
{
    unicode_width::UnicodeWidthChar::width(c).unwrap_or(0)
}

/// The display width of a string under `unicode_width`.
pub uninterp spec fn str_width(s: Seq<char>) -> usize;

/// `UnicodeWidthStr::width`; its result is named [`str_width`].
#[verifier::external_body]
pub(crate) fn width_of_str(s: &str) -> (w: usize)
    ensures
        w == str_width(s@),
{
    unicode_width::UnicodeWidthStr::width(s)
}

/// The byte ranges of the grapheme clusters of a text, in order.
pub uninterp spec fn grapheme_ranges(text: Seq<char>) -> Seq<(usize, usize)>;

/// `UnicodeSegmentation::grapheme_indices` (extended): the range of every
/// grapheme cluster; its result is named [`grapheme_ranges`].
#[verifier::external_body]
fn graphemes_of(text: &str) -> (r: Vec<(usize, usize)>)
    ensures
        r@ == grapheme_ranges(text@),
{
    unicode_segmentation::UnicodeSegmentation::grapheme_indices(text, true)
        .map(|(i, g)| (i, i + g.len()))
        .collect()
}

/// `String::insert`: puts a character at a byte position on a character
/// boundary, that is, after the first `k` characters where their encoding
/// ends there.
#[verifier::external_body]
fn string_insert(s: &mut String, idx: usize, ch: char)
    requires
        idx <= encode_utf8(old(s)@).len(),
        is_char_boundary(encode_utf8(old(s)@), idx as int),
    ensures
        exists|k: int| 0 <= k <= old(s)@.len() && #[trigger] byte_len(old(s)@.take(k)) == idx
            && final(s)@ == old(s)@.take(k) + seq![ch] + old(s)@.skip(k),
{
    s.insert(idx, ch)
}

/// `String::remove`: takes out the character at a byte position on a
/// character boundary before the end.
#[verifier::external_body]
fn string_remove(s: &mut String, idx: usize) -> (c: char)
    requires
        idx < encode_utf8(old(s)@).len(),
        is_char_boundary(encode_utf8(old(s)@), idx as int),
    ensures
        exists|k: int| 0 <= k < old(s)@.len() && #[trigger] byte_len(old(s)@.take(k)) == idx
            && c == old(s)@[k] && final(s)@ == old(s)@.take(k) + old(s)@.skip(k + 1),
{
    s.remove(idx)
}

/// The input box as drawn: the style of its text, the style of the
/// grapheme under the cursor, and a prompt before it.
pub struct TextBox {
    pub style: Style,
    pub highlight_style: Style,
    pub prompt: String,
    pub prompt_style: Style,
}

impl TextBox {
    /// Plain styles and an empty prompt.
    pub fn new() -> (t: TextBox)
        ensures
            t.style == Style::spec_default(),
            t.highlight_style == Style::spec_default(),
            t.prompt@.len() == 0,
            t.prompt_style == Style::spec_default(),
    {
        TextBox { style: Style::new(), highlight_style: Style::new(), prompt: String::new(), prompt_style: Style::new() }
    }

    /// Sets the style of the text.
    pub fn style(self, style: Style) -> (t: TextBox)
        ensures
            t.style == style,
            t.highlight_style == self.highlight_style,
            t.prompt == self.prompt,
            t.prompt_style == self.prompt_style,
    {
        TextBox { style, ..self }
    }

    /// Sets the style of the grapheme under the cursor.
    pub fn highlight_style(self, style: Style) -> (t: TextBox)
        ensures
            t.style == self.style,
            t.highlight_style == style,
            t.prompt == self.prompt,
            t.prompt_style == self.prompt_style,
    {
        TextBox { highlight_style: style, ..self }
    }

    /// Sets the prompt and its style.
    pub fn prompt(self, prompt: &str, style: Style) -> (t: TextBox)
        ensures
            t.style == self.style,
            t.highlight_style == self.highlight_style,
            t.prompt@ == prompt@,
            t.prompt_style == style,
    {
        TextBox { prompt: prompt.to_owned(), prompt_style: style, ..self }
    }
}

/// The text of the input box and its cursor.
pub struct TextBoxState {
    text: String,
    /// Byte offset of the cursor, on a grapheme boundary.
    cursor: usize,
    /// Display column of the cursor, as counted by the edits.
    char_cursor: usize,
}

impl TextBoxState {
    #[verifier::type_invariant]
    closed spec fn wf(&self) -> bool {
        &&& self.cursor <= encode_utf8(self.text@).len()
        &&& is_char_boundary(encode_utf8(self.text@), self.cursor as int)
    }

    /// The UTF-8 bytes of the text.
    pub open spec fn spec_bytes(&self) -> Seq<u8> {
        encode_utf8(self.spec_text())
    }

    /// The text.
    pub closed spec fn spec_text(&self) -> Seq<char> {
        self.text@
    }

    /// The byte offset of the cursor.
    pub closed spec fn spec_cursor(&self) -> int {
        self.cursor as int
    }

    /// The display column of the cursor as counted by the edits.
    pub closed spec fn spec_char_cursor(&self) -> int {
        self.char_cursor as int
    }

    /// Whether the cursor lies within the text: a byte offset from the
    /// start to the end of it. Every box keeps it (see
    /// [`TextBoxState::cursor`]).
    pub open spec fn cursor_in_text(&self) -> bool {
        0 <= self.spec_cursor() <= self.spec_bytes().len()
    }

    /// The cursor is a byte offset and a display column, so neither is
    /// negative.
    pub proof fn lemma_cursor_nonnegative(s: TextBoxState)
        ensures
            s.spec_cursor() >= 0,
            s.spec_char_cursor() >= 0,
    {
    }

    /// What each edit of the query box does, in plain terms. Typing puts
    /// the character at the cursor's place in the text, keeping the text
    /// around it, and moves the cursor forward within the text. Backspace
    /// and Delete remove one character (Backspace the one before the cursor,
    /// moving the cursor back; Delete the one at it, leaving the cursor),
    /// and do nothing at the start and the end of the text respectively.
    /// Moving left or right keeps the text and moves the cursor back or
    /// forward, and does nothing at the start or the end. Home and End keep
    /// the text and put the cursor at its start or end; clearing empties it.
    pub proof fn law_edits(a: TextBoxState, b: TextBoxState, ch: char)
        ensures
            Self::typed(a, b, ch) ==> b.spec_text().len() == a.spec_text().len() + 1
                && a.spec_cursor() < b.spec_cursor() <= b.spec_bytes().len()
                && exists|k: int| 0 <= k <= a.spec_text().len() && #[trigger] byte_len(a.spec_text().take(k)) == a.spec_cursor()
                    && b.spec_text()[k] == ch
                    && b.spec_text().take(k) == a.spec_text().take(k)
                    && b.spec_text().skip(k + 1) == a.spec_text().skip(k),
            Self::backspaced(a, b) && a.spec_cursor() > 0 ==> b.spec_text().len() + 1 == a.spec_text().len()
                && b.spec_cursor() < a.spec_cursor(),
            Self::backspaced(a, b) && a.spec_cursor() <= 0 ==> b == a,
            Self::deleted(a, b) && a.spec_cursor() < a.spec_bytes().len() ==> b.spec_text().len() + 1 == a.spec_text().len()
                && b.spec_cursor() == a.spec_cursor(),
            Self::deleted(a, b) && a.spec_cursor() >= a.spec_bytes().len() ==> b == a,
            Self::moved_left(a, b) ==> b.spec_text() == a.spec_text()
                && (a.spec_cursor() > 0 ==> b.spec_cursor() < a.spec_cursor()),
            Self::moved_right(a, b) ==> b.spec_text() == a.spec_text()
                && (a.spec_cursor() < a.spec_bytes().len() ==> a.spec_cursor() < b.spec_cursor() <= b.spec_bytes().len()),
            Self::moved_home(a, b) ==> b.spec_text() == a.spec_text() && b.spec_cursor() == 0,
            Self::moved_end(a, b) ==> b.spec_text() == a.spec_text() && b.spec_cursor() == b.spec_bytes().len(),
            Self::cleared(b) ==> b.spec_text().len() == 0 && b.spec_cursor() == 0,
    {
        if Self::typed(a, b, ch) {
            let k = choose|k: int| 0 <= k <= a.spec_text().len()
                && #[trigger] byte_len(a.spec_text().take(k)) == a.spec_cursor()
                && b.spec_text() == a.spec_text().take(k) + seq![ch] + a.spec_text().skip(k);
            let t = a.spec_text();
            assert(b.spec_text()[k] == ch);
            assert(b.spec_text().take(k) =~= t.take(k));
            assert(b.spec_text().skip(k + 1) =~= t.skip(k));
        }
        if Self::backspaced(a, b) && a.spec_cursor() > 0 {
            let t = a.spec_text();
            let p = grapheme_prev(t, a.spec_cursor());
            let k = choose|k: int| 0 <= k < t.len() && #[trigger] byte_len(t.take(k)) == p
                && b.spec_text() == t.take(k) + t.skip(k + 1)
                && b.spec_char_cursor() == sat_sub(a.spec_char_cursor(), char_width(t[k]) as int);
            assert(b.spec_text().len() == t.take(k).len() + t.skip(k + 1).len());
        }
        if Self::deleted(a, b) && a.spec_cursor() < a.spec_bytes().len() {
            let t = a.spec_text();
            let k = choose|k: int| 0 <= k < t.len() && #[trigger] byte_len(t.take(k)) == a.spec_cursor()
                && b.spec_text() == t.take(k) + t.skip(k + 1);
            assert(b.spec_text().len() == t.take(k).len() + t.skip(k + 1).len());
        }
        Self::lemma_cursor_nonnegative(a);
    }

    /// `b` is `a` with `ch` typed at the cursor: the character inserted there,
    /// the cursor at the next grapheme boundary after the insertion point,
    /// and the column grown by the character's width.
    pub open spec fn typed(a: TextBoxState, b: TextBoxState, ch: char) -> bool {
        &&& exists|k: int| 0 <= k <= a.spec_text().len()
            && #[trigger] byte_len(a.spec_text().take(k)) == a.spec_cursor()
            && b.spec_text() == a.spec_text().take(k) + seq![ch] + a.spec_text().skip(k)
        &&& b.spec_cursor() == grapheme_next(b.spec_text(), a.spec_cursor())
        &&& a.spec_cursor() < b.spec_cursor() <= b.spec_bytes().len()
        &&& b.spec_char_cursor() == sat_add(a.spec_char_cursor(), char_width(ch) as int)
    }

    /// `b` is `a` after a backspace: at the start nothing changes; else
    /// the cursor goes to the previous grapheme boundary and the character
    /// there is removed.
    pub open spec fn backspaced(a: TextBoxState, b: TextBoxState) -> bool {
        if a.spec_cursor() > 0 {
            let p = grapheme_prev(a.spec_text(), a.spec_cursor());
            let t = a.spec_text();
            &&& b.spec_cursor() == p
            &&& p < a.spec_cursor()
            &&& p <= b.spec_bytes().len()
            &&& exists|k: int| 0 <= k < t.len() && #[trigger] byte_len(t.take(k)) == p
                && b.spec_text() == t.take(k) + t.skip(k + 1)
                && b.spec_char_cursor() == sat_sub(a.spec_char_cursor(), char_width(t[k]) as int)
        } else {
            b == a
        }
    }

    /// `b` is `a` after a delete: at the end nothing changes; else the
    /// character at the cursor is removed.
    pub open spec fn deleted(a: TextBoxState, b: TextBoxState) -> bool {
        if a.spec_cursor() < a.spec_bytes().len() {
            let p = a.spec_cursor();
            let t = a.spec_text();
            &&& b.spec_cursor() == p
            &&& p <= b.spec_bytes().len()
            &&& b.spec_char_cursor() == a.spec_char_cursor()
            &&& exists|k: int| 0 <= k < t.len() && #[trigger] byte_len(t.take(k)) == p
                && b.spec_text() == t.take(k) + t.skip(k + 1)
        } else {
            b == a
        }
    }

    /// `b` is `a` with the cursor one grapheme to the left, if it can move.
    pub open spec fn moved_left(a: TextBoxState, b: TextBoxState) -> bool {
        if a.spec_cursor() > 0 {
            &&& b.spec_text() == a.spec_text()
            &&& b.spec_cursor() == grapheme_prev(a.spec_text(), a.spec_cursor())
            &&& b.spec_cursor() < a.spec_cursor()
            &&& b.spec_char_cursor() == sat_sub(a.spec_char_cursor(), str_width(
                decode_utf8(a.spec_bytes().subrange(b.spec_cursor(), a.spec_cursor()))) as int)
        } else {
            b == a
        }
    }

    /// `b` is `a` with the cursor one grapheme to the right, if it can move.
    pub open spec fn moved_right(a: TextBoxState, b: TextBoxState) -> bool {
        if a.spec_cursor() < a.spec_bytes().len() {
            &&& b.spec_text() == a.spec_text()
            &&& b.spec_cursor() == grapheme_next(a.spec_text(), a.spec_cursor())
            &&& a.spec_cursor() < b.spec_cursor() <= b.spec_bytes().len()
            &&& b.spec_char_cursor() == sat_add(a.spec_char_cursor(), str_width(
                decode_utf8(a.spec_bytes().subrange(a.spec_cursor(), b.spec_cursor()))) as int)
        } else {
            b == a
        }
    }

    /// `b` is `a` with the cursor at the start.
    pub open spec fn moved_home(a: TextBoxState, b: TextBoxState) -> bool {
        if a.spec_cursor() > 0 {
            b.spec_text() == a.spec_text() && b.spec_cursor() == 0 && b.spec_char_cursor() == 0
        } else {
            b == a
        }
    }

    /// `b` is `a` with the cursor at the end (where it may be already).
    pub open spec fn moved_end(a: TextBoxState, b: TextBoxState) -> bool {
        &&& b.spec_cursor() == b.spec_bytes().len()
        &&& (if a.spec_cursor() < a.spec_bytes().len() {
            &&& b.spec_text() == a.spec_text()
            &&& b.spec_cursor() == a.spec_bytes().len()
            &&& b.spec_char_cursor() == a.spec_bytes().len()
        } else {
            b == a
        })
    }

    /// `b` is empty, with the cursor at the start.
    pub open spec fn cleared(b: TextBoxState) -> bool {
        b.spec_text().len() == 0 && b.spec_cursor() == 0 && b.spec_char_cursor() == 0
    }

    /// An empty box.
    pub fn new() -> (s: Self)
        ensures
            s.spec_text().len() == 0,
            s.spec_cursor() == 0,
            s.spec_char_cursor() == 0,
            s.cursor_in_text(),
    {
        TextBoxState { text: String::new(), cursor: 0, char_cursor: 0 }
    }

    /// A box holding `text`, with the cursor at its end (its column is
    /// counted as the text's length in bytes).
    pub fn with_text(text: String) -> (s: Self)
        ensures
            s.spec_text() == text@,
            s.spec_cursor() == s.spec_bytes().len(),
            s.spec_char_cursor() == s.spec_bytes().len(),
            s.cursor_in_text(),
    {
        let len = byte_length(text.as_str());
        proof {
            assert(text@.take(text@.len() as int) =~= text@);
            lemma_prefix_is_boundary(text@, text@.len() as int);
        }
        TextBoxState { text, cursor: len, char_cursor: len }
    }

    /// The byte offset of the cursor, which lies within the text.
    pub fn cursor(&self) -> (c: usize)
        ensures
            c == self.spec_cursor(),
            self.cursor_in_text(),
    {
        proof { use_type_invariant(self); }
        self.cursor
    }

    /// The text.
    pub fn text(&self) -> (s: &str)
        ensures
            s@ == self.spec_text(),
    {
        self.text.as_str()
    }

    /// Empties the box.
    pub fn clear(&mut self)
        ensures
            Self::cleared(*final(self)),
            final(self).cursor_in_text(),
    {
        *self = TextBoxState::new();
    }

    /// Inserts a character at the cursor and moves the cursor to the next
    /// grapheme boundary after the insertion point; the column grows by
    /// the character's width.
    pub fn on_char(&mut self, ch: char)
        ensures
            Self::typed(*old(self), *final(self), ch),
            final(self).cursor_in_text(),
    {
        proof { use_type_invariant(&*self); }
        let mut cur = TextBoxState::new();
        std::mem::swap(self, &mut cur);
        proof { use_type_invariant(&cur); }
        let TextBoxState { mut text, cursor: pos, char_cursor } = cur;
        let ghost before = text@;
        string_insert(&mut text, pos, ch);
        let ghost k = choose|k: int| 0 <= k <= before.len() && #[trigger] byte_len(before.take(k)) == pos
            && text@ == before.take(k) + seq![ch] + before.skip(k);
        proof {
            assert(text@.take(k) =~= before.take(k));
            lemma_prefix_is_boundary(text@, k);
            vstd::utf8::encode_utf8_valid_utf8(text@);
            crate::text::lemma_encode_concat(before.take(k), seq![ch]);
            crate::text::lemma_encode_concat(before.take(k) + seq![ch], before.skip(k));
            crate::text::lemma_byte_len_ge_len(seq![ch]);
            assert(byte_len(text@) >= pos + 1);
        }
        let cursor = next_boundary(text.as_str(), pos);
        let w = width_of_char(ch);
        *self = TextBoxState { text, cursor, char_cursor: char_cursor.saturating_add(w) };
        proof {
            assert(before == old(self).spec_text());
            assert(pos == old(self).spec_cursor());
            assert(byte_len(before.take(k)) == pos);
            assert(self.text@ == before.take(k) + seq![ch] + before.skip(k));
            assert(self.spec_text() == before.take(k) + seq![ch] + before.skip(k));
        }
    }

    /// Removes the character just after the previous grapheme boundary and
    /// moves the cursor there; the column shrinks by that character's
    /// width. False at the start of the text.
    pub fn on_backspace(&mut self) -> (r: bool)
        ensures
            r == (old(self).spec_cursor() > 0),
            Self::backspaced(*old(self), *final(self)),
            final(self).cursor_in_text(),
    {
        proof { use_type_invariant(&*self); }
        if self.cursor == 0 {
            return false;
        }
        let p = prev_boundary(self.text.as_str(), self.cursor);
        let mut cur = TextBoxState::new();
        std::mem::swap(self, &mut cur);
        proof { use_type_invariant(&cur); }
        let TextBoxState { mut text, cursor: _, char_cursor } = cur;
        let ghost before = text@;
        let c = string_remove(&mut text, p);
        let ghost k = choose|k: int| 0 <= k < before.len() && #[trigger] byte_len(before.take(k)) == p
            && c == before[k] && text@ == before.take(k) + before.skip(k + 1);
        proof {
            assert(text@.take(k) =~= before.take(k));
            lemma_prefix_is_boundary(text@, k);
            vstd::utf8::encode_utf8_valid_utf8(text@);
            crate::text::lemma_encode_concat(text@.take(k), text@.skip(k));
            assert(text@ =~= text@.take(k) + text@.skip(k));
        }
        let w = width_of_char(c);
        *self = TextBoxState { text, cursor: p, char_cursor: char_cursor.saturating_sub(w) };
        proof {
            assert(before == old(self).spec_text());
            assert(byte_len(before.take(k)) == p);
            assert(self.text@ == before.take(k) + before.skip(k + 1));
            assert(self.spec_text() == before.take(k) + before.skip(k + 1));
            assert(self.spec_char_cursor() == sat_sub(old(self).spec_char_cursor(), char_width(before[k]) as int));
        }
        true
    }

    /// Removes the character at the cursor; false at the end of the text.
    pub fn on_delete(&mut self) -> (r: bool)
        ensures
            r == (old(self).spec_cursor() < old(self).spec_bytes().len()),
            Self::deleted(*old(self), *final(self)),
            final(self).cursor_in_text(),
    {
        proof { use_type_invariant(&*self); }
        let len = byte_length(self.text.as_str());
        if self.cursor >= len {
            return false;
        }
        let p = self.cursor;
        let mut cur = TextBoxState::new();
        std::mem::swap(self, &mut cur);
        proof { use_type_invariant(&cur); }
        let TextBoxState { mut text, cursor: _, char_cursor } = cur;
        let ghost before = text@;
        let _c = string_remove(&mut text, p);
        let ghost k = choose|k: int| 0 <= k < before.len() && #[trigger] byte_len(before.take(k)) == p
            && text@ == before.take(k) + before.skip(k + 1);
        proof {
            assert(text@.take(k) =~= before.take(k));
            lemma_prefix_is_boundary(text@, k);
            vstd::utf8::encode_utf8_valid_utf8(text@);
            crate::text::lemma_encode_concat(text@.take(k), text@.skip(k));
            assert(text@ =~= text@.take(k) + text@.skip(k));
        }
        *self = TextBoxState { text, cursor: p, char_cursor };
        proof {
            assert(before == old(self).spec_text());
            assert(byte_len(before.take(k)) == p);
            assert(self.text@ == before.take(k) + before.skip(k + 1));
            assert(self.spec_text() == before.take(k) + before.skip(k + 1));
        }
        true
    }

    /// Moves the cursor to the previous grapheme boundary; the column
    /// shrinks by the width of the text passed. False at the start.
    pub fn on_left(&mut self) -> (r: bool)
        ensures
            r == (old(self).spec_cursor() > 0),
            Self::moved_left(*old(self), *final(self)),
            final(self).cursor_in_text(),
    {
        proof { use_type_invariant(&*self); }
        let prev = self.cursor;
        let p = prev_boundary(self.text.as_str(), prev);
        if p < prev {
            let piece = str_slice(self.text.as_str(), p, prev);
            proof { vstd::utf8::encode_utf8_decode_utf8(piece@); }
            let w = width_of_str(piece);
            self.char_cursor = self.char_cursor.saturating_sub(w);
            self.cursor = p;
            true
        } else {
            false
        }
    }

    /// Moves the cursor to the next grapheme boundary; the column grows by
    /// the width of the text passed. False at the end.
    pub fn on_right(&mut self) -> (r: bool)
        ensures
            r == (old(self).spec_cursor() < old(self).spec_bytes().len()),
            Self::moved_right(*old(self), *final(self)),
            final(self).cursor_in_text(),
    {
        proof { use_type_invariant(&*self); }
        let prev = self.cursor;
        let p = next_boundary(self.text.as_str(), prev);
        if p > prev {
            let piece = str_slice(self.text.as_str(), prev, p);
            proof { vstd::utf8::encode_utf8_decode_utf8(piece@); }
            let w = width_of_str(piece);
            self.char_cursor = self.char_cursor.saturating_add(w);
            self.cursor = p;
            true
        } else {
            false
        }
    }

    /// Moves the cursor to the start; false when it is there already.
    pub fn on_home(&mut self) -> (r: bool)
        ensures
            r == (old(self).spec_cursor() > 0),
            Self::moved_home(*old(self), *final(self)),
            final(self).cursor_in_text(),
    {
        proof { use_type_invariant(&*self); }
        if self.cursor > 0 {
            proof {
                assert(self.text@.take(0) =~= Seq::<char>::empty());
                lemma_prefix_is_boundary(self.text@, 0);
            }
            self.cursor = 0;
            self.char_cursor = 0;
            true
        } else {
            false
        }
    }

    /// Moves the cursor to the end (its column is counted as the text's
    /// length in bytes); false when it is there already.
    pub fn on_end(&mut self) -> (r: bool)
        ensures
            r == (old(self).spec_cursor() < old(self).spec_bytes().len()),
            Self::moved_end(*old(self), *final(self)),
            final(self).cursor_in_text(),
    {
        proof { use_type_invariant(&*self); }
        let len = byte_length(self.text.as_str());
        if self.cursor < len {
            proof {
                assert(self.text@.take(self.text@.len() as int) =~= self.text@);
                lemma_prefix_is_boundary(self.text@, self.text@.len() as int);
            }
            self.cursor = len;
            self.char_cursor = len;
            true
        } else {
            false
        }
    }

    /// How the box is drawn after the prompt: each grapheme cluster, as a
    /// byte range, and whether it is highlighted (it starts at the cursor),
    /// then whether a highlighted blank follows for a cursor at the end.
    pub fn segments(&self) -> (r: (Vec<(usize, usize, bool)>, bool))
        ensures
            r.0@.len() == grapheme_ranges(self.spec_text()).len(),
            forall|i: int| 0 <= i < r.0@.len() ==> {
                let g = #[trigger] grapheme_ranges(self.spec_text())[i];
                r.0@[i] == (g.0, g.1, g.0 == self.spec_cursor())
            },
            r.1 == (self.spec_cursor() >= self.spec_bytes().len()),
    {
        proof { use_type_invariant(self); }
        let gs = graphemes_of(self.text.as_str());
        let mut out: Vec<(usize, usize, bool)> = Vec::new();
        let mut i: usize = 0;
        while i < gs.len()
            invariant
                gs@ == grapheme_ranges(self.text@),
                i <= gs@.len(),
                out@.len() == i,
                forall|j: int| 0 <= j < i ==> #[trigger] out@[j] == (gs@[j].0, gs@[j].1, gs@[j].0 == self.cursor),
            decreases gs@.len() - i,
        {
            let (s, e) = gs[i];
            out.push((s, e, s == self.cursor));
            i = i + 1;
        }
        let at_end = self.cursor >= byte_length(self.text.as_str());
        (out, at_end)
    }
}

/// `a + b`, saturating at `usize::MAX`.
pub open spec fn sat_add(a: int, b: int) -> int {
    if a + b > usize::MAX { usize::MAX as int } else { a + b }
}

/// `a - b`, saturating at 0.
pub open spec fn sat_sub(a: int, b: int) -> int {
    if a - b < 0 { 0 } else { a - b }
}

} // verus!
