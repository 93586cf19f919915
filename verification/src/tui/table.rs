//! The results table: which rows are shown, where each cell goes, and how a
//! cell's text is split around its highlighted matches.

use vstd::prelude::*;

verus! {

/// The scroll position and the selected row of the table.
#[derive(Clone, Copy, Debug)]
pub struct TableState {
    pub(crate) offset: usize,
    pub(crate) selected: usize,
}

/// The first row shown so that the selected row stays visible among
/// `remaining` rows, starting from `offset` limited to the last full page.
pub open spec fn scrolled_offset(offset: int, selected: int, rows: int, remaining: int) -> int {
    let o = if offset < rows - remaining { offset } else if rows - remaining > 0 { rows - remaining } else { 0 };
    if selected >= remaining + o - 1 {
        selected + 1 - remaining
    } else if selected < o {
        selected
    } else {
        o
    }
}

impl TableState {
    /// The first row shown.
    pub open(crate) spec fn spec_offset(&self) -> int {
        self.offset as int
    }

    /// The selected row.
    pub open(crate) spec fn spec_selected(&self) -> int {
        self.selected as int
    }

    /// The top of the table, with the first row selected.
    pub fn new() -> (s: TableState)
        ensures
            s.spec_offset() == 0,
            s.spec_selected() == 0,
    {
        TableState { offset: 0, selected: 0 }
    }

    /// The selected row.
    pub fn selected(&self) -> (r: usize)
        ensures
            r == self.spec_selected(),
    {
        self.selected
    }

    /// Selects a row.
    pub fn select(&mut self, index: usize)
        ensures
            final(self).spec_selected() == index,
            final(self).spec_offset() == old(self).spec_offset(),
    {
        self.selected = index;
    }

    /// The first row shown.
    pub fn offset(&self) -> (r: usize)
        ensures
            r == self.spec_offset(),
    {
        self.offset
    }

    /// Scrolls so that the selected row is among the `remaining` rows
    /// shown of `rows` (see [`scrolled_offset`]).
    pub fn scroll_to_selected(&mut self, rows: usize, remaining: usize)
        requires
            remaining >= 1,
        ensures
            final(self).spec_offset() == scrolled_offset(old(self).spec_offset(), old(self).spec_selected(),
                rows as int, remaining as int),
            final(self).spec_selected() == old(self).spec_selected(),
            final(self).spec_offset() <= final(self).spec_selected(),
            final(self).spec_selected() < final(self).spec_offset() + remaining,
    {
        let o = if self.offset < rows.saturating_sub(remaining) { self.offset } else { rows.saturating_sub(remaining) };
        self.offset = if self.selected >= remaining + o - 1 {
            self.selected - (remaining - 1)
        } else if self.selected < o {
            self.selected
        } else {
            o
        };
    }
}

/// The rows shown: from `offset`, at most `remaining` of them.
pub open spec fn visible_range(offset: int, rows: int, remaining: int) -> (int, int) {
    if offset >= rows {
        (rows, rows)
    } else if offset + remaining < rows {
        (offset, offset + remaining)
    } else {
        (offset, rows)
    }
}

/// The rows shown: from `offset`, at most `remaining` of them.
pub fn visible_rows(offset: usize, rows: usize, remaining: usize) -> (r: (usize, usize))
    ensures
        (r.0 as int, r.1 as int) == visible_range(offset as int, rows as int, remaining as int),
{
    if offset >= rows {
        (rows, rows)
    } else if remaining < rows - offset {
        (offset, offset + remaining)
    } else {
        (offset, rows)
    }
}

/// The width the columns may share: the area less two cells and the
/// spacing between `columns` columns; `None` when it does not fit.
pub fn columns_budget(area_width: u16, spacing: u16, columns: u16) -> (r: Option<u16>)
    requires
        columns >= 1,
    ensures
        r matches Some(w) ==> w == area_width - 2 - spacing * (columns - 1),
        r is None <==> area_width - 2 - spacing * (columns - 1) < 0,
{
    let gaps = columns - 1;
    if area_width < 2 {
        return None;
    }
    let rest = area_width - 2;
    if gaps > 0 && spacing > rest / gaps {
        proof {
            assert(spacing * gaps > rest) by (nonlinear_arith)
                requires spacing > rest / gaps, gaps > 0;
        }
        return None;
    }
    proof {
        if gaps > 0 {
            assert(spacing * gaps <= rest) by (nonlinear_arith)
                requires spacing <= rest / gaps, gaps > 0;
        }
    }
    let used = spacing * gaps;
    Some(rest - used)
}

/// The cells of one row: each column's start and width. The columns follow
/// each other `spacing` apart from `left`; in the rows, the first column
/// gives up `symbol_width` cells to the selection symbol before it.
pub open spec fn cell_layout(left: int, widths: Seq<u16>, spacing: int, symbol_width: int) -> Seq<(int, int)>
    decreases widths.len(),
{
    if widths.len() == 0 {
        Seq::empty()
    } else {
        let rest = cell_layout(left, widths.drop_last(), spacing, symbol_width);
        let w = if widths.len() == 1 { widths.last() - symbol_width } else { widths.last() as int };
        let x = if widths.len() == 1 {
            left + symbol_width
        } else {
            rest.last().0 + rest.last().1 + spacing
        };
        rest.push((x, w))
    }
}

/// Where the cells of a row go (see [`cell_layout`]); the header uses
/// a symbol width of 0.
pub fn layout_cells(left: u16, widths: &Vec<u16>, spacing: u16, symbol_width: u16) -> (r: Vec<(u16, u16)>)
    requires
        widths@.len() > 0 ==> widths@[0] >= symbol_width,
        left + symbol_width + sum_widths(widths@) + widths@.len() * spacing <= u16::MAX,
    ensures
        r@.len() == widths@.len(),
        forall|i: int| 0 <= i < r@.len() ==> (#[trigger] r@[i]).0 as int == cell_layout(left as int, widths@,
            spacing as int, symbol_width as int)[i].0 && r@[i].1 as int == cell_layout(left as int, widths@,
            spacing as int, symbol_width as int)[i].1,
{
    let n = widths.len();
    proof {
        lemma_sum_widths_nonneg(widths@);
        assert(n * spacing >= 0) by (nonlinear_arith);
    }
    let mut out: Vec<(u16, u16)> = Vec::new();
    let mut x: u16 = left + symbol_width;
    let mut i: usize = 0;
    while i < n
        invariant
            n == widths@.len(),
            n > 0 ==> widths@[0] >= symbol_width,
            left + symbol_width + sum_widths(widths@) + n * spacing <= u16::MAX,
            i <= n,
            out@.len() == i,
            forall|j: int| 0 <= j < i ==> (#[trigger] out@[j]).0 as int == cell_layout(left as int,
                widths@.take(i as int), spacing as int, symbol_width as int)[j].0 && out@[j].1 as int
                == cell_layout(left as int, widths@.take(i as int), spacing as int, symbol_width as int)[j].1,
            i == 0 ==> x == left + symbol_width,
            0 < i < n ==> x as int == left + sum_widths(widths@.take(i as int)) + i * spacing,
            0 < i < n ==> x as int == out@[i - 1].0 + out@[i - 1].1 + spacing,
        decreases n - i,
    {
        let ghost prefix = widths@.take(i + 1);
        assert(prefix.drop_last() =~= widths@.take(i as int));
        proof {
            lemma_sum_widths_prefix(widths@, i + 1);
            assert(i * spacing <= n * spacing) by (nonlinear_arith)
                requires i <= n;
            assert((i + 1) * spacing <= n * spacing) by (nonlinear_arith)
                requires i + 1 <= n;
            assert((i + 1) * spacing == i * spacing + spacing) by (nonlinear_arith);
            if i == 0 {
                assert(widths@.take(1).drop_last() =~= Seq::<u16>::empty());
            }
            assert(prefix.last() == widths@[i as int]);
            assert(sum_widths(prefix) == sum_widths(widths@.take(i as int)) + widths@[i as int]);
            lemma_sum_widths_nonneg(widths@.take(i as int));
        }
        let ghost rest = cell_layout(left as int, widths@.take(i as int), spacing as int, symbol_width as int);
        proof {
            lemma_cell_layout_len(left as int, widths@.take(i as int), spacing as int, symbol_width as int);
            if i > 0 {
                assert(out@[i - 1].0 as int == rest[i - 1].0 && out@[i - 1].1 as int == rest[i - 1].1);
            }
        }
        let w = if i == 0 { widths[0] - symbol_width } else { widths[i] };
        out.push((x, w));
        if i + 1 < n {
            x = x + w + spacing;
        }
        proof {
            let cl = cell_layout(left as int, prefix, spacing as int, symbol_width as int);
            assert(cl == rest.push((out@[i as int].0 as int, out@[i as int].1 as int)));
            assert forall|j: int| 0 <= j < i + 1 implies (#[trigger] out@[j]).0 as int == cl[j].0
                && out@[j].1 as int == cl[j].1 by {
                if j < i {
                    assert(cl[j] == cell_layout(left as int, widths@.take(i as int), spacing as int, symbol_width as int)[j]);
                }
            }
        }
        i = i + 1;
    }
    assert(widths@.take(n as int) =~= widths@);
    out
}

/// The sum of the widths.
pub open spec fn sum_widths(s: Seq<u16>) -> int
    decreases s.len(),
{
    if s.len() == 0 { 0 } else { sum_widths(s.drop_last()) + s.last() }
}

/// A row has one cell per column.
proof fn lemma_cell_layout_len(left: int, widths: Seq<u16>, spacing: int, symbol_width: int)
    ensures
        cell_layout(left, widths, spacing, symbol_width).len() == widths.len(),
    decreases widths.len(),
{
    if widths.len() > 0 {
        lemma_cell_layout_len(left, widths.drop_last(), spacing, symbol_width);
    }
}

/// Widths sum to a non-negative number.
proof fn lemma_sum_widths_nonneg(s: Seq<u16>)
    ensures
        sum_widths(s) >= 0,
    decreases s.len(),
{
    if s.len() > 0 {
        lemma_sum_widths_nonneg(s.drop_last());
    }
}

/// A prefix sums to no more than the whole.
proof fn lemma_sum_widths_prefix(s: Seq<u16>, i: int)
    requires
        0 <= i <= s.len(),
    ensures
        sum_widths(s.take(i)) <= sum_widths(s),
    decreases s.len(),
{
    if i < s.len() {
        assert(s.drop_last().take(i) =~= s.take(i));
        lemma_sum_widths_prefix(s.drop_last(), i);
    } else {
        assert(s.take(i) =~= s);
    }
}

/// The pieces of a text of `len` bytes around sorted, non-overlapping
/// match ranges: the text before each match (when not empty), the match
/// itself (highlighted, when not empty), and the rest after the last match.
pub open spec fn highlight_pieces(ranges: Seq<(usize, usize)>, len: int) -> Seq<(usize, usize, bool)> {
    let (pieces, end) = pieces_before(ranges);
    if end < len { pieces.push((end as usize, len as usize, false)) } else { pieces }
}

/// The pieces up to the end of the last match, and that end.
pub open spec fn pieces_before(ranges: Seq<(usize, usize)>) -> (Seq<(usize, usize, bool)>, int)
    decreases ranges.len(),
{
    if ranges.len() == 0 {
        (Seq::empty(), 0)
    } else {
        let (pieces, prev_end) = pieces_before(ranges.drop_last());
        let m = ranges.last();
        let p1 = if m.0 > prev_end { pieces.push((prev_end as usize, m.0, false)) } else { pieces };
        let p2 = if m.1 > m.0 { p1.push((m.0, m.1, true)) } else { p1 };
        (p2, m.1 as int)
    }
}

/// Whether the ranges are in order, do not overlap and lie within `len`.
pub open spec fn ranges_in_order(ranges: Seq<(usize, usize)>, len: int) -> bool {
    &&& forall|j: int| 0 <= j < ranges.len() ==> (#[trigger] ranges[j]).0 <= ranges[j].1 <= len
    &&& forall|j: int, k: int| 0 <= j < k < ranges.len() ==> (#[trigger] ranges[j]).1 <= (#[trigger] ranges[k]).0
}

/// Whether the pieces run on without gaps from 0 to `end`, none empty.
pub open spec fn pieces_tile(p: Seq<(usize, usize, bool)>, end: int) -> bool {
    &&& p.len() == 0 ==> end == 0
    &&& p.len() > 0 ==> p[0].0 == 0 && p.last().1 == end
    &&& forall|i: int| 0 <= i < p.len() ==> (#[trigger] p[i]).0 < p[i].1
    &&& forall|i: int| 0 <= i < p.len() - 1 ==> (#[trigger] p[i]).1 == p[i + 1].0
}

/// Whether exactly the non-empty ranges are the highlighted pieces.
pub open spec fn highlights_are_ranges(p: Seq<(usize, usize, bool)>, ranges: Seq<(usize, usize)>) -> bool {
    &&& forall|i: int| 0 <= i < p.len() && (#[trigger] p[i]).2
        ==> exists|j: int| 0 <= j < ranges.len() && (#[trigger] ranges[j]) == (p[i].0, p[i].1)
    &&& forall|j: int| 0 <= j < ranges.len() && (#[trigger] ranges[j]).0 < ranges[j].1
        ==> exists|i: int| 0 <= i < p.len() && (#[trigger] p[i]) == (ranges[j].0, ranges[j].1, true)
}

proof fn lemma_in_order_prefix(ranges: Seq<(usize, usize)>, len: int)
    requires
        ranges_in_order(ranges, len),
        ranges.len() > 0,
    ensures
        ranges_in_order(ranges.drop_last(), len),
        ranges.drop_last().len() > 0 ==> ranges.drop_last().last().1 <= ranges.last().0,
{
    let r0 = ranges.drop_last();
    assert forall|j: int| 0 <= j < r0.len() implies (#[trigger] r0[j]).0 <= r0[j].1 <= len by {
        assert(r0[j] == ranges[j]);
    }
    assert forall|j: int, k: int| 0 <= j < k < r0.len() implies (#[trigger] r0[j]).1 <= (#[trigger] r0[k]).0 by {
        assert(r0[j] == ranges[j] && r0[k] == ranges[k]);
    }
    if r0.len() > 0 {
        assert(r0.last() == ranges[r0.len() - 1]);
        assert(ranges.last() == ranges[ranges.len() - 1]);
    }
}

proof fn lemma_pieces_tile(ranges: Seq<(usize, usize)>, len: int)
    requires
        ranges_in_order(ranges, len),
        len <= usize::MAX,
    ensures
        pieces_tile(pieces_before(ranges).0, pieces_before(ranges).1),
        pieces_before(ranges).1 == if ranges.len() == 0 { 0 } else { ranges.last().1 as int },
    decreases ranges.len(),
{
    if ranges.len() > 0 {
        let r0 = ranges.drop_last();
        lemma_in_order_prefix(ranges, len);
        lemma_pieces_tile(r0, len);
        let (pieces, prev_end) = pieces_before(r0);
        let m = ranges.last();
        assert(m == ranges[ranges.len() - 1]);
        assert(prev_end <= m.0);
        assert(m.1 <= len);
        let p1 = if m.0 > prev_end { pieces.push((prev_end as usize, m.0, false)) } else { pieces };
        let p2 = if m.1 > m.0 { p1.push((m.0, m.1, true)) } else { p1 };
        assert(pieces_before(ranges) == (p2, m.1 as int));
        assert(pieces_tile(p1, m.0 as int)) by {
            if m.0 > prev_end {
                assert forall|i: int| 0 <= i < p1.len() - 1 implies (#[trigger] p1[i]).1 == p1[i + 1].0 by {
                    if i < pieces.len() - 1 {
                        assert(p1[i] == pieces[i] && p1[i + 1] == pieces[i + 1]);
                    } else {
                        assert(p1[i] == pieces.last());
                    }
                }
                assert forall|i: int| 0 <= i < p1.len() implies (#[trigger] p1[i]).0 < p1[i].1 by {
                    if i < pieces.len() {
                        assert(p1[i] == pieces[i]);
                    }
                }
            }
        }
        if m.1 > m.0 {
            assert forall|i: int| 0 <= i < p2.len() - 1 implies (#[trigger] p2[i]).1 == p2[i + 1].0 by {
                if i < p1.len() - 1 {
                    assert(p2[i] == p1[i] && p2[i + 1] == p1[i + 1]);
                } else {
                    assert(p2[i] == p1.last());
                }
            }
            assert forall|i: int| 0 <= i < p2.len() implies (#[trigger] p2[i]).0 < p2[i].1 by {
                if i < p1.len() {
                    assert(p2[i] == p1[i]);
                }
            }
        }
    }
}

proof fn lemma_pieces_highlights(ranges: Seq<(usize, usize)>, len: int)
    requires
        ranges_in_order(ranges, len),
        len <= usize::MAX,
    ensures
        highlights_are_ranges(pieces_before(ranges).0, ranges),
    decreases ranges.len(),
{
    if ranges.len() > 0 {
        let r0 = ranges.drop_last();
        lemma_in_order_prefix(ranges, len);
        lemma_pieces_highlights(r0, len);
        let (pieces, prev_end) = pieces_before(r0);
        let m = ranges.last();
        assert(m == ranges[ranges.len() - 1]);
        let p1 = if m.0 > prev_end { pieces.push((prev_end as usize, m.0, false)) } else { pieces };
        let p2 = if m.1 > m.0 { p1.push((m.0, m.1, true)) } else { p1 };
        assert(pieces_before(ranges) == (p2, m.1 as int));
        assert forall|i: int| 0 <= i < pieces.len() implies p2[i] == pieces[i] by {}
        assert forall|i: int| 0 <= i < p2.len() && (#[trigger] p2[i]).2
            implies exists|j: int| 0 <= j < ranges.len() && (#[trigger] ranges[j]) == (p2[i].0, p2[i].1) by {
            if i < pieces.len() {
                assert(pieces[i].2);
                let j = choose|j: int| 0 <= j < r0.len() && (#[trigger] r0[j]) == (pieces[i].0, pieces[i].1);
                assert(ranges[j] == r0[j]);
            } else if i < p1.len() {
                assert(!p1[i].2);
            } else {
                assert(ranges[ranges.len() - 1] == (p2[i].0, p2[i].1));
            }
        }
        assert forall|j: int| 0 <= j < ranges.len() && (#[trigger] ranges[j]).0 < ranges[j].1
            implies exists|i: int| 0 <= i < p2.len() && (#[trigger] p2[i]) == (ranges[j].0, ranges[j].1, true) by {
            if j < r0.len() {
                assert(r0[j] == ranges[j]);
                let i = choose|i: int| 0 <= i < pieces.len() && (#[trigger] pieces[i]) == (r0[j].0, r0[j].1, true);
                assert(p2[i] == pieces[i]);
            } else {
                assert(p2[p2.len() - 1] == (m.0, m.1, true));
            }
        }
    }
}

/// Splitting a text around its matches gives pieces that run on without
/// gaps from the start to the end of the text, none of them empty, and the
/// highlighted pieces are exactly the matches that are not empty: nothing
/// is lost, added, or highlighted that was not matched.
pub proof fn law_spans_tile_the_text(ranges: Seq<(usize, usize)>, len: int)
    requires
        ranges_in_order(ranges, len),
        0 <= len <= usize::MAX,
    ensures
        pieces_tile(highlight_pieces(ranges, len), len),
        highlights_are_ranges(highlight_pieces(ranges, len), ranges),
{
    lemma_pieces_tile(ranges, len);
    lemma_pieces_highlights(ranges, len);
    let pieces = pieces_before(ranges).0;
    let end = pieces_before(ranges).1;
    if ranges.len() > 0 {
        assert(ranges[ranges.len() - 1] == ranges.last());
        assert(ranges[ranges.len() - 1].0 <= ranges[ranges.len() - 1].1 <= len);
    }
    assert(end <= len);
    if end < len {
        lemma_push_tail(pieces, end, len, ranges);
    }
}

proof fn lemma_push_tail(pieces: Seq<(usize, usize, bool)>, end: int, len: int, ranges: Seq<(usize, usize)>)
    requires
        pieces_tile(pieces, end),
        highlights_are_ranges(pieces, ranges),
        0 <= end < len <= usize::MAX,
    ensures
        pieces_tile(pieces.push((end as usize, len as usize, false)), len),
        highlights_are_ranges(pieces.push((end as usize, len as usize, false)), ranges),
{
    let h = pieces.push((end as usize, len as usize, false));
    assert forall|i: int| 0 <= i < h.len() - 1 implies (#[trigger] h[i]).1 == h[i + 1].0 by {
        if i < pieces.len() - 1 {
            assert(h[i] == pieces[i] && h[i + 1] == pieces[i + 1]);
        } else {
            assert(h[i] == pieces.last());
        }
    }
    assert forall|i: int| 0 <= i < h.len() implies (#[trigger] h[i]).0 < h[i].1 by {
        if i < pieces.len() {
            assert(h[i] == pieces[i]);
        }
    }
    assert forall|i: int| 0 <= i < h.len() && (#[trigger] h[i]).2
        implies exists|j: int| 0 <= j < ranges.len() && (#[trigger] ranges[j]) == (h[i].0, h[i].1) by {
        assert(i < pieces.len());
        assert(h[i] == pieces[i]);
    }
    assert forall|j: int| 0 <= j < ranges.len() && (#[trigger] ranges[j]).0 < ranges[j].1
        implies exists|i: int| 0 <= i < h.len() && (#[trigger] h[i]) == (ranges[j].0, ranges[j].1, true) by {
        let i = choose|i: int| 0 <= i < pieces.len() && (#[trigger] pieces[i]) == (ranges[j].0, ranges[j].1, true);
        assert(h[i] == pieces[i]);
    }
}

/// The rows shown lie among the rows, there are at most `remaining` of
/// them, and they start at `offset` unless it is past the last row.
pub proof fn law_visible_rows(offset: int, rows: int, remaining: int)
    requires
        0 <= offset,
        0 <= rows,
        0 <= remaining,
    ensures
        ({
            let (s, e) = visible_range(offset, rows, remaining);
            &&& 0 <= s <= e <= rows
            &&& e - s <= remaining
            &&& offset < rows ==> s == offset && e == if offset + remaining < rows { offset + remaining } else { rows }
        }),
{
}

/// Splits a text of `len` bytes around its match ranges (see
/// [`highlight_pieces`]).
pub fn build_spans(len: usize, ranges: &Vec<(usize, usize)>) -> (r: Vec<(usize, usize, bool)>)
    ensures
        r@ == highlight_pieces(ranges@, len as int),
{
    let mut out: Vec<(usize, usize, bool)> = Vec::new();
    let mut prev_end: usize = 0;
    let mut i: usize = 0;
    while i < ranges.len()
        invariant
            i <= ranges@.len(),
            (out@, prev_end as int) == pieces_before(ranges@.take(i as int)),
        decreases ranges@.len() - i,
    {
        assert(ranges@.take(i + 1).drop_last() =~= ranges@.take(i as int));
        let (start, end) = ranges[i];
        if start > prev_end {
            out.push((prev_end, start, false));
        }
        if end > start {
            out.push((start, end, true));
        }
        prev_end = end;
        i = i + 1;
    }
    assert(ranges@.take(ranges@.len() as int) =~= ranges@);
    if prev_end < len {
        out.push((prev_end, len, false));
    }
    out
}

} // verus!
