//! Searching the database with a query.

use vstd::prelude::*;
use std::sync::Arc;
use std::sync::atomic::AtomicBool;
use crate::database::{all_ids, Database, Index, EntryId, StatusKind};
use crate::database::order::{
    law_sort_orders_are_total_preorders, lemma_sorted_unique, sorted_wrt, ties_only_with_itself, total_preorder,
};
use crate::database::compare::{par_sort_ids, par_sort_dirs_first, sorted_by, ids_of_kind};
use crate::query::{Query, SortOrder};
use std::cmp::Ordering;
use crate::query::pattern::is_match;
use crate::Error;

verus! {

/// How the entries are matched against a query.
#[derive(Clone, Copy, PartialEq, Eq, Debug)]
pub enum FilterKind {
    /// Every entry matches (empty pattern).
    Passthrough,
    /// The basename is matched.
    Basename,
    /// The full path of the entry is matched (a pattern that is not a plain
    /// literal).
    RegexPath,
    /// The root path or any name on the way down to the entry is matched (a
    /// literal without a path separator).
    ComponentWise,
    /// The path of the entry or of any of its ancestors is matched (a
    /// literal with a path separator).
    FullPath,
}

impl Query {
    /// The filter the query is searched with.
    pub open(crate) spec fn filter_kind(&self) -> FilterKind {
        if self.spec_pattern().len() == 0 {
            FilterKind::Passthrough
        } else if !self.spec_match_path() {
            FilterKind::Basename
        } else if !self.spec_is_literal() {
            FilterKind::RegexPath
        } else if !self.spec_has_path_separator() {
            FilterKind::ComponentWise
        } else {
            FilterKind::FullPath
        }
    }
}

impl Index {
    /// Whether the path of the root of entry `i`, or a name on the way from
    /// there down to `i`, matches.
    pub open(crate) spec fn component_hit(&self, q: Query, i: int) -> bool
        decreases i,
    {
        if 0 <= i < self.len() {
            let p = self.parent(i);
            if p == i {
                q.matches(self.spec_path(i))
            } else if 0 <= p < i {
                self.component_hit(q, p) || q.matches(self.node_name(i))
            } else {
                false
            }
        } else {
            false
        }
    }

    /// Whether the path of entry `i` or of one of its ancestors matches.
    pub open(crate) spec fn prefix_path_hit(&self, q: Query, i: int) -> bool
        decreases i,
    {
        if 0 <= i < self.len() {
            let p = self.parent(i);
            if p == i {
                q.matches(self.spec_path(i))
            } else if 0 <= p < i {
                self.prefix_path_hit(q, p) || q.matches(self.spec_path(i))
            } else {
                false
            }
        } else {
            false
        }
    }

    /// Whether entry `i` is a hit of the query.
    pub open(crate) spec fn is_hit(&self, q: Query, i: int) -> bool {
        match q.filter_kind() {
            FilterKind::Passthrough => true,
            FilterKind::Basename => q.matches(self.node_name(i)),
            FilterKind::RegexPath => q.matches(self.spec_path(i)),
            FilterKind::ComponentWise => self.component_hit(q, i),
            FilterKind::FullPath => self.prefix_path_hit(q, i),
        }
    }

    /// [`Index::is_hit`] for a `u32` id.
    pub open(crate) spec fn hit_u(&self, q: Query, i: u32) -> bool {
        self.is_hit(q, i as int)
    }

    /// The hits among `ids`, in their order.
    pub open(crate) spec fn hits_in(&self, q: Query, ids: Seq<u32>) -> Seq<u32> {
        ids.filter(|x: u32| self.hit_u(q, x))
    }
}

/// What a hit is: with an empty pattern every entry; matching basenames,
/// an entry whose name matches; matching paths with a pattern that is not
/// a plain literal, an entry whose full path matches. With a literal
/// matched against paths, a hit's children are hits too (a literal found
/// on the way to a directory is on the way to everything below it), a root
/// is a hit when its path matches, and an entry whose own name (without a
/// separator in the literal) or own path (with one) matches is a hit.
pub proof fn law_what_a_hit_is(idx: Index, q: Query, i: int)
    requires
        idx.inv(),
        0 <= i < idx.len(),
    ensures
        q.spec_pattern().len() == 0 ==> idx.is_hit(q, i),
        q.spec_pattern().len() != 0 && !q.spec_match_path() ==> (idx.is_hit(q, i) == q.matches(idx.node_name(i))),
        q.spec_pattern().len() != 0 && q.spec_match_path() && !q.spec_is_literal()
            ==> (idx.is_hit(q, i) == q.matches(idx.spec_path(i))),
        q.spec_pattern().len() != 0 && q.spec_match_path() && q.spec_is_literal() && idx.is_root(i)
            ==> (idx.is_hit(q, i) == q.matches(idx.spec_path(i))),
        q.spec_pattern().len() != 0 && q.spec_match_path() && q.spec_is_literal() && !idx.is_root(i)
            ==> (idx.is_hit(q, idx.parent(i)) ==> idx.is_hit(q, i)),
        q.spec_pattern().len() != 0 && q.spec_match_path() && q.spec_is_literal() && !idx.is_root(i)
            && !q.spec_has_path_separator() && q.matches(idx.node_name(i)) ==> idx.is_hit(q, i),
        q.spec_pattern().len() != 0 && q.spec_match_path() && q.spec_is_literal() && !idx.is_root(i)
            && q.spec_has_path_separator() && q.matches(idx.spec_path(i)) ==> idx.is_hit(q, i),
{
    assert(idx.node_wf(i));
}

/// The raw ids of a list of entry ids.
pub open spec fn raw_ids(v: Seq<EntryId>) -> Seq<u32> {
    v.map_values(|e: EntryId| e.0)
}

/// Filtering keeps every value that passes as often as it occurs, and no
/// other value.
pub proof fn lemma_filter_count(s: Seq<u32>, f: spec_fn(u32) -> bool, x: u32)
    ensures
        s.filter(f).to_multiset().count(x) == if f(x) { s.to_multiset().count(x) } else { 0 },
    decreases s.len(),
{
    broadcast use vstd::seq_lib::group_to_multiset_ensures;
    broadcast use vstd::multiset::group_multiset_axioms;
    if s.len() == 0 {
        s.lemma_filter_len(f);
        assert(s.filter(f) =~= Seq::<u32>::empty());
        assert(s =~= Seq::<u32>::empty());
    } else {
        let t = s.drop_last();
        assert(s =~= t.push(s.last()));
        t.lemma_filter_push(s.last(), f);
        lemma_filter_count(t, f, x);
    }
}

/// Sequences with the same elements keep the same elements under a filter.
pub proof fn lemma_filter_same_elements(a: Seq<u32>, b: Seq<u32>, f: spec_fn(u32) -> bool)
    requires
        a.to_multiset() == b.to_multiset(),
    ensures
        a.filter(f).to_multiset() == b.filter(f).to_multiset(),
{
    assert forall|x: u32| #[trigger] a.filter(f).to_multiset().count(x) == b.filter(f).to_multiset().count(x) by {
        lemma_filter_count(a, f, x);
        lemma_filter_count(b, f, x);
    }
    assert(a.filter(f).to_multiset() =~= b.filter(f).to_multiset());
}

/// Putting the directories of a list before its files, or after them,
/// keeps its elements.
pub proof fn lemma_dirs_first_same_elements(s: Seq<u32>, idx: Index, dirs: bool)
    ensures
        (ids_of_kind(s, idx, dirs) + ids_of_kind(s, idx, !dirs)).to_multiset() == s.to_multiset(),
{
    broadcast use vstd::multiset::group_multiset_axioms;
    let a = ids_of_kind(s, idx, dirs);
    let b = ids_of_kind(s, idx, !dirs);
    vstd::seq_lib::lemma_multiset_commutative(a, b);
    assert forall|x: u32| #[trigger] (a + b).to_multiset().count(x) == s.to_multiset().count(x) by {
        lemma_filter_count(s, |y: u32| idx.is_dir_u(y) == dirs, x);
        lemma_filter_count(s, |y: u32| idx.is_dir_u(y) == !dirs, x);
    }
    assert((a + b).to_multiset() =~= s.to_multiset());
}

/// What is sorted stays sorted under a filter.
proof fn lemma_filter_sorted(s: Seq<u32>, idx: Index, kind: StatusKind, desc: bool, f: spec_fn(u32) -> bool)
    requires
        sorted_by(s, idx, kind, desc),
    ensures
        sorted_by(s.filter(f), idx, kind, desc),
    decreases s.len(),
{
    if s.len() > 0 {
        let t = s.drop_last();
        let x = s.last();
        assert(s =~= t.push(x));
        assert forall|i: int, j: int| 0 <= i < j < t.len() implies
            #[trigger] idx.directed_order(kind, desc, t[i], t[j]) != Ordering::Greater by {
            assert(idx.directed_order(kind, desc, s[i], s[j]) != Ordering::Greater);
        }
        lemma_filter_sorted(t, idx, kind, desc, f);
        t.lemma_filter_push(x, f);
        if f(x) {
            let ft = t.filter(f);
            let r = ft.push(x);
            assert forall|i: int, j: int| 0 <= i < j < r.len() implies
                #[trigger] idx.directed_order(kind, desc, r[i], r[j]) != Ordering::Greater by {
                if j < ft.len() {
                    assert(idx.directed_order(kind, desc, ft[i], ft[j]) != Ordering::Greater);
                } else {
                    assert(ft.contains(ft[i]));
                    t.lemma_filter_contains_rev(f, ft[i]);
                    let k = choose|k: int| 0 <= k < t.len() && t[k] == ft[i];
                    assert(idx.directed_order(kind, desc, s[k], s[s.len() - 1]) != Ordering::Greater);
                }
            }
        }
    }
}

/// Reversing an ascending list gives a descending one.
proof fn lemma_reverse_sorted(s: Seq<u32>, idx: Index, kind: StatusKind)
    requires
        sorted_by(s, idx, kind, false),
    ensures
        sorted_by(s.reverse(), idx, kind, true),
{
    let r = s.reverse();
    assert forall|i: int, j: int| 0 <= i < j < r.len() implies
        #[trigger] idx.directed_order(kind, true, r[i], r[j]) != Ordering::Greater by {
        assert(r[i] == s[s.len() - 1 - i]);
        assert(r[j] == s[s.len() - 1 - j]);
        assert(idx.directed_order(kind, false, s[s.len() - 1 - j], s[s.len() - 1 - i]) != Ordering::Greater);
    }
}

/// Whether entries tie in the order by `kind` only with themselves.
pub open spec fn ties_only_within(idx: Index, kind: StatusKind) -> bool {
    forall|a: u32, b: u32| a < idx.len() && b < idx.len() && #[trigger] idx.entry_order(kind, a, b) == Ordering::Equal
        ==> a == b
}

/// Under the conditions of [`law_sort_orders_are_total_preorders`], the
/// order by any status is a total preorder in which only an entry ties with
/// itself.
proof fn lemma_strict_total(idx: Index, kind: StatusKind)
    requires
        idx.inv(),
        idx.distinct_sibling_names(),
        idx.roots_ordered_by_name(),
    ensures
        idx.is_weak_order(kind),
        ties_only_within(idx, kind),
{
    law_sort_orders_are_total_preorders(idx, kind);
    assert forall|a: u32, b: u32| a < idx.len() && b < idx.len() && #[trigger] idx.entry_order(kind, a, b) == Ordering::Equal
        implies a == b by {
        idx.lemma_entry_order_strict(kind, a, b);
    }
}

/// A list sorted by `kind` is sorted by the directed order as a function.
proof fn lemma_sorted_as_function(s: Seq<u32>, idx: Index, kind: StatusKind, desc: bool)
    requires
        sorted_by(s, idx, kind, desc),
    ensures
        sorted_wrt(s, |a: u32, b: u32| idx.directed_order(kind, desc, a, b)),
{
    let o = |a: u32, b: u32| idx.directed_order(kind, desc, a, b);
    assert forall|i: int, j: int| 0 <= i < j < s.len() implies #[trigger] o(s[i], s[j]) != Ordering::Greater by {
        assert(idx.directed_order(kind, desc, s[i], s[j]) != Ordering::Greater);
    }
}

/// Under the conditions of [`law_sort_orders_are_total_preorders`], the
/// directed order by a status is a total preorder in which only an entry
/// ties with itself.
proof fn lemma_directed_strict_total(idx: Index, kind: StatusKind, desc: bool)
    requires
        idx.is_weak_order(kind),
        ties_only_within(idx, kind),
    ensures
        total_preorder(|a: u32, b: u32| idx.directed_order(kind, desc, a, b), idx.len()),
        ties_only_with_itself(|a: u32, b: u32| idx.directed_order(kind, desc, a, b), idx.len()),
{
    let n = idx.len();
    let o = |a: u32, b: u32| idx.directed_order(kind, desc, a, b);
    assert forall|a: u32, b: u32| a < n && b < n implies #[trigger] o(b, a) == crate::text::reversed(o(a, b)) by {
        assert(idx.entry_order(kind, b, a) == crate::text::reversed(idx.entry_order(kind, a, b)));
    }
    assert forall|a: u32, b: u32, c: u32| #![trigger o(a, b), o(b, c)]
        a < n && b < n && c < n && o(a, b) != Ordering::Greater && o(b, c) != Ordering::Greater
        implies o(a, c) != Ordering::Greater by {
        if desc {
            assert(idx.entry_order(kind, c, b) != Ordering::Greater && idx.entry_order(kind, b, a) != Ordering::Greater
                ==> idx.entry_order(kind, c, a) != Ordering::Greater);
        } else {
            assert(idx.entry_order(kind, a, b) != Ordering::Greater && idx.entry_order(kind, b, c) != Ordering::Greater
                ==> idx.entry_order(kind, a, c) != Ordering::Greater);
        }
    }
    assert forall|a: u32, b: u32| a < n && b < n && #[trigger] o(a, b) == Ordering::Equal implies a == b by {
        if desc {
            assert(idx.entry_order(kind, b, a) == Ordering::Equal);
        } else {
            assert(idx.entry_order(kind, a, b) == Ordering::Equal);
        }
    }
}

/// Presorting changes nothing of what a search lists: when no two entries
/// of a directory share a name and distinct roots compare by path as their
/// names do, the hits of a query in the query's order are one and the same
/// list for two databases of the same index, whichever statuses each has
/// presorted, and so is the listing with directories first.
pub proof fn law_presorting_keeps_results(db1: &Database, db2: &Database, q: Query, s1: Seq<u32>, s2: Seq<u32>)
    requires
        db1.inv(),
        db2.inv(),
        db1.idx() == db2.idx(),
        db1.idx().distinct_sibling_names(),
        db1.idx().roots_ordered_by_name(),
        db1.sorted_hits(q, s1),
        db2.sorted_hits(q, s2),
    ensures
        s1 == s2,
        db1.arranged(q, s1) == db2.arranged(q, s2),
{
    db1.law_hits_come_sorted(q, s1);
    db2.law_hits_come_sorted(q, s2);
    let idx = db1.idx();
    let kind = q.spec_sort_by();
    let desc = q.spec_sort_order() == SortOrder::Descending;
    lemma_strict_total(idx, kind);
    lemma_directed_strict_total(idx, kind, desc);
    lemma_sorted_as_function(s1, idx, kind, desc);
    lemma_sorted_as_function(s2, idx, kind, desc);
    lemma_sorted_unique(s1, s2, |a: u32, b: u32| idx.directed_order(kind, desc, a, b), idx.len());
}

/// Whether the search was asked to stop: the flag may be set at any time by
/// another thread.
fn aborted(signal: &AtomicBool) -> bool {
    signal.load(std::sync::atomic::Ordering::Relaxed)
}

/// Whether the search is to stop: never without a flag, else whatever the
/// flag reads now.
fn stop_requested(signal: Option<&AtomicBool>) -> (b: bool)
    ensures
        signal is None ==> !b,
{
    match signal {
        Some(flag) => aborted(flag),
        None => false,
    }
}

impl Database {
    /// Whether `s` holds the hits of the query in the query's order: the
    /// presorted order when there is one; else some order of all hits, which
    /// is the query's order when sorting by its status is a total preorder.
    pub open(crate) spec fn sorted_hits(&self, q: Query, s: Seq<u32>) -> bool {
        let idx = self.idx();
        let kind = q.spec_sort_by();
        let desc = q.spec_sort_order() == SortOrder::Descending;
        &&& (self.spec_is_fast_sortable(kind) ==> s == idx.hits_in(q, if desc {
                self.spec_sorted_ids(kind).reverse()
            } else {
                self.spec_sorted_ids(kind)
            }))
        &&& (!self.spec_is_fast_sortable(kind) ==> s.to_multiset() == idx.hits_in(q, all_ids(idx.len())).to_multiset()
            && (idx.is_weak_order(kind) ==> sorted_by(s, idx, kind, desc)))
    }

    /// The sorted hits `s` as listed: directories first when asked (last,
    /// for a descending query), each group in its order.
    pub open(crate) spec fn arranged(&self, q: Query, s: Seq<u32>) -> Seq<u32> {
        let desc = q.spec_sort_order() == SortOrder::Descending;
        if q.spec_sort_dirs_before_files() {
            ids_of_kind(s, self.idx(), !desc) + ids_of_kind(s, self.idx(), desc)
        } else {
            s
        }
    }

    /// The hits of a search come sorted: when no two entries of a directory
    /// share a name and distinct roots compare by path as their names do, a
    /// list of the hits in the query's order, presorted or not, is sorted
    /// in the query's order, holds every hit once, and holds nothing else.
    pub proof fn law_hits_come_sorted(&self, q: Query, s: Seq<u32>)
        requires
            self.inv(),
            self.idx().distinct_sibling_names(),
            self.idx().roots_ordered_by_name(),
            self.sorted_hits(q, s),
        ensures
            sorted_by(s, self.idx(), q.spec_sort_by(), q.spec_sort_order() == SortOrder::Descending),
            forall|i: int| 0 <= i < s.len() ==> #[trigger] s[i] < self.idx().len(),
            s.to_multiset() == self.idx().hits_in(q, all_ids(self.idx().len())).to_multiset(),
    {
        broadcast use vstd::seq_lib::group_to_multiset_ensures;
        let kind = q.spec_sort_by();
        let desc = q.spec_sort_order() == SortOrder::Descending;
        let idx = self.idx();
        law_sort_orders_are_total_preorders(idx, kind);
        self.lemma_sorted_hits_are_the_hits(q, s);
        let hits = idx.hits_in(q, all_ids(idx.len()));
        assert forall|i: int| 0 <= i < s.len() implies #[trigger] s[i] < idx.len() by {
            assert(s.to_multiset().count(s[i]) > 0);
            assert(hits.contains(s[i]));
            all_ids(idx.len()).lemma_filter_contains_rev(|x: u32| idx.hit_u(q, x), s[i]);
        }
        if self.spec_is_fast_sortable(kind) {
            let ids = self.spec_sorted_ids(kind);
            assert(crate::database::ids_sorted(self.sorted_ids@[kind.kind_index() as int], self.index, kind));
            assert(sorted_by(ids, idx, kind, false));
            if desc {
                lemma_reverse_sorted(ids, idx, kind);
                lemma_filter_sorted(ids.reverse(), idx, kind, true, |x: u32| idx.hit_u(q, x));
            } else {
                lemma_filter_sorted(ids, idx, kind, false, |x: u32| idx.hit_u(q, x));
            }
        }
    }

    /// A list of the hits in the query's order holds every hit exactly once.
    pub proof fn lemma_sorted_hits_are_the_hits(&self, q: Query, s: Seq<u32>)
        requires
            self.inv(),
            self.sorted_hits(q, s),
        ensures
            s.to_multiset() == self.idx().hits_in(q, all_ids(self.idx().len())).to_multiset(),
    {
        let kind = q.spec_sort_by();
        if self.spec_is_fast_sortable(kind) {
            let ids = self.spec_sorted_ids(kind);
            assert(crate::database::ids_complete(self.sorted_ids@[kind.kind_index() as int], self.index.len()));
            assert(ids.to_multiset() == all_ids(self.idx().len()).to_multiset());
            let order = if q.spec_sort_order() == SortOrder::Descending { ids.reverse() } else { ids };
            ids.lemma_reverse_to_multiset();
            lemma_filter_same_elements(order, all_ids(self.idx().len()), |x: u32| self.idx().hit_u(q, x));
        }
    }

    /// For every entry, whether it is a hit of the query. Fails only when
    /// the search is aborted.
    fn match_entries(&self, query: &Query, signal: Option<&AtomicBool>) -> (r: Result<Vec<bool>, Error>)
        ensures
            r is Err ==> r matches Err(Error::SearchAbort),
            signal is None || self.idx().len() == 0 ==> r is Ok,
            r matches Ok(m) ==> m@.len() == self.idx().len()
                && forall|i: int| 0 <= i < m@.len() ==> #[trigger] m@[i] == self.idx().is_hit(*query, i),
    {
        proof { use_type_invariant(self); }
        let index = &self.index;
        let n = index.nodes.len();
        let empty = query.is_empty();
        let match_path = query.match_path();
        let literal = query.is_literal();
        let has_sep = query.has_path_separator();
        let re = query.regex();
        let mut matched: Vec<bool> = Vec::new();
        let mut i: usize = 0;
        while i < n
            invariant
                index.inv(),
                n == index.len(),
                n == self.idx().len(),
                i <= n,
                empty == (query.spec_pattern().len() == 0),
                match_path == query.spec_match_path(),
                literal == query.spec_is_literal(),
                has_sep == query.spec_has_path_separator(),
                re.spec_pattern() == query.spec_pattern(),
                re.spec_case_insensitive() == query.spec_case_insensitive(),
                matched@.len() == i,
                forall|j: int| 0 <= j < i ==> #[trigger] matched@[j] == index.is_hit(*query, j),
            decreases n - i,
        {
            if stop_requested(signal) {
                return Err(Error::SearchAbort);
            }
            let id = i as u32;
            let p = index.nodes[i].parent;
            proof { assert(index.node_wf(i as int)); }
            let m = if empty {
                true
            } else if !match_path {
                is_match(re, index.basename_from_node(id))
            } else if !literal {
                let path = index.path_from_id(id);
                is_match(re, path.as_str())
            } else if p == id {
                is_match(re, index.root_path_str(id))
            } else if matched[p as usize] {
                true
            } else if !has_sep {
                is_match(re, index.basename_from_node(id))
            } else {
                let path = index.path_from_id(id);
                is_match(re, path.as_str())
            };
            proof {
                if !empty && match_path && literal && p == id {
                    assert(index.spec_path(i as int) == index.root_path_u(id));
                }
            }
            matched.push(m);
            i = i + 1;
        }
        Ok(matched)
    }

    /// The ids in `order` whose flag is set, in order. Fails only when the
    /// search is aborted.
    fn collect_hits(&self, query: &Query, order: &Vec<u32>, matched: &Vec<bool>, signal: Option<&AtomicBool>)
        -> (r: Result<Vec<u32>, Error>)
        requires
            matched@.len() == self.idx().len(),
            forall|i: int| 0 <= i < matched@.len() ==> #[trigger] matched@[i] == self.idx().is_hit(*query, i),
            forall|i: int| 0 <= i < order@.len() ==> #[trigger] order@[i] < self.idx().len(),
        ensures
            r is Err ==> r matches Err(Error::SearchAbort),
            signal is None || order@.len() == 0 ==> r is Ok,
            r matches Ok(v) ==> v@ == self.idx().hits_in(*query, order@),
            r matches Ok(v) ==> forall|i: int| 0 <= i < v@.len() ==> #[trigger] v@[i] < self.idx().len(),
    {
        let mut out: Vec<u32> = Vec::new();
        let mut i: usize = 0;
        while i < order.len()
            invariant
                matched@.len() == self.idx().len(),
                forall|i: int| 0 <= i < matched@.len() ==> #[trigger] matched@[i] == self.idx().is_hit(*query, i),
                forall|i: int| 0 <= i < order@.len() ==> #[trigger] order@[i] < self.idx().len(),
                i <= order@.len(),
                out@ == self.idx().hits_in(*query, order@.take(i as int)),
                forall|j: int| 0 <= j < out@.len() ==> #[trigger] out@[j] < self.idx().len(),
            decreases order@.len() - i,
        {
            if stop_requested(signal) {
                return Err(Error::SearchAbort);
            }
            let id = order[i];
            proof {
                reveal(Seq::filter);
                assert(order@.take(i + 1).drop_last() =~= order@.take(i as int));
                assert(matched@[id as int] == self.idx().hit_u(*query, id));
            }
            if matched[id as usize] {
                out.push(id);
            }
            i = i + 1;
        }
        assert(order@.take(order@.len() as int) =~= order@);
        Ok(out)
    }

    /// The presorted ids for the query's status, in the query's order.
    fn presorted_order(&self, query: &Query) -> (r: Option<Vec<u32>>)
        ensures
            r is Some == self.spec_is_fast_sortable(query.spec_sort_by()),
            r matches Some(v) ==> v@ == (match query.spec_sort_order() {
                SortOrder::Ascending => self.spec_sorted_ids(query.spec_sort_by()),
                SortOrder::Descending => self.spec_sorted_ids(query.spec_sort_by()).reverse(),
            }),
            r matches Some(v) ==> forall|i: int| 0 <= i < v@.len() ==> #[trigger] v@[i] < self.idx().len(),
            r matches Some(v) ==> v@.len() == self.idx().len(),
    {
        proof { use_type_invariant(self); }
        let kind = query.sort_by();
        match &self.sorted_ids[kind.index()] {
            Some(ids) => {
                proof {
                    broadcast use vstd::seq_lib::group_to_multiset_ensures;
                    assert(crate::database::ids_in_range(self.sorted_ids@[kind.kind_index() as int], self.index.len()));
                    assert(crate::database::ids_complete(self.sorted_ids@[kind.kind_index() as int], self.index.len()));
                    assert(ids@.to_multiset().len() == all_ids(self.index.len()).to_multiset().len());
                }
                match query.sort_order() {
                    SortOrder::Ascending => {
                        let mut v: Vec<u32> = Vec::new();
                        let mut i: usize = 0;
                        while i < ids.len()
                            invariant
                                i <= ids@.len(),
                                v@ == ids@.take(i as int),
                            decreases ids@.len() - i,
                        {
                            v.push(ids[i]);
                            assert(v@ =~= ids@.take(i + 1));
                            i = i + 1;
                        }
                        assert(ids@.take(ids@.len() as int) =~= ids@);
                        Some(v)
                    },
                    SortOrder::Descending => {
                        let mut v: Vec<u32> = Vec::new();
                        let mut i: usize = ids.len();
                        while i > 0
                            invariant
                                i <= ids@.len(),
                                v@ == ids@.skip(i as int).reverse(),
                            decreases i,
                        {
                            v.push(ids[i - 1]);
                            assert(v@ =~= ids@.skip(i - 1).reverse());
                            i = i - 1;
                        }
                        assert(ids@.skip(0) =~= ids@);
                        Some(v)
                    },
                }
            },
            None => None,
        }
    }

    /// The hits of the query, sorted. With a presorted order for the
    /// query's status, the hits come in that order (reversed for a
    /// descending query); otherwise the hits, in id order, are sorted with
    /// rayon's parallel sort. When directories are asked first, a stable
    /// sort then moves them before the files (after them, for a descending
    /// query). Fails only when the search is aborted, which it cannot be
    /// without an abort flag or on an empty database.
    pub fn search_with(&self, query: &Query, abort_signal: Option<&AtomicBool>) -> (r: Result<Vec<EntryId>, Error>)
        ensures
            r is Err ==> r matches Err(Error::SearchAbort),
            abort_signal is None ==> r is Ok,
            self.idx().len() == 0 ==> (r matches Ok(v) && v@.len() == 0),
            r matches Ok(v) ==> exists|s: Seq<u32>| #[trigger] self.sorted_hits(*query, s)
                && v@.len() == self.arranged(*query, s).len()
                && forall|i: int| 0 <= i < v@.len() ==> (#[trigger] v@[i]).0 == self.arranged(*query, s)[i]
                && (self.idx().distinct_sibling_names() && self.idx().roots_ordered_by_name()
                    ==> sorted_by(s, self.idx(), query.spec_sort_by(), query.spec_sort_order() == SortOrder::Descending)),
            r matches Ok(v) ==> raw_ids(v@).to_multiset()
                == self.idx().hits_in(*query, all_ids(self.idx().len())).to_multiset(),
    {
        proof { use_type_invariant(self); }
        let signal = abort_signal;
        let matched = match self.match_entries(query, signal) {
            Ok(m) => m,
            Err(e) => {
                return Err(e);
            },
        };
        let kind = query.sort_by();
        let desc = match query.sort_order() {
            SortOrder::Ascending => false,
            SortOrder::Descending => true,
        };
        let ghost s: Seq<u32>;
        let mut hits = match self.presorted_order(query) {
            Some(order) => {
                let hits = match self.collect_hits(query, &order, &matched, signal) {
                    Ok(h) => h,
                    Err(e) => {
                        return Err(e);
                    },
                };
                hits
            },
            None => {
                let n = self.index.nodes.len();
                let mut all: Vec<u32> = Vec::new();
                let mut i: usize = 0;
                while i < n
                    invariant
                        n == self.idx().len(),
                        n < u32::MAX,
                        i <= n,
                        all@ == all_ids(i as nat),
                    decreases n - i,
                {
                    all.push(i as u32);
                    assert(all@ =~= all_ids((i + 1) as nat));
                    i = i + 1;
                }
                let mut hits = match self.collect_hits(query, &all, &matched, signal) {
                    Ok(h) => h,
                    Err(e) => {
                        return Err(e);
                    },
                };
                let ghost unsorted = hits@;
                par_sort_ids(&mut hits, &self.index, kind, desc);
                proof {
                    broadcast use vstd::seq_lib::group_to_multiset_ensures;
                    assert forall|j: int| 0 <= j < hits@.len() implies #[trigger] hits@[j] < self.idx().len() by {
                        assert(hits@.to_multiset().count(hits@[j]) > 0);
                        assert(unsorted.contains(hits@[j]));
                    }
                }
                hits
            },
        };
        proof {
            s = hits@;
        }
        if query.sort_dirs_before_files() {
            par_sort_dirs_first(&mut hits, &self.index, !desc);
        }
        let mut out: Vec<EntryId> = Vec::new();
        let mut i: usize = 0;
        while i < hits.len()
            invariant
                i <= hits@.len(),
                out@.len() == i,
                forall|j: int| 0 <= j < i ==> (#[trigger] out@[j]).0 == hits@[j],
            decreases hits@.len() - i,
        {
            out.push(EntryId(hits[i]));
            i = i + 1;
        }
        proof {
            assert(self.sorted_hits(*query, s));
            self.lemma_sorted_hits_are_the_hits(*query, s);
            assert(raw_ids(out@) =~= hits@);
            if query.spec_sort_dirs_before_files() {
                lemma_dirs_first_same_elements(s, self.idx(), !desc);
            }
            if self.idx().distinct_sibling_names() && self.idx().roots_ordered_by_name() {
                self.law_hits_come_sorted(*query, s);
            }
            if self.idx().len() == 0 {
                broadcast use vstd::seq_lib::group_to_multiset_ensures;
                reveal(Seq::filter);
                assert(all_ids(0) =~= Seq::<u32>::empty());
                assert(self.idx().hits_in(*query, all_ids(0)) =~= Seq::<u32>::empty());
                assert(raw_ids(out@).to_multiset().len() == 0);
            }
        }
        Ok(out)
    }

    /// [`Database::search_with`] under the abort flag of the searching
    /// thread.
    pub fn search(&self, query: &Query, abort_signal: &Arc<AtomicBool>) -> (r: Result<Vec<EntryId>, Error>)
        ensures
            r is Err ==> r matches Err(Error::SearchAbort),
            self.idx().len() == 0 ==> (r matches Ok(v) && v@.len() == 0),
            r matches Ok(v) ==> exists|s: Seq<u32>| #[trigger] self.sorted_hits(*query, s)
                && v@.len() == self.arranged(*query, s).len()
                && forall|i: int| 0 <= i < v@.len() ==> (#[trigger] v@[i]).0 == self.arranged(*query, s)[i]
                && (self.idx().distinct_sibling_names() && self.idx().roots_ordered_by_name()
                    ==> sorted_by(s, self.idx(), query.spec_sort_by(), query.spec_sort_order() == SortOrder::Descending)),
            r matches Ok(v) ==> raw_ids(v@).to_multiset()
                == self.idx().hits_in(*query, all_ids(self.idx().len())).to_multiset(),
    {
        let flag: &AtomicBool = &**abort_signal;
        let r = self.search_with(query, Some(flag));
        proof {
            if r is Ok {
                let v = r->Ok_0;
                let s = choose|s: Seq<u32>| #[trigger] self.sorted_hits(*query, s)
                    && v@.len() == self.arranged(*query, s).len()
                    && forall|i: int| 0 <= i < v@.len() ==> (#[trigger] v@[i]).0 == self.arranged(*query, s)[i]
                    && (self.idx().distinct_sibling_names() && self.idx().roots_ordered_by_name()
                        ==> sorted_by(s, self.idx(), query.spec_sort_by(), query.spec_sort_order() == SortOrder::Descending));
                assert(self.sorted_hits(*query, s));
            }
        }
        r
    }
}

} // verus!
