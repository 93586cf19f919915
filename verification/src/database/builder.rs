//! Configuring and building a database.

use vstd::prelude::*;
use std::cmp::Ordering;
use crate::database::{all_ids, Database, Index, StatusKind, StatusFlags, NUM_STATUS_KINDS};
use crate::database::indexer::{IndexOptions, Indexer, DirEntry, root_name, same_at, columns_follow, tidy};
use crate::database::compare::{par_sort_ids, sorted_by};
use crate::text::{byte_len, str_order, bytes_order, chars_of, lemma_encode_concat, lemma_byte_len_ge_len, lemma_bytes_order_antisymmetric};
use vstd::utf8::encode_utf8;
use crate::Error;

verus! {

/// A directory to index: its path and the tree scanned there.
pub struct ScannedRoot {
    pub path: String,
    pub tree: DirEntry,
}

/// Configures which directories and statuses to index and which orders to
/// presort, and builds the database.
pub struct DatabaseBuilder {
    pub(crate) dirs: Vec<String>,
    pub(crate) index_options: IndexOptions,
    pub(crate) fast_sort_flags: StatusFlags,
}

/// The texts of a list of strings.
pub open spec fn views(s: Seq<String>) -> Seq<Seq<char>> {
    Seq::new(s.len(), |i: int| s[i]@)
}

impl DatabaseBuilder {
    /// The directories to index, in the order they were added.
    pub open(crate) spec fn spec_dirs(&self) -> Seq<Seq<char>> {
        views(self.dirs@)
    }

    /// The indexing options.
    pub open(crate) spec fn spec_index_options(&self) -> IndexOptions {
        self.index_options
    }

    /// The presorting flags.
    pub open(crate) spec fn spec_fast_sort_flags(&self) -> StatusFlags {
        self.fast_sort_flags
    }

    /// Whether a presorted order by `kind` is asked for.
    pub open(crate) spec fn fast_sort_flag(&self, kind: StatusKind) -> bool {
        self.fast_sort_flags.flag(kind)
    }

    /// Whether every status asked to be presorted is also indexed.
    pub open(crate) spec fn options_valid(&self) -> bool {
        forall|kind: StatusKind| #[trigger] self.fast_sort_flag(kind) ==> self.index_options.index_flags.flag(kind)
    }

    /// A builder without directories that indexes names, paths and
    /// extensions, keeps hidden entries, and presorts by name.
    pub fn new() -> (b: Self)
        ensures
            b.spec_dirs().len() == 0,
            forall|kind: StatusKind| #[trigger] b.spec_index_options().index_flags.flag(kind) == (kind
                == StatusKind::Basename || kind == StatusKind::Path || kind == StatusKind::Extension),
            !b.spec_index_options().ignore_hidden,
            forall|kind: StatusKind| #[trigger] b.fast_sort_flag(kind) == (kind == StatusKind::Basename),
    {
        let mut fast_sort_flags = StatusFlags::none();
        fast_sort_flags.set(StatusKind::Basename, true);
        DatabaseBuilder { dirs: Vec::new(), index_options: IndexOptions::default(), fast_sort_flags }
    }

    /// Adds a directory to index.
    pub fn add_dir(&mut self, path: &str) -> (r: &mut Self)
        ensures
            r.spec_dirs() == old(self).spec_dirs().push(path@),
            r.spec_index_options() == old(self).spec_index_options(),
            r.spec_fast_sort_flags() == old(self).spec_fast_sort_flags(),
            *final(self) == *final(r),
    {
        let ghost before = self.dirs@;
        self.dirs.push(path.to_owned());
        assert(views(self.dirs@) =~= views(before).push(path@));
        self
    }

    /// Stores the status `kind` of every entry.
    pub fn index(&mut self, kind: StatusKind) -> (r: &mut Self)
        ensures
            r.spec_dirs() == old(self).spec_dirs(),
            r.spec_fast_sort_flags() == old(self).spec_fast_sort_flags(),
            r.spec_index_options().ignore_hidden == old(self).spec_index_options().ignore_hidden,
            r.spec_index_options().index_flags.flag(kind),
            forall|k: StatusKind| k != kind ==> #[trigger] r.spec_index_options().index_flags.flag(k)
                == old(self).spec_index_options().index_flags.flag(k),
            *final(self) == *final(r),
    {
        self.index_options.index_flags.set(kind, true);
        self
    }

    /// Presorts all entries by `kind`, which must be indexed too.
    pub fn fast_sort(&mut self, kind: StatusKind) -> (r: &mut Self)
        ensures
            r.spec_dirs() == old(self).spec_dirs(),
            r.spec_index_options() == old(self).spec_index_options(),
            r.fast_sort_flag(kind),
            forall|k: StatusKind| k != kind ==> #[trigger] r.fast_sort_flag(k) == old(self).fast_sort_flag(k),
            *final(self) == *final(r),
    {
        self.fast_sort_flags.set(kind, true);
        self
    }

    /// Whether to skip hidden entries.
    pub fn ignore_hidden(&mut self, yes: bool) -> (r: &mut Self)
        ensures
            r.spec_dirs() == old(self).spec_dirs(),
            r.spec_fast_sort_flags() == old(self).spec_fast_sort_flags(),
            r.spec_index_options().index_flags == old(self).spec_index_options().index_flags,
            r.spec_index_options().ignore_hidden == yes,
            *final(self) == *final(r),
    {
        self.index_options.ignore_hidden = yes;
        self
    }

    /// The directories to index.
    pub fn dirs(&self) -> (d: &Vec<String>)
        ensures
            views(d@) == self.spec_dirs(),
    {
        &self.dirs
    }

    /// The indexing options.
    pub fn index_options(&self) -> (o: &IndexOptions)
        ensures
            *o == self.spec_index_options(),
    {
        &self.index_options
    }

    /// Fails when a status is to be presorted without being indexed.
    pub fn check(&self) -> (r: Result<(), Error>)
        ensures
            r is Ok <==> self.options_valid(),
            r matches Err(e) ==> (e matches Error::InvalidOption(m)
                && m@ == "Fast sorting cannot be enabled for a non-indexed status."@),
    {
        let kinds = StatusKind::all();
        let mut i: usize = 0;
        while i < kinds.len()
            invariant
                i <= kinds@.len(),
                kinds@.len() == NUM_STATUS_KINDS,
                forall|j: int| 0 <= j < NUM_STATUS_KINDS ==> (#[trigger] kinds@[j]).kind_index() == j,
                forall|j: int| 0 <= j < i ==> (#[trigger] self.fast_sort_flag(kinds@[j]))
                    ==> self.index_options.index_flags.flag(kinds@[j]),
            decreases kinds@.len() - i,
        {
            let kind = kinds[i];
            if self.fast_sort_flags.get(kind) && !self.index_options.index_flags.get(kind) {
                assert(self.fast_sort_flag(kind));
                return Err(Error::InvalidOption("Fast sorting cannot be enabled for a non-indexed status.".to_owned()));
            }
            i = i + 1;
        }
        proof {
            assert forall|kind: StatusKind| #[trigger] self.fast_sort_flag(kind)
                implies self.index_options.index_flags.flag(kind) by {
                let j = kind.kind_index() as int;
                assert(kinds@[j].kind_index() == j);
                assert(kinds@[j] == kind);
            }
        }
        Ok(())
    }
}

impl IndexOptions {
    /// Whether the `k`-th root of the index holds the scanned `root`: its
    /// path, name and statuses, and below it every visible entry of the
    /// tree, within the ids up to the next root.
    pub open(crate) spec fn holds_root(&self, idx: Index, k: int, root: ScannedRoot) -> bool {
        let id = idx.root_id(k);
        let end = if k + 1 < idx.num_roots() { idx.root_id(k + 1) } else { idx.len() as int };
        &&& idx.root_path_at(k) == root.path@
        &&& idx.node_name(id) == root_name(root.path@)
        &&& self.data_at(idx, id, root.tree)
        &&& self.stored_below(idx, id, root.tree, id + 1, end)
    }
}

impl IndexOptions {
    /// The number of entries stored for a list of roots: each root and
    /// everything below it.
    pub open spec fn roots_count(&self, roots: Seq<ScannedRoot>) -> nat
        decreases roots.len(),
    {
        if roots.len() == 0 {
            0
        } else {
            1 + self.below_count(roots[0].tree) + self.roots_count(roots.drop_first())
        }
    }

    /// The bytes of the names stored for a list of roots, counting each name
    /// once for every entry that bears it.
    pub open spec fn roots_bytes(&self, roots: Seq<ScannedRoot>) -> nat
        decreases roots.len(),
    {
        if roots.len() == 0 {
            0
        } else {
            byte_len(root_name(roots[0].path@)) + self.below_bytes(roots[0].tree)
                + self.roots_bytes(roots.drop_first())
        }
    }

    /// Whether the ids of a list of roots fit in an index, and each of their
    /// names in a name span.
    pub open spec fn names_and_ids_fit(&self, roots: Seq<ScannedRoot>) -> bool {
        &&& self.roots_count(roots) + 1 <= u32::MAX
        &&& forall|k: int| 0 <= k < roots.len() ==> byte_len(root_name((#[trigger] roots[k]).path@)) <= u16::MAX
            && self.names_fit(roots[k].tree)
    }

    /// Whether an empty index has room for a list of roots: for their ids,
    /// their name spans and the arena of their names.
    pub open spec fn room_for_roots(&self, roots: Seq<ScannedRoot>) -> bool {
        self.names_and_ids_fit(roots) && self.roots_bytes(roots) <= usize::MAX
    }
}

/// All ids of the index, sorted by `kind` with rayon's parallel sort.
fn sort_ids(index: &Index, kind: StatusKind) -> (ids: Vec<u32>)
    requires
        index.inv(),
    ensures
        ids@.to_multiset() == all_ids(index.len()).to_multiset(),
        forall|i: int| 0 <= i < ids@.len() ==> #[trigger] ids@[i] < index.len(),
        index.is_weak_order(kind) ==> sorted_by(ids@, *index, kind, false),
{
    let n = index.nodes.len();
    let mut ids: Vec<u32> = Vec::new();
    let mut i: usize = 0;
    while i < n
        invariant
            n == index.len(),
            n < u32::MAX,
            i <= n,
            ids@ == all_ids(i as nat),
        decreases n - i,
    {
        ids.push(i as u32);
        assert(ids@ =~= all_ids((i + 1) as nat));
        i = i + 1;
    }
    let ghost before = ids@;
    par_sort_ids(&mut ids, index, kind, false);
    proof {
        broadcast use vstd::seq_lib::group_to_multiset_ensures;
        assert forall|i: int| 0 <= i < ids@.len() implies #[trigger] ids@[i] < index.len() by {
            assert(ids@.to_multiset().count(ids@[i]) > 0);
            assert(before.contains(ids@[i]));
        }
    }
    ids
}

/// The `j`-th root stays held when more roots are added after it.
proof fn lemma_holds_root_frame(opts: IndexOptions, a: Index, b: Index, j: int, root: ScannedRoot)
    requires
        a.inv(),
        0 <= j < a.num_roots(),
        opts.holds_root(a, j, root),
        b.len() >= a.len(),
        b.num_roots() > a.num_roots(),
        forall|x: int| 0 <= x < a.len() ==> #[trigger] same_at(a, b, x),
        forall|k: int| 0 <= k < a.num_roots() ==> #[trigger] b.root_id(k) == a.root_id(k)
            && b.root_path_at(k) == a.root_path_at(k),
        b.root_id(a.num_roots() as int) == a.len(),
    ensures
        opts.holds_root(b, j, root),
{
    let id = a.root_id(j);
    let end_a = if j + 1 < a.num_roots() { a.root_id(j + 1) } else { a.len() as int };
    assert(a.root_paths@[j].id < a.len());
    if j + 1 < a.num_roots() {
        assert(a.root_paths@[j + 1].id < a.len());
        assert(b.root_id(j + 1) == a.root_id(j + 1));
    }
    assert(b.root_id(j) == id);
    assert(same_at(a, b, id));
    assert forall|x: int| id + 1 <= x < end_a implies #[trigger] same_at(a, b, x) by {}
    opts.lemma_stored_frame(a, b, id, root.tree, id + 1, end_a, id + 1, end_a);
}

/// Indexes the scanned roots one after the other.
#[verifier::loop_isolation(false)]
fn index_all<'a>(options: &'a IndexOptions, roots: Vec<ScannedRoot>) -> (r: Result<Indexer<'a>, Error>)
    ensures
        r is Err ==> r matches Err(Error::IndexFull),
        r matches Ok(ix) ==> {
            &&& ix.spec_options() == *options
            &&& ix.spec_index().inv()
            &&& ix.spec_index().num_roots() == roots@.len()
            &&& forall|k: int| 0 <= k < roots@.len() ==> #[trigger] options.holds_root(ix.spec_index(), k, roots@[k])
            &&& options.names_and_ids_fit(roots@)
            &&& ((forall|j: int| 0 <= j < roots@.len() ==> options.names_apart((#[trigger] roots@[j]).tree))
                ==> tidy(ix.spec_index()))
        },
        options.room_for_roots(roots@) ==> r is Ok,
{
    let mut indexer = Indexer::new(options);
    let mut roots = roots;
    let ghost all_roots = roots@;
    let ghost room = options.room_for_roots(all_roots);
    assert(roots@.subrange(0, roots@.len() as int) =~= roots@);
    let mut k: usize = 0;
    let n_roots = roots.len();
    while k < n_roots
        invariant
            n_roots == all_roots.len(),
            k <= n_roots,
            roots@ == all_roots.subrange(k as int, n_roots as int),
            indexer.spec_options() == *options,
            indexer.spec_index().inv(),
            indexer.spec_index().num_roots() == k,
            forall|j: int| 0 <= j < k ==> #[trigger] options.holds_root(indexer.spec_index(), j, all_roots[j]),
            room == options.room_for_roots(all_roots),
            indexer.spec_index().len() + options.roots_count(roots@) == options.roots_count(all_roots),
            indexer.spec_index().arena_bytes().len() + options.roots_bytes(roots@) <= options.roots_bytes(all_roots),
            forall|j: int| 0 <= j < k ==> byte_len(root_name((#[trigger] all_roots[j]).path@)) <= u16::MAX
                && options.names_fit(all_roots[j].tree),
            (forall|j: int| 0 <= j < k ==> options.names_apart((#[trigger] all_roots[j]).tree))
                ==> tidy(indexer.spec_index()),
        decreases n_roots - k,
    {
        assert(roots@.len() > 0);
        let ghost rest = roots@.drop_first();
        assert(all_roots.subrange(k as int, n_roots as int)[0] == all_roots[k as int]);
        let root = roots.remove(0);
        assert(roots@ =~= rest);
        let ghost a = indexer.spec_index();
        let path = root.path;
        let tree = root.tree;
        assert(room ==> options.room_for_root(a.len() as int, a.arena_bytes().len() as int, path@, tree));
        match indexer.index(path, tree) {
            Ok(ix) => {
                indexer = ix;
            },
            Err(e) => {
                return Err(e);
            },
        }
        proof {
            let b = indexer.spec_index();
            if forall|j: int| 0 <= j < k + 1 ==> options.names_apart((#[trigger] all_roots[j]).tree) {
                assert forall|j: int| 0 <= j < k implies options.names_apart((#[trigger] all_roots[j]).tree) by {
                    assert(0 <= j < k + 1);
                }
                assert(options.names_apart(all_roots[k as int].tree));
            }
            assert forall|j: int| 0 <= j < k + 1 implies #[trigger] options.holds_root(b, j, all_roots[j]) by {
                if j < k {
                    lemma_holds_root_frame(*options, a, b, j, all_roots[j]);
                }
            }
            assert(roots@ =~= all_roots.subrange(k + 1, n_roots as int));
        }
        k = k + 1;
    }
    assert(roots@.len() == 0);
    Ok(indexer)
}

/// For each status kind, in order, all ids sorted by it when its flag is
/// set.
fn presort(index: &Index, flags: &StatusFlags) -> (v: Vec<Option<Vec<u32>>>)
    requires
        index.inv(),
    ensures
        v@.len() == NUM_STATUS_KINDS,
        forall|kind: StatusKind| (#[trigger] v@[kind.kind_index() as int] is Some) == flags.flag(kind),
        forall|j: int| 0 <= j < NUM_STATUS_KINDS ==> crate::database::ids_in_range(#[trigger] v@[j], index.len()),
        forall|j: int| 0 <= j < NUM_STATUS_KINDS ==> crate::database::ids_complete(#[trigger] v@[j], index.len()),
        forall|kind: StatusKind| match #[trigger] v@[kind.kind_index() as int] {
            Some(ids) => ids@.to_multiset() == all_ids(index.len()).to_multiset()
                && (index.is_weak_order(kind) ==> sorted_by(ids@, *index, kind, false)),
            None => true,
        },
{
    let kinds = StatusKind::all();
    let mut sorted_ids: Vec<Option<Vec<u32>>> = Vec::new();
    let mut i: usize = 0;
    while i < NUM_STATUS_KINDS
        invariant
            index.inv(),
            kinds@.len() == NUM_STATUS_KINDS,
            forall|j: int| 0 <= j < NUM_STATUS_KINDS ==> (#[trigger] kinds@[j]).kind_index() == j,
            i <= NUM_STATUS_KINDS,
            sorted_ids@.len() == i,
            forall|j: int| 0 <= j < i ==> (#[trigger] sorted_ids@[j] is Some) == flags.flag(kinds@[j]),
            forall|j: int| 0 <= j < i ==> crate::database::ids_in_range(#[trigger] sorted_ids@[j], index.len()),
            forall|j: int| 0 <= j < i ==> match #[trigger] sorted_ids@[j] {
                Some(ids) => ids@.to_multiset() == all_ids(index.len()).to_multiset()
                    && (index.is_weak_order(kinds@[j]) ==> sorted_by(ids@, *index, kinds@[j], false)),
                None => true,
            },
        decreases NUM_STATUS_KINDS - i,
    {
        let kind = kinds[i];
        if flags.get(kind) {
            sorted_ids.push(Some(sort_ids(index, kind)));
        } else {
            sorted_ids.push(None);
        }
        i = i + 1;
    }
    proof {
        assert forall|kind: StatusKind| #![trigger sorted_ids@[kind.kind_index() as int]]
            kinds@[kind.kind_index() as int] == kind by {
            assert(kinds@[kind.kind_index() as int].kind_index() == kind.kind_index());
        }
        assert forall|j: int| 0 <= j < NUM_STATUS_KINDS implies crate::database::ids_complete(#[trigger] sorted_ids@[j], index.len()) by {
            match sorted_ids@[j] {
                Some(ids) => {},
                None => {},
            }
        }
    }
    sorted_ids
}

impl DatabaseBuilder {
    /// Builds the database of the scanned roots, in order: fails when the
    /// options are not valid (see [`DatabaseBuilder::check`]) or the index
    /// is full; with valid options and room for the roots (see
    /// [`IndexOptions::room_for_roots`]) it succeeds, and when it succeeds
    /// the ids and names had room (only the arena's bound is not exact, as
    /// a name that recurs is stored once). When no directory of the trees
    /// holds two stored children of one name, neither does the database;
    /// with at most one such root, every presorted list is sorted. The
    /// database stores the statuses asked for and, for each status asked to
    /// be presorted, all ids in that order.
    pub fn build(&self, roots: Vec<ScannedRoot>) -> (r: Result<Database, Error>)
        ensures
            !self.options_valid() ==> (r matches Err(e) && (e matches Error::InvalidOption(m)
                && m@ == "Fast sorting cannot be enabled for a non-indexed status."@)),
            self.options_valid() && r is Err ==> r matches Err(Error::IndexFull),
            self.options_valid() && self.spec_index_options().room_for_roots(roots@) ==> r is Ok,
            r is Ok ==> self.spec_index_options().names_and_ids_fit(roots@),
            r matches Ok(db) ==> ((forall|k: int| 0 <= k < roots@.len()
                ==> self.spec_index_options().names_apart((#[trigger] roots@[k]).tree))
                ==> db.idx().distinct_sibling_names()),
            r matches Ok(db) ==> (roots@.len() <= 1 && (forall|k: int| 0 <= k < roots@.len()
                ==> self.spec_index_options().names_apart((#[trigger] roots@[k]).tree))
                ==> db.idx().roots_ordered_by_name()
                    && forall|kind: StatusKind| #[trigger] db.spec_is_fast_sortable(kind)
                        ==> sorted_by(db.spec_sorted_ids(kind), db.idx(), kind, false)),
            r matches Ok(db) ==> {
                &&& self.options_valid()
                &&& db.idx().num_roots() == roots@.len()
                &&& forall|k: int| 0 <= k < roots@.len() ==> #[trigger] self.spec_index_options().holds_root(db.idx(), k, roots@[k])
                &&& columns_follow(db.idx(), self.spec_index_options())
                &&& forall|kind: StatusKind| #[trigger] db.spec_is_fast_sortable(kind) == self.fast_sort_flag(kind)
                &&& forall|kind: StatusKind| #[trigger] db.spec_is_fast_sortable(kind) ==> {
                    let ids = db.spec_sorted_ids(kind);
                    &&& ids.to_multiset() == all_ids(db.idx().len()).to_multiset()
                    &&& (db.idx().is_weak_order(kind) ==> sorted_by(ids, db.idx(), kind, false))
                    &&& (db.idx().distinct_sibling_names() && db.idx().roots_ordered_by_name()
                        ==> sorted_by(ids, db.idx(), kind, false))
                }
            },
    {
        let checked = self.check();
        if checked.is_err() {
            return Err(Error::InvalidOption("Fast sorting cannot be enabled for a non-indexed status.".to_owned()));
        }
        let indexer = match index_all(&self.index_options, roots) {
            Ok(ix) => ix,
            Err(e) => {
                return Err(e);
            },
        };
        let db = indexer.finish();
        proof { use_type_invariant(&db); }
        let Database { index, sorted_ids: _ } = db;
        let sorted_ids = presort(&index, &self.fast_sort_flags);
        let db = Database { index, sorted_ids };
        proof {
            assert forall|kind: StatusKind| #[trigger] db.spec_is_fast_sortable(kind) implies {
                let ids = db.spec_sorted_ids(kind);
                &&& ids.to_multiset() == all_ids(db.idx().len()).to_multiset()
                &&& (db.idx().is_weak_order(kind) ==> sorted_by(ids, db.idx(), kind, false))
            } by {
                assert(db.sorted_ids@[kind.kind_index() as int] == sorted_ids@[kind.kind_index() as int]);
            }
            assert forall|kind: StatusKind| #[trigger] db.spec_is_fast_sortable(kind)
                && db.idx().distinct_sibling_names() && db.idx().roots_ordered_by_name()
                implies sorted_by(db.spec_sorted_ids(kind), db.idx(), kind, false) by {
                crate::database::order::law_sort_orders_are_total_preorders(db.idx(), kind);
            }
            if forall|k: int| 0 <= k < roots@.len()
                ==> self.spec_index_options().names_apart((#[trigger] roots@[k]).tree) {
                crate::database::indexer::lemma_tidy_names_apart(db.idx());
                if roots@.len() <= 1 {
                    crate::database::order::law_single_root_is_ordered(db.idx());
                }
            }
        }
        Ok(db)
    }
}

/// Whether `p` begins `s`.
pub open spec fn is_prefix(p: Seq<char>, s: Seq<char>) -> bool {
    p.len() <= s.len() && s.subrange(0, p.len() as int) == p
}

/// Whether `a` comes no later than `b` in string order.
pub open spec fn str_le(a: Seq<char>, b: Seq<char>) -> bool {
    str_order(a, b) != Ordering::Greater
}

/// Whether the strings are in ascending order.
pub open spec fn strs_sorted(s: Seq<String>) -> bool {
    forall|i: int, j: int| 0 <= i < j < s.len() ==> str_le(#[trigger] s[i]@, #[trigger] s[j]@)
}

/// `slice::sort_unstable` on strings, which `Ord for String` orders by
/// their bytes: a permutation in ascending order.
#[verifier::external_body]
fn sort_strings(v: &mut Vec<String>)
    ensures
        final(v)@.to_multiset() == old(v)@.to_multiset(),
        strs_sorted(final(v)@),
{
    v.sort_unstable()
}

/// Whether the path `p` is the directory `d` or lies below it: `d` begins
/// `p`, and either they are equal, or `d` ends with a separator, or a
/// separator follows `d` in `p`.
pub open spec fn below_or_eq(d: Seq<char>, p: Seq<char>, sep: char) -> bool {
    is_prefix(d, p) && (d.len() == p.len() || (d.len() > 0 && d.last() == sep) || p[d.len() as int] == sep)
}

/// Whether `p` is or lies below one of the directories in `kept`.
pub open spec fn covered_by(kept: Seq<Seq<char>>, p: Seq<char>, sep: char) -> bool {
    exists|j: int| 0 <= j < kept.len() && below_or_eq(#[trigger] kept[j], p, sep)
}

/// Keeps each path, in order, unless it is or lies below a path kept before.
pub open spec fn dedup_below(s: Seq<Seq<char>>, sep: char) -> Seq<Seq<char>>
    decreases s.len(),
{
    if s.len() == 0 {
        s
    } else {
        let r = dedup_below(s.drop_last(), sep);
        if covered_by(r, s.last(), sep) {
            r
        } else {
            r.push(s.last())
        }
    }
}

/// What is kept of a list covers all of it: every path is or lies below a
/// kept path, and every kept path is one of the list.
pub proof fn lemma_dedup_covers(s: Seq<Seq<char>>, sep: char)
    ensures
        forall|i: int| #![trigger s[i]] 0 <= i < s.len() ==> covered_by(dedup_below(s, sep), s[i], sep),
        forall|j: int| 0 <= j < dedup_below(s, sep).len() ==> s.contains(#[trigger] dedup_below(s, sep)[j]),
    decreases s.len(),
{
    if s.len() > 0 {
        let t = s.drop_last();
        lemma_dedup_covers(t, sep);
        let r = dedup_below(t, sep);
        let d = dedup_below(s, sep);
        assert forall|j: int| 0 <= j < r.len() implies d[j] == r[j] by {}
        assert forall|i: int| #![trigger s[i]] 0 <= i < s.len() implies covered_by(d, s[i], sep) by {
            if i < s.len() - 1 {
                assert(t[i] == s[i]);
                let j = choose|j: int| 0 <= j < r.len() && below_or_eq(#[trigger] r[j], t[i], sep);
                assert(d[j] == r[j]);
            } else if covered_by(r, s.last(), sep) {
                let j = choose|j: int| 0 <= j < r.len() && below_or_eq(#[trigger] r[j], s.last(), sep);
                assert(d[j] == r[j]);
            } else {
                assert(d[d.len() - 1] == s.last());
                assert(s.last().subrange(0, s.last().len() as int) =~= s.last());
                assert(below_or_eq(d[d.len() - 1], s[i], sep));
            }
        }
        assert forall|j: int| 0 <= j < d.len() implies s.contains(#[trigger] d[j]) by {
            if j < r.len() {
                assert(t.contains(r[j]));
                let k = choose|k: int| 0 <= k < t.len() && t[k] == r[j];
                assert(s[k] == t[k]);
            } else {
                assert(s[s.len() - 1] == d[j]);
            }
        }
    }
}

/// Every path given is or lies below a kept path.
pub open spec fn all_covered(given: Seq<String>, kept: Seq<String>, sep: char) -> bool {
    forall|i: int| #![trigger given[i]] 0 <= i < given.len() ==> exists|j: int| 0 <= j < kept.len()
        && below_or_eq(#[trigger] kept[j]@, given[i]@, sep)
}

/// Every kept path is one of those given.
pub open spec fn all_given(given: Seq<String>, kept: Seq<String>) -> bool {
    forall|j: int| #![trigger kept[j]] 0 <= j < kept.len() ==> exists|i: int| 0 <= i < given.len()
        && #[trigger] given[i]@ == kept[j]@
}

/// No kept path is, or lies below, another kept path (so none occurs twice).
pub open spec fn none_redundant(kept: Seq<String>, sep: char) -> bool {
    forall|i: int, j: int| 0 <= i < kept.len() && 0 <= j < kept.len() && i != j
        ==> !below_or_eq(#[trigger] kept[i]@, #[trigger] kept[j]@, sep)
}

/// The paths kept of a sorted copy of a list cover the list.
proof fn lemma_kept_dirs_cover(given: Seq<String>, sorted: Seq<String>, out: Seq<String>, sep: char)
    requires
        sorted.to_multiset() == given.to_multiset(),
        views(out) == dedup_below(views(sorted), sep),
    ensures
        all_covered(given, out, sep),
        all_given(given, out),
{
    broadcast use vstd::seq_lib::group_to_multiset_ensures;
    let vs = views(sorted);
    lemma_dedup_covers(vs, sep);
    assert forall|i: int| #![trigger given[i]] 0 <= i < given.len() implies exists|j: int| 0 <= j < out.len()
        && below_or_eq(#[trigger] out[j]@, given[i]@, sep) by {
        assert(given.to_multiset().count(given[i]) > 0);
        assert(sorted.contains(given[i]));
        let k = choose|k: int| 0 <= k < sorted.len() && sorted[k] == given[i];
        assert(vs[k] == given[i]@);
        let j = choose|j: int| 0 <= j < dedup_below(vs, sep).len() && below_or_eq(#[trigger] dedup_below(vs, sep)[j], vs[k], sep);
        assert(views(out)[j] == out[j]@);
    }
    assert forall|j: int| #![trigger out[j]] 0 <= j < out.len() implies exists|i: int| 0 <= i < given.len()
        && #[trigger] given[i]@ == out[j]@ by {
        assert(views(out)[j] == out[j]@);
        assert(vs.contains(dedup_below(vs, sep)[j]));
        let k = choose|k: int| 0 <= k < vs.len() && vs[k] == dedup_below(vs, sep)[j];
        assert(sorted.to_multiset().count(sorted[k]) > 0);
        assert(given.contains(sorted[k]));
        let i = choose|i: int| 0 <= i < given.len() && given[i] == sorted[k];
        assert(given[i]@ == out[j]@);
    }
}

/// A proper prefix comes first in byte order.
proof fn lemma_proper_prefix_less(a: Seq<u8>, b: Seq<u8>)
    requires
        a.len() < b.len(),
        forall|k: int| 0 <= k < a.len() ==> a[k] == b[k],
    ensures
        bytes_order(a, b) == Ordering::Less,
    decreases a.len(),
{
    if a.len() > 0 {
        assert(a[0] == b[0]);
        lemma_proper_prefix_less(a.drop_first(), b.drop_first());
    }
}

/// A path that goes on past a directory's name sorts after that name.
proof fn lemma_longer_sorts_after(d: Seq<char>, rest: Seq<char>)
    requires
        rest.len() > 0,
    ensures
        !str_le(d + rest, d),
{
    lemma_encode_concat(d, rest);
    lemma_byte_len_ge_len(rest);
    lemma_proper_prefix_less(encode_utf8(d), encode_utf8(d + rest));
    lemma_bytes_order_antisymmetric(encode_utf8(d), encode_utf8(d + rest));
}

/// `p` is or lies below `d`.
fn is_below_or_eq(d: &Vec<char>, p: &Vec<char>, sep: char) -> (r: bool)
    ensures
        r == below_or_eq(d@, p@, sep),
{
    if d.len() > p.len() {
        return false;
    }
    let mut k: usize = 0;
    while k < d.len()
        invariant
            d.len() <= p.len(),
            k <= d.len(),
            p@.subrange(0, k as int) == d@.subrange(0, k as int),
        decreases d.len() - k,
    {
        if d[k] != p[k] {
            assert(p@.subrange(0, d.len() as int)[k as int] != d@[k as int]);
            return false;
        }
        assert(p@.subrange(0, k + 1) =~= p@.subrange(0, k as int).push(p@[k as int]));
        assert(d@.subrange(0, k + 1) =~= d@.subrange(0, k as int).push(d@[k as int]));
        k = k + 1;
    }
    assert(d@.subrange(0, d.len() as int) =~= d@);
    d.len() == p.len() || (d.len() > 0 && d[d.len() - 1] == sep) || p[d.len()] == sep
}

/// Removes redundant directories from canonical paths: sorts them and keeps
/// each path unless it is, or lies below (`sep` separating the components),
/// a path kept before it. Every directory given is or lies below a kept
/// one, every kept one was given, the kept ones come in string order, and
/// none is or lies below another.
pub fn dedup_dirs(dirs: Vec<String>, sep: char) -> (r: Vec<String>)
    ensures
        exists|sorted: Seq<String>| #![trigger strs_sorted(sorted)]
            sorted.to_multiset() == dirs@.to_multiset() && strs_sorted(sorted)
            && views(r@) == dedup_below(views(sorted), sep),
        all_covered(dirs@, r@, sep),
        all_given(dirs@, r@),
        strs_sorted(r@),
        none_redundant(r@, sep),
{
    let ghost given = dirs@;
    let mut dirs = dirs;
    sort_strings(&mut dirs);
    let ghost sorted = dirs@;
    let mut out: Vec<String> = Vec::new();
    let mut kept_chars: Vec<Vec<char>> = Vec::new();
    let mut i: usize = 0;
    while i < dirs.len()
        invariant
            dirs@ == sorted,
            strs_sorted(sorted),
            i <= sorted.len(),
            views(out@) == dedup_below(views(sorted).take(i as int), sep),
            kept_chars@.len() == out@.len(),
            forall|j: int| 0 <= j < out@.len() ==> #[trigger] kept_chars@[j]@ == out@[j]@,
            forall|j: int| 0 <= j < out@.len() ==> exists|k: int| 0 <= k < i && #[trigger] out@[j]@ == sorted[k]@,
            strs_sorted(out@),
            none_redundant(out@, sep),
        decreases sorted.len() - i,
    {
        let ghost t = views(sorted).take(i + 1);
        assert(t.drop_last() =~= views(sorted).take(i as int));
        assert(t.last() == dirs@[i as int]@);
        let p = chars_of(dirs[i].as_str());
        let mut covered = false;
        let mut j: usize = 0;
        while j < kept_chars.len()
            invariant
                kept_chars@.len() == out@.len(),
                forall|m: int| 0 <= m < out@.len() ==> #[trigger] kept_chars@[m]@ == out@[m]@,
                j <= kept_chars@.len(),
                covered == exists|m: int| 0 <= m < j && below_or_eq(#[trigger] out@[m]@, p@, sep),
            decreases kept_chars@.len() - j,
        {
            if is_below_or_eq(&kept_chars[j], &p, sep) {
                covered = true;
            }
            j = j + 1;
        }
        proof {
            let vo = views(out@);
            assert(covered == covered_by(vo, t.last(), sep)) by {
                if covered {
                    let m = choose|m: int| 0 <= m < out@.len() && below_or_eq(#[trigger] out@[m]@, p@, sep);
                    assert(vo[m] == out@[m]@);
                }
                if covered_by(vo, t.last(), sep) {
                    let m = choose|m: int| 0 <= m < vo.len() && below_or_eq(#[trigger] vo[m], t.last(), sep);
                    assert(vo[m] == out@[m]@);
                }
            }
        }
        if !covered {
            let ghost before = out@;
            proof {
                assert forall|m: int| 0 <= m < before.len() implies !below_or_eq(#[trigger] p@, before[m]@, sep)
                    && str_le(before[m]@, p@) by {
                    let k = choose|k: int| 0 <= k < i && #[trigger] before[m]@ == sorted[k]@;
                    assert(str_le(sorted[k]@, sorted[i as int]@));
                    if below_or_eq(p@, before[m]@, sep) {
                        if p@.len() == before[m]@.len() {
                            assert(before[m]@ =~= p@);
                            assert(p@.subrange(0, p@.len() as int) =~= p@);
                            assert(below_or_eq(before[m]@, p@, sep));
                        } else {
                            let rest = before[m]@.subrange(p@.len() as int, before[m]@.len() as int);
                            assert(before[m]@ =~= p@ + rest);
                            lemma_longer_sorts_after(p@, rest);
                        }
                    }
                }
            }
            out.push(dirs[i].clone());
            kept_chars.push(p);
            assert(views(out@) =~= views(before).push(dirs@[i as int]@));
            proof {
                assert forall|a: int, b: int| 0 <= a < out@.len() && 0 <= b < out@.len() && a != b
                    implies !below_or_eq(#[trigger] out@[a]@, #[trigger] out@[b]@, sep) by {
                    if b == before.len() {
                        assert(!below_or_eq(before[a]@, p@, sep)) by {
                            if below_or_eq(before[a]@, p@, sep) {
                                assert(views(before)[a] == before[a]@);
                            }
                        }
                    }
                }
                assert forall|a: int, b: int| 0 <= a < b < out@.len()
                    implies str_le(#[trigger] out@[a]@, #[trigger] out@[b]@) by {
                    if b < before.len() {
                        assert(out@[a] == before[a] && out@[b] == before[b]);
                    }
                }
                assert forall|m: int| 0 <= m < out@.len() implies exists|k: int| 0 <= k < i + 1
                    && #[trigger] out@[m]@ == sorted[k]@ by {
                    if m < before.len() {
                        let k = choose|k: int| 0 <= k < i && #[trigger] before[m]@ == sorted[k]@;
                        assert(out@[m] == before[m]);
                    } else {
                        assert(out@[m]@ == sorted[i as int]@);
                    }
                }
            }
        }
        i = i + 1;
    }
    assert(views(sorted).take(sorted.len() as int) =~= views(sorted));
    proof { lemma_kept_dirs_cover(given, sorted, out@, sep); }
    out
}

} // verus!
