//! Ordering of entries by path.

use vstd::prelude::*;
use std::cmp::Ordering;
use rayon::slice::ParallelSliceMut;
use crate::database::{Index, StatusKind, FileTime};
use crate::text::{str_cmp, str_order, reversed};

verus! {

/// The order of two paths under `Ord for camino::Utf8Path`, which compares
/// the paths component by component. How a path splits into components
/// follows the path syntax of the target the crate is built for, so the
/// order is fixed for one build.
pub uninterp spec fn path_order(a: Seq<char>, b: Seq<char>) -> Ordering;

/// `Ord::cmp` on `camino::Utf8Path`; its result is named [`path_order`].
#[verifier::external_body]
pub(crate) fn path_cmp(a: &str, b: &str) -> (r: Ordering)
    ensures
        r == path_order(a@, b@),
{
    camino::Utf8Path::new(a).cmp(camino::Utf8Path::new(b))
}

/// Where two id chains first part: both end together, one ends first, or
/// they hold different ids at the same depth.
pub enum ChainDiff {
    Same,
    FirstEnds,
    SecondEnds,
    Differ(u32, u32),
}

/// The first difference of two id chains.
pub open spec fn chain_diff(a: Seq<u32>, b: Seq<u32>) -> ChainDiff
    decreases a.len(),
{
    if a.len() == 0 && b.len() == 0 {
        ChainDiff::Same
    } else if a.len() == 0 {
        ChainDiff::FirstEnds
    } else if b.len() == 0 {
        ChainDiff::SecondEnds
    } else if a[0] == b[0] {
        chain_diff(a.drop_first(), b.drop_first())
    } else {
        ChainDiff::Differ(a[0], b[0])
    }
}

impl Index {
    /// Lexicographic order of two id chains, comparing differing ids by the
    /// names of their entries; a proper prefix comes first.
    pub open(crate) spec fn chain_order(&self, a: Seq<u32>, b: Seq<u32>) -> Ordering {
        match chain_diff(a, b) {
            ChainDiff::Same => Ordering::Equal,
            ChainDiff::FirstEnds => Ordering::Less,
            ChainDiff::SecondEnds => Ordering::Greater,
            ChainDiff::Differ(x, y) => str_order(self.node_name_u(x), self.node_name_u(y)),
        }
    }

    /// The order of entries `a` and `b` by path: two distinct roots compare
    /// by their full paths, other entries by their chains of names from the
    /// root down.
    pub open(crate) spec fn entry_path_order(&self, a: u32, b: u32) -> Ordering {
        if a == b {
            Ordering::Equal
        } else if self.is_root_u(a) && self.is_root_u(b) {
            path_order(self.root_path_u(a), self.root_path_u(b))
        } else {
            self.chain_order(self.chain_u(a), self.chain_u(b))
        }
    }

    /// Comparing chains with a common prefix skips it.
    pub(crate) proof fn lemma_chain_diff_prefix(c: Seq<u32>, x: Seq<u32>, y: Seq<u32>)
        ensures
            chain_diff(c + x, c + y) == chain_diff(x, y),
        decreases c.len(),
    {
        if c.len() > 0 {
            assert((c + x).drop_first() =~= c.drop_first() + x);
            assert((c + y).drop_first() =~= c.drop_first() + y);
            Self::lemma_chain_diff_prefix(c.drop_first(), x, y);
        } else {
            assert(c + x =~= x);
            assert(c + y =~= y);
        }
    }

    /// The parent of entry `id`.
    fn parent_of(&self, id: u32) -> (p: u32)
        requires
            self.inv(),
            id < self.len(),
        ensures
            p == self.nodes@[id as int].parent,
            p == id <==> self.is_root_u(id),
            p != id ==> p < id && self.chain_u(id) == self.chain_u(p) + seq![id],
            p == id ==> self.chain_u(id) == seq![id],
    {
        proof {
            if self.is_root_u(id) {
                self.lemma_chain_root(id);
            } else {
                self.lemma_chain_step(id);
            }
        }
        self.nodes[id as usize].parent
    }

    /// The path of root entry `id`, borrowed.
    pub(crate) fn root_path_str(&self, id: u32) -> (s: &str)
        ensures
            s@ == self.root_path_u(id),
    {
        let mut k = self.root_paths.len();
        assert(self.root_paths@.take(k as int) =~= self.root_paths@);
        while k > 0
            invariant
                k <= self.root_paths@.len(),
                self.root_path_u(id) == crate::database::root_path_of(self.root_paths@.take(k as int), id as int),
            decreases k,
        {
            let ghost t = self.root_paths@.take(k as int);
            assert(t.drop_last() =~= self.root_paths@.take(k - 1));
            if self.root_paths[k - 1].id == id {
                return self.root_paths[k - 1].path.as_str();
            }
            k = k - 1;
        }
        proof { reveal_strlit(""); }
        ""
    }

    /// The ids from entry `id` up to its root (the chain, reversed).
    fn chain_upwards(&self, id: u32) -> (up: Vec<u32>)
        requires
            self.inv(),
            id < self.len(),
        ensures
            up@.reverse() == self.chain_u(id),
            forall|j: int| 0 <= j < up@.len() ==> #[trigger] up@[j] < self.len(),
    {
        let mut up: Vec<u32> = Vec::new();
        let mut cur = id;
        loop
            invariant
                self.inv(),
                cur < self.len(),
                self.chain_u(id) == self.chain_u(cur) + up@.reverse(),
                forall|j: int| 0 <= j < up@.len() ==> #[trigger] up@[j] < self.len(),
            decreases cur,
        {
            let p = self.parent_of(cur);
            let ghost old_up = up@;
            up.push(cur);
            assert(up@.reverse() =~= seq![cur] + old_up.reverse());
            if p == cur {
                assert(self.chain_u(id) =~= up@.reverse());
                return up;
            }
            assert(self.chain_u(id) =~= self.chain_u(p) + up@.reverse());
            cur = p;
        }
    }

    /// Finds where the chains `up_a` and `up_b` (each given from the entry
    /// up to the root) first part.
    fn first_difference(up_a: &Vec<u32>, up_b: &Vec<u32>) -> (d: ChainDiff)
        ensures
            d == chain_diff(up_a@.reverse(), up_b@.reverse()),
    {
        let ghost ca = up_a@.reverse();
        let ghost cb = up_b@.reverse();
        let mut i: usize = 0;
        assert(ca.skip(0) =~= ca);
        assert(cb.skip(0) =~= cb);
        loop
            invariant
                ca == up_a@.reverse(),
                cb == up_b@.reverse(),
                i <= ca.len(),
                i <= cb.len(),
                chain_diff(ca, cb) == chain_diff(ca.skip(i as int), cb.skip(i as int)),
            decreases ca.len() - i,
        {
            let has_a = i < up_a.len();
            let has_b = i < up_b.len();
            if !has_a && !has_b {
                assert(ca.skip(i as int) =~= Seq::<u32>::empty());
                assert(cb.skip(i as int) =~= Seq::<u32>::empty());
                return ChainDiff::Same;
            }
            if !has_a {
                assert(ca.skip(i as int) =~= Seq::<u32>::empty());
                return ChainDiff::FirstEnds;
            }
            if !has_b {
                assert(cb.skip(i as int) =~= Seq::<u32>::empty());
                return ChainDiff::SecondEnds;
            }
            let a = up_a[up_a.len() - 1 - i];
            let b = up_b[up_b.len() - 1 - i];
            assert(ca.skip(i as int)[0] == a);
            assert(cb.skip(i as int)[0] == b);
            if a != b {
                return ChainDiff::Differ(a, b);
            }
            assert(ca.skip(i as int).drop_first() =~= ca.skip(i + 1));
            assert(cb.skip(i as int).drop_first() =~= cb.skip(i + 1));
            i = i + 1;
        }
    }

    /// Compares entries `id_a` and `id_b` by path (see [`Index::entry_path_order`]).
    pub(crate) fn cmp_by_path(&self, id_a: u32, id_b: u32) -> (o: Ordering)
        requires
            self.inv(),
            id_a < self.len(),
            id_b < self.len(),
        ensures
            o == self.entry_path_order(id_a, id_b),
    {
        // -- Fast path --
        if id_a == id_b {
            return Ordering::Equal;
        }
        let parent_a = self.parent_of(id_a);
        let parent_b = self.parent_of(id_b);
        let a_is_root = parent_a == id_a;
        let b_is_root = parent_b == id_b;

        if a_is_root && b_is_root {
            // e.g. C:\ vs. D:\
            return path_cmp(self.root_path_str(id_a), self.root_path_str(id_b));
        }
        if !a_is_root && !b_is_root && parent_a == parent_b {
            // e.g. /foo/bar vs. /foo/baz
            proof {
                Self::lemma_chain_diff_prefix(self.chain_u(parent_a), seq![id_a], seq![id_b]);
                assert(chain_diff(seq![id_a], seq![id_b]) == ChainDiff::Differ(id_a, id_b));
            }
            return str_cmp(self.basename_from_node(id_a), self.basename_from_node(id_b));
        }
        if !b_is_root && id_a == parent_b {
            // e.g. /foo vs. /foo/bar
            proof {
                let c = self.chain_u(id_a);
                assert(c + Seq::<u32>::empty() =~= c);
                Self::lemma_chain_diff_prefix(c, Seq::<u32>::empty(), seq![id_b]);
            }
            return Ordering::Less;
        }
        if !a_is_root && id_b == parent_a {
            // e.g. /foo/bar vs. /foo
            proof {
                let c = self.chain_u(id_b);
                assert(c + Seq::<u32>::empty() =~= c);
                Self::lemma_chain_diff_prefix(c, seq![id_a], Seq::<u32>::empty());
            }
            return Ordering::Greater;
        }

        // -- Slow path --
        let up_a = self.chain_upwards(id_a);
        let up_b = self.chain_upwards(id_b);
        match Self::first_difference(&up_a, &up_b) {
            ChainDiff::Same => Ordering::Equal,
            ChainDiff::FirstEnds => Ordering::Less,
            ChainDiff::SecondEnds => Ordering::Greater,
            ChainDiff::Differ(a, b) => {
                proof { self.lemma_differ_in_range(&up_a, &up_b); }
                // /foo/bar vs. /foo/baz
                str_cmp(self.basename_from_node(a), self.basename_from_node(b))
            },
        }
    }

    /// The ids at which two in-range chains differ are in range.
    proof fn lemma_differ_in_range(&self, up_a: &Vec<u32>, up_b: &Vec<u32>)
        requires
            forall|j: int| 0 <= j < up_a@.len() ==> #[trigger] up_a@[j] < self.len(),
            forall|j: int| 0 <= j < up_b@.len() ==> #[trigger] up_b@[j] < self.len(),
        ensures
            chain_diff(up_a@.reverse(), up_b@.reverse()) matches ChainDiff::Differ(x, y)
                ==> x < self.len() && y < self.len(),
    {
        let ca = up_a@.reverse();
        let cb = up_b@.reverse();
        assert forall|j: int| 0 <= j < ca.len() implies #[trigger] ca[j] < self.len() by {
            assert(ca[j] == up_a@[up_a@.len() - 1 - j]);
        }
        assert forall|j: int| 0 <= j < cb.len() implies #[trigger] cb[j] < self.len() by {
            assert(cb[j] == up_b@[up_b@.len() - 1 - j]);
        }
        lemma_chain_diff_members(ca, cb, self.len());
    }
}

/// The ids at which two chains differ are members of them.
proof fn lemma_chain_diff_members(a: Seq<u32>, b: Seq<u32>, n: nat)
    requires
        forall|j: int| 0 <= j < a.len() ==> #[trigger] a[j] < n,
        forall|j: int| 0 <= j < b.len() ==> #[trigger] b[j] < n,
    ensures
        chain_diff(a, b) matches ChainDiff::Differ(x, y) ==> x < n && y < n,
    decreases a.len(),
{
    if a.len() > 0 && b.len() > 0 && a[0] == b[0] {
        assert forall|j: int| 0 <= j < a.drop_first().len() implies #[trigger] a.drop_first()[j] < n by {
            assert(a.drop_first()[j] == a[j + 1]);
        }
        assert forall|j: int| 0 <= j < b.drop_first().len() implies #[trigger] b.drop_first()[j] < n by {
            assert(b.drop_first()[j] == b[j + 1]);
        }
        lemma_chain_diff_members(a.drop_first(), b.drop_first(), n);
    } else if a.len() > 0 && b.len() > 0 {
        assert(a[0] < n);
        assert(b[0] < n);
    }
}


/// `o1`, or `o2` when `o1` is `Equal` (as `Ordering::then`).
pub open spec fn then_order(o1: Ordering, o2: Ordering) -> Ordering {
    match o1 {
        Ordering::Equal => o2,
        _ => o1,
    }
}

/// The order of two numbers.
pub open spec fn u64_order(x: u64, y: u64) -> Ordering {
    if x < y {
        Ordering::Less
    } else if x > y {
        Ordering::Greater
    } else {
        Ordering::Equal
    }
}

/// `Ord` for `Option`: `None` comes first.
pub open spec fn opt_u64_order(a: Option<u64>, b: Option<u64>) -> Ordering {
    match (a, b) {
        (None, None) => Ordering::Equal,
        (None, Some(_)) => Ordering::Less,
        (Some(_), None) => Ordering::Greater,
        (Some(x), Some(y)) => u64_order(x, y),
    }
}

/// `Ord` for `Option<u32>`: `None` comes first.
pub open spec fn opt_u32_order(a: Option<u32>, b: Option<u32>) -> Ordering {
    match (a, b) {
        (None, None) => Ordering::Equal,
        (None, Some(_)) => Ordering::Less,
        (Some(_), None) => Ordering::Greater,
        (Some(x), Some(y)) => if x < y {
            Ordering::Less
        } else if x > y {
            Ordering::Greater
        } else {
            Ordering::Equal
        },
    }
}

/// Times compare by seconds, then nanoseconds.
pub open spec fn time_order(a: FileTime, b: FileTime) -> Ordering {
    then_order(u64_order(a.secs, b.secs), if a.nanos < b.nanos {
        Ordering::Less
    } else if a.nanos > b.nanos {
        Ordering::Greater
    } else {
        Ordering::Equal
    })
}

/// `Ord` for `Option<FileTime>`: `None` comes first.
pub open spec fn opt_time_order(a: Option<FileTime>, b: Option<FileTime>) -> Ordering {
    match (a, b) {
        (None, None) => Ordering::Equal,
        (None, Some(_)) => Ordering::Less,
        (Some(_), None) => Ordering::Greater,
        (Some(x), Some(y)) => time_order(x, y),
    }
}

/// `Ord` for `Option<&str>`: `None` comes first.
pub open spec fn opt_str_order(a: Option<Seq<char>>, b: Option<Seq<char>>) -> Ordering {
    match (a, b) {
        (None, None) => Ordering::Equal,
        (None, Some(_)) => Ordering::Less,
        (Some(_), None) => Ordering::Greater,
        (Some(x), Some(y)) => str_order(x, y),
    }
}

/// The text of an optional string.
pub open spec fn opt_view(a: Option<&str>) -> Option<Seq<char>> {
    match a {
        Some(s) => Some(s@),
        None => None,
    }
}

impl Index {
    /// Entries by name, then by path.
    pub open(crate) spec fn basename_order(&self, a: u32, b: u32) -> Ordering {
        then_order(str_order(self.node_name_u(a), self.node_name_u(b)), self.entry_path_order(a, b))
    }

    /// Entries by extension: two directories tie; otherwise an entry without
    /// an extension comes first, and extensions compare as strings.
    pub open(crate) spec fn extension_order(&self, a: u32, b: u32) -> Ordering {
        if self.is_dir_u(a) && self.is_dir_u(b) {
            Ordering::Equal
        } else {
            opt_str_order(self.extension_u(a), self.extension_u(b))
        }
    }

    /// The order used to sort entries by `kind`: by that status, with ties
    /// broken by name and path. Statuses that are not indexed count as
    /// absent.
    pub open(crate) spec fn entry_order(&self, kind: StatusKind, a: u32, b: u32) -> Ordering {
        match kind {
            StatusKind::Basename => self.basename_order(a, b),
            StatusKind::Path => self.entry_path_order(a, b),
            StatusKind::Extension => then_order(self.extension_order(a, b), self.basename_order(a, b)),
            StatusKind::Size => then_order(opt_u64_order(self.size_u(a), self.size_u(b)), self.basename_order(a, b)),
            StatusKind::Mode => then_order(opt_u32_order(self.mode_u(a), self.mode_u(b)), self.basename_order(a, b)),
            StatusKind::Created => then_order(opt_time_order(self.created_u(a), self.created_u(b)), self.basename_order(a, b)),
            StatusKind::Modified => then_order(opt_time_order(self.modified_u(a), self.modified_u(b)), self.basename_order(a, b)),
            StatusKind::Accessed => then_order(opt_time_order(self.accessed_u(a), self.accessed_u(b)), self.basename_order(a, b)),
        }
    }

    /// The order by `kind`, reversed when `descending`.
    pub open(crate) spec fn directed_order(&self, kind: StatusKind, descending: bool, a: u32, b: u32) -> Ordering {
        if descending { self.entry_order(kind, b, a) } else { self.entry_order(kind, a, b) }
    }

    /// Whether the order by `kind` is a total preorder on the entries:
    /// swapping arguments mirrors it, and it is transitive.
    pub open(crate) spec fn is_weak_order(&self, kind: StatusKind) -> bool {
        &&& forall|a: u32, b: u32| a < self.len() && b < self.len() ==>
            #[trigger] self.entry_order(kind, b, a) == reversed(self.entry_order(kind, a, b))
        &&& forall|a: u32, b: u32, c: u32| a < self.len() && b < self.len() && c < self.len()
            && #[trigger] self.entry_order(kind, a, b) != Ordering::Greater
            && #[trigger] self.entry_order(kind, b, c) != Ordering::Greater
            ==> self.entry_order(kind, a, c) != Ordering::Greater
    }
}

/// Whether the ids are in order by `kind` (reversed when `descending`).
pub open spec fn sorted_by(s: Seq<u32>, index: Index, kind: StatusKind, descending: bool) -> bool {
    forall|i: int, j: int| 0 <= i < j < s.len() ==>
        #[trigger] index.directed_order(kind, descending, s[i], s[j]) != Ordering::Greater
}

/// Compares two numbers.
fn cmp_u64(x: u64, y: u64) -> (o: Ordering)
    ensures
        o == u64_order(x, y),
{
    if x < y {
        Ordering::Less
    } else if x > y {
        Ordering::Greater
    } else {
        Ordering::Equal
    }
}

/// Compares two optional numbers, `None` first.
fn cmp_opt_u64(a: Option<u64>, b: Option<u64>) -> (o: Ordering)
    ensures
        o == opt_u64_order(a, b),
{
    match (a, b) {
        (None, None) => Ordering::Equal,
        (None, Some(_)) => Ordering::Less,
        (Some(_), None) => Ordering::Greater,
        (Some(x), Some(y)) => cmp_u64(x, y),
    }
}

/// Compares two optional mode bits, `None` first.
fn cmp_opt_u32(a: Option<u32>, b: Option<u32>) -> (o: Ordering)
    ensures
        o == opt_u32_order(a, b),
{
    match (a, b) {
        (None, None) => Ordering::Equal,
        (None, Some(_)) => Ordering::Less,
        (Some(_), None) => Ordering::Greater,
        (Some(x), Some(y)) => if x < y {
            Ordering::Less
        } else if x > y {
            Ordering::Greater
        } else {
            Ordering::Equal
        },
    }
}

/// Compares two optional times, `None` first.
fn cmp_opt_time(a: Option<FileTime>, b: Option<FileTime>) -> (o: Ordering)
    ensures
        o == opt_time_order(a, b),
{
    match (a, b) {
        (None, None) => Ordering::Equal,
        (None, Some(_)) => Ordering::Less,
        (Some(_), None) => Ordering::Greater,
        (Some(x), Some(y)) => match cmp_u64(x.secs, y.secs) {
            Ordering::Equal => if x.nanos < y.nanos {
                Ordering::Less
            } else if x.nanos > y.nanos {
                Ordering::Greater
            } else {
                Ordering::Equal
            },
            o => o,
        },
    }
}

/// Compares two optional strings, `None` first.
fn cmp_opt_str(a: Option<&str>, b: Option<&str>) -> (o: Ordering)
    ensures
        o == opt_str_order(opt_view(a), opt_view(b)),
{
    match (a, b) {
        (None, None) => Ordering::Equal,
        (None, Some(_)) => Ordering::Less,
        (Some(_), None) => Ordering::Greater,
        (Some(x), Some(y)) => str_cmp(x, y),
    }
}

impl Index {
    /// Compares entries by name, then by path.
    pub(crate) fn cmp_by_basename(&self, a: u32, b: u32) -> (o: Ordering)
        requires
            self.inv(),
            a < self.len(),
            b < self.len(),
        ensures
            o == self.basename_order(a, b),
    {
        match str_cmp(self.basename_from_node(a), self.basename_from_node(b)) {
            Ordering::Equal => self.cmp_by_path(a, b),
            o => o,
        }
    }

    /// Compares entries by extension (see [`Index::extension_order`]).
    pub(crate) fn cmp_by_extension(&self, a: u32, b: u32) -> (o: Ordering)
        requires
            self.inv(),
            a < self.len(),
            b < self.len(),
        ensures
            o == self.extension_order(a, b),
    {
        if self.node_is_dir(a) && self.node_is_dir(b) {
            return Ordering::Equal;
        }
        cmp_opt_str(self.node_extension(a), self.node_extension(b))
    }

    /// Compares entries as sorting by `kind` does (see [`Index::entry_order`]).
    pub(crate) fn compare_by(&self, kind: StatusKind, a: u32, b: u32) -> (o: Ordering)
        requires
            self.inv(),
            a < self.len(),
            b < self.len(),
        ensures
            o == self.entry_order(kind, a, b),
    {
        let first = match kind {
            StatusKind::Basename => return self.cmp_by_basename(a, b),
            StatusKind::Path => return self.cmp_by_path(a, b),
            StatusKind::Extension => self.cmp_by_extension(a, b),
            StatusKind::Size => cmp_opt_u64(self.node_size(a), self.node_size(b)),
            StatusKind::Mode => cmp_opt_u32(self.node_mode(a), self.node_mode(b)),
            StatusKind::Created => cmp_opt_time(self.node_created(a), self.node_created(b)),
            StatusKind::Modified => cmp_opt_time(self.node_modified(a), self.node_modified(b)),
            StatusKind::Accessed => cmp_opt_time(self.node_accessed(a), self.node_accessed(b)),
        };
        match first {
            Ordering::Equal => self.cmp_by_basename(a, b),
            o => o,
        }
    }

    /// Compares entries by `kind`, the other way round when `descending`.
    pub(crate) fn compare_directed(&self, kind: StatusKind, descending: bool, a: u32, b: u32) -> (o: Ordering)
        requires
            self.inv(),
            a < self.len(),
            b < self.len(),
        ensures
            o == self.directed_order(kind, descending, a, b),
    {
        if descending {
            self.compare_by(kind, b, a)
        } else {
            self.compare_by(kind, a, b)
        }
    }

    /// Orders directories before files (or after them, when not
    /// `dirs_first`), as `Ord for bool` on whether each is a directory.
    pub(crate) fn compare_dir_first(&self, dirs_first: bool, a: u32, b: u32) -> (o: Ordering)
        requires
            self.inv(),
            a < self.len(),
            b < self.len(),
        ensures
            o == (if self.is_dir_u(a) == self.is_dir_u(b) {
                Ordering::Equal
            } else if self.is_dir_u(a) == dirs_first {
                Ordering::Less
            } else {
                Ordering::Greater
            }),
    {
        let da = self.node_is_dir(a);
        let db = self.node_is_dir(b);
        if da == db {
            Ordering::Equal
        } else if da == dirs_first {
            Ordering::Less
        } else {
            Ordering::Greater
        }
    }
}

/// The ids whose entries are (`dirs`) or are not directories, in order.
pub open spec fn ids_of_kind(s: Seq<u32>, index: Index, dirs: bool) -> Seq<u32> {
    s.filter(|x: u32| index.is_dir_u(x) == dirs)
}

/// rayon's `par_sort_unstable_by` on the ids, comparing them with
/// [`Index::compare_directed`]. The result is a permutation of the ids; it is
/// sorted when the comparison is a total preorder, as the sort requires.
#[verifier::external_body]
pub(crate) fn par_sort_ids(ids: &mut Vec<u32>, index: &Index, kind: StatusKind, descending: bool)
    requires
        index.inv(),
        forall|i: int| 0 <= i < old(ids)@.len() ==> #[trigger] old(ids)@[i] < index.len(),
    ensures
        final(ids)@.to_multiset() == old(ids)@.to_multiset(),
        index.is_weak_order(kind) ==> sorted_by(final(ids)@, *index, kind, descending),
{
    ids.par_sort_unstable_by(|a, b| index.compare_directed(kind, descending, *a, *b))
}

/// rayon's `par_sort_by`, a stable sort, on the ids, comparing them with
/// [`Index::compare_dir_first`]: the directories come first (or last, when
/// not `dirs_first`), each group in its former order.
#[verifier::external_body]
pub(crate) fn par_sort_dirs_first(ids: &mut Vec<u32>, index: &Index, dirs_first: bool)
    requires
        index.inv(),
        forall|i: int| 0 <= i < old(ids)@.len() ==> #[trigger] old(ids)@[i] < index.len(),
    ensures
        final(ids)@ == ids_of_kind(old(ids)@, *index, dirs_first) + ids_of_kind(old(ids)@, *index, !dirs_first),
{
    ids.par_sort_by(|a, b| index.compare_dir_first(dirs_first, *a, *b))
}

/// Sorting by a time status is chronological: an entry without the time
/// comes first, and of two times the one with fewer whole seconds since the
/// epoch comes first, the nanoseconds deciding only between equal seconds.
/// Entries with the same time are ordered by name and path.
pub proof fn law_time_sort_is_chronological(idx: Index, kind: StatusKind, a: u32, b: u32,
    x: Option<FileTime>, y: Option<FileTime>)
    requires
        (kind == StatusKind::Created && x == idx.created_u(a) && y == idx.created_u(b))
            || (kind == StatusKind::Modified && x == idx.modified_u(a) && y == idx.modified_u(b))
            || (kind == StatusKind::Accessed && x == idx.accessed_u(a) && y == idx.accessed_u(b)),
    ensures
        x is None && y is Some ==> idx.entry_order(kind, a, b) == Ordering::Less,
        x is Some && y is Some && (x->0.secs < y->0.secs || (x->0.secs == y->0.secs && x->0.nanos < y->0.nanos))
            ==> idx.entry_order(kind, a, b) == Ordering::Less && idx.entry_order(kind, b, a) == Ordering::Greater,
        x == y ==> idx.entry_order(kind, a, b) == idx.basename_order(a, b),
{
}

/// Sorting by size or by mode is numeric: an entry without the status
/// comes first, a smaller number before a larger one, and entries with the
/// same number are ordered by name and path.
pub proof fn law_number_sorts_are_numeric(idx: Index, a: u32, b: u32)
    ensures
        idx.size_u(a) is None && idx.size_u(b) is Some ==> idx.entry_order(StatusKind::Size, a, b) == Ordering::Less,
        idx.size_u(a) is Some && idx.size_u(b) is Some && idx.size_u(a)->0 < idx.size_u(b)->0
            ==> idx.entry_order(StatusKind::Size, a, b) == Ordering::Less,
        idx.size_u(a) == idx.size_u(b) ==> idx.entry_order(StatusKind::Size, a, b) == idx.basename_order(a, b),
        idx.mode_u(a) is None && idx.mode_u(b) is Some ==> idx.entry_order(StatusKind::Mode, a, b) == Ordering::Less,
        idx.mode_u(a) is Some && idx.mode_u(b) is Some && idx.mode_u(a)->0 < idx.mode_u(b)->0
            ==> idx.entry_order(StatusKind::Mode, a, b) == Ordering::Less,
        idx.mode_u(a) == idx.mode_u(b) ==> idx.entry_order(StatusKind::Mode, a, b) == idx.basename_order(a, b),
{
}

/// Sorting by name compares the names as strings, the path deciding only
/// between equal names; sorting by extension puts directories together and
/// otherwise an entry without an extension first, extensions compared as
/// strings, the name deciding between equal ones; a descending sort is the
/// ascending one with the entries swapped.
pub proof fn law_name_and_extension_sorts(idx: Index, kind: StatusKind, a: u32, b: u32)
    ensures
        str_order(idx.node_name_u(a), idx.node_name_u(b)) != Ordering::Equal
            ==> idx.entry_order(StatusKind::Basename, a, b) == str_order(idx.node_name_u(a), idx.node_name_u(b)),
        idx.node_name_u(a) == idx.node_name_u(b)
            ==> idx.entry_order(StatusKind::Basename, a, b) == idx.entry_path_order(a, b),
        idx.is_dir_u(a) && idx.is_dir_u(b)
            ==> idx.entry_order(StatusKind::Extension, a, b) == idx.entry_order(StatusKind::Basename, a, b),
        !(idx.is_dir_u(a) && idx.is_dir_u(b)) && idx.extension_u(a) is None && idx.extension_u(b) is Some
            ==> idx.entry_order(StatusKind::Extension, a, b) == Ordering::Less,
        !(idx.is_dir_u(a) && idx.is_dir_u(b)) && idx.extension_u(a) is Some && idx.extension_u(b) is Some
            && str_order(idx.extension_u(a)->0, idx.extension_u(b)->0) != Ordering::Equal
            ==> idx.entry_order(StatusKind::Extension, a, b) == str_order(idx.extension_u(a)->0, idx.extension_u(b)->0),
        idx.directed_order(kind, true, a, b) == idx.entry_order(kind, b, a),
        idx.directed_order(kind, false, a, b) == idx.entry_order(kind, a, b),
{
    let x = vstd::utf8::encode_utf8(idx.node_name_u(a));
    crate::text::lemma_bytes_order_equal(x, x);
}

} // verus!
