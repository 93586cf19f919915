//! When the orders that searches sort by are total preorders: every order
//! by a status breaks its ties by name and then by path, and the order by
//! path compares the names along the two paths. It is a total preorder as
//! long as no two entries of a directory share a name and distinct roots
//! compare by path as their names compare.

use vstd::prelude::*;
use vstd::utf8::*;
use std::cmp::Ordering;
use crate::database::Index;
use crate::database::StatusKind;
use crate::database::compare::{
    chain_diff, then_order, opt_u64_order, opt_u32_order, opt_time_order, opt_str_order, path_order,
};
use crate::text::{
    bytes_order, reversed, str_order, lemma_bytes_order_antisymmetric, lemma_bytes_order_equal,
    lemma_bytes_order_transitive, lemma_encode_injective,
};

verus! {

/// Whether `o` orders the ids below `n` as a total preorder: swapping the
/// arguments mirrors it, and "not greater" is transitive.
pub open spec fn total_preorder(o: spec_fn(u32, u32) -> Ordering, n: nat) -> bool {
    &&& forall|a: u32, b: u32| a < n && b < n ==> #[trigger] o(b, a) == reversed(o(a, b))
    &&& forall|a: u32, b: u32, c: u32| #![trigger o(a, b), o(b, c)]
        a < n && b < n && c < n && o(a, b) != Ordering::Greater && o(b, c) != Ordering::Greater
            ==> o(a, c) != Ordering::Greater
}

/// Whether the list is sorted by `o`.
pub open spec fn sorted_wrt(s: Seq<u32>, o: spec_fn(u32, u32) -> Ordering) -> bool {
    forall|i: int, j: int| 0 <= i < j < s.len() ==> #[trigger] o(s[i], s[j]) != Ordering::Greater
}

/// Whether in `o` an id below `n` ties only with itself.
pub open spec fn ties_only_with_itself(o: spec_fn(u32, u32) -> Ordering, n: nat) -> bool {
    forall|a: u32, b: u32| a < n && b < n && #[trigger] o(a, b) == Ordering::Equal ==> a == b
}

proof fn lemma_sorted_wrt_tail(s: Seq<u32>, o: spec_fn(u32, u32) -> Ordering)
    requires
        sorted_wrt(s, o),
        s.len() > 0,
    ensures
        sorted_wrt(s.drop_first(), o),
{
    assert forall|i: int, j: int| 0 <= i < j < s.drop_first().len() implies
        #[trigger] o(s.drop_first()[i], s.drop_first()[j]) != Ordering::Greater by {
        assert(o(s[i + 1], s[j + 1]) != Ordering::Greater);
    }
}

/// Two lists of the same ids, sorted by a total preorder in which ids tie
/// only with themselves, are the same list.
pub proof fn lemma_sorted_unique(s: Seq<u32>, t: Seq<u32>, o: spec_fn(u32, u32) -> Ordering, n: nat)
    requires
        total_preorder(o, n),
        ties_only_with_itself(o, n),
        forall|i: int| 0 <= i < s.len() ==> #[trigger] s[i] < n,
        s.to_multiset() == t.to_multiset(),
        sorted_wrt(s, o),
        sorted_wrt(t, o),
    ensures
        s == t,
    decreases s.len(),
{
    broadcast use vstd::seq_lib::group_to_multiset_ensures;
    vstd::seq_lib::to_multiset_len(s);
    vstd::seq_lib::to_multiset_len(t);
    if s.len() == 0 {
        assert(t.len() == 0);
        assert(s =~= t);
    } else {
        assert(t.len() == s.len());
        let a = s[0];
        let b = t[0];
        assert(t.to_multiset().count(b) > 0);
        assert(s.contains(b));
        let j = choose|j: int| 0 <= j < s.len() && s[j] == b;
        if j > 0 {
            assert(o(s[0], s[j]) != Ordering::Greater);
        }
        assert(s.to_multiset().count(a) > 0);
        assert(t.contains(a));
        let k = choose|k: int| 0 <= k < t.len() && t[k] == a;
        if k > 0 {
            assert(o(t[0], t[k]) != Ordering::Greater);
        }
        assert(b < n);
        assert(o(b, a) == reversed(o(a, b)));
        assert(o(a, b) == Ordering::Equal);
        assert(a == b);
        vstd::seq_lib::to_multiset_remove(s, 0);
        vstd::seq_lib::to_multiset_remove(t, 0);
        assert(s.remove(0) =~= s.drop_first());
        assert(t.remove(0) =~= t.drop_first());
        lemma_sorted_wrt_tail(s, o);
        lemma_sorted_wrt_tail(t, o);
        assert forall|i: int| 0 <= i < s.drop_first().len() implies #[trigger] s.drop_first()[i] < n by {
            assert(s[i + 1] < n);
        }
        lemma_sorted_unique(s.drop_first(), t.drop_first(), o, n);
        assert forall|i: int| 0 <= i < s.len() implies s[i] == t[i] by {
            if i > 0 {
                assert(s[i] == s.drop_first()[i - 1]);
                assert(t[i] == t.drop_first()[i - 1]);
            }
        }
        assert(s =~= t);
    }
}

/// Sequences of names in lexicographic order, the names compared as
/// strings; a proper prefix comes first.
pub open spec fn names_order(x: Seq<Seq<char>>, y: Seq<Seq<char>>) -> Ordering
    decreases x.len(),
{
    if x.len() == 0 && y.len() == 0 {
        Ordering::Equal
    } else if x.len() == 0 {
        Ordering::Less
    } else if y.len() == 0 {
        Ordering::Greater
    } else if str_order(x[0], y[0]) != Ordering::Equal {
        str_order(x[0], y[0])
    } else {
        names_order(x.drop_first(), y.drop_first())
    }
}

proof fn lemma_str_order_equal(a: Seq<char>, b: Seq<char>)
    ensures
        (str_order(a, b) == Ordering::Equal) <==> a == b,
{
    lemma_bytes_order_equal(encode_utf8(a), encode_utf8(b));
    if encode_utf8(a) == encode_utf8(b) {
        lemma_encode_injective(a, b);
    }
}

proof fn lemma_str_order_antisymmetric(a: Seq<char>, b: Seq<char>)
    ensures
        str_order(b, a) == reversed(str_order(a, b)),
{
    lemma_bytes_order_antisymmetric(encode_utf8(a), encode_utf8(b));
}

proof fn lemma_str_order_transitive(a: Seq<char>, b: Seq<char>, c: Seq<char>)
    requires
        str_order(a, b) != Ordering::Greater,
        str_order(b, c) != Ordering::Greater,
    ensures
        str_order(a, c) != Ordering::Greater,
{
    lemma_str_order_equal(a, b);
    lemma_str_order_equal(b, c);
    if a != b && b != c {
        lemma_bytes_order_transitive(encode_utf8(a), encode_utf8(b), encode_utf8(c), Ordering::Less);
    }
}

proof fn lemma_names_order_antisymmetric(x: Seq<Seq<char>>, y: Seq<Seq<char>>)
    ensures
        names_order(y, x) == reversed(names_order(x, y)),
    decreases x.len(),
{
    if x.len() > 0 && y.len() > 0 {
        lemma_str_order_antisymmetric(x[0], y[0]);
        lemma_names_order_antisymmetric(x.drop_first(), y.drop_first());
    }
}

proof fn lemma_names_order_reflexive(x: Seq<Seq<char>>)
    ensures
        names_order(x, x) == Ordering::Equal,
    decreases x.len(),
{
    if x.len() > 0 {
        lemma_str_order_equal(x[0], x[0]);
        lemma_names_order_reflexive(x.drop_first());
    }
}

proof fn lemma_names_order_transitive(x: Seq<Seq<char>>, y: Seq<Seq<char>>, z: Seq<Seq<char>>)
    requires
        names_order(x, y) != Ordering::Greater,
        names_order(y, z) != Ordering::Greater,
    ensures
        names_order(x, z) != Ordering::Greater,
    decreases x.len(),
{
    if x.len() > 0 && y.len() > 0 && z.len() > 0 {
        lemma_str_order_transitive(x[0], y[0], z[0]);
        lemma_str_order_equal(x[0], z[0]);
        lemma_str_order_equal(x[0], y[0]);
        lemma_str_order_equal(y[0], z[0]);
        lemma_str_order_antisymmetric(x[0], y[0]);
        if x[0] == z[0] {
            lemma_names_order_transitive(x.drop_first(), y.drop_first(), z.drop_first());
        } else if x[0] == y[0] && y[0] == z[0] {
            lemma_names_order_transitive(x.drop_first(), y.drop_first(), z.drop_first());
        }
    }
}

proof fn lemma_names_order_equal(x: Seq<Seq<char>>, y: Seq<Seq<char>>)
    requires
        names_order(x, y) == Ordering::Equal,
    ensures
        x == y,
    decreases x.len(),
{
    if x.len() > 0 && y.len() > 0 {
        lemma_str_order_equal(x[0], y[0]);
        lemma_names_order_equal(x.drop_first(), y.drop_first());
        assert forall|i: int| 0 <= i < x.len() implies x[i] == y[i] by {
            if i > 0 {
                assert(x[i] == x.drop_first()[i - 1]);
                assert(y[i] == y.drop_first()[i - 1]);
            }
        }
        assert(x =~= y);
    }
}

/// Ordering ids by a text key is a total preorder.
proof fn lemma_str_key(k: spec_fn(u32) -> Seq<char>, n: nat)
    ensures
        total_preorder(|a: u32, b: u32| str_order(k(a), k(b)), n),
{
    let o = |a: u32, b: u32| str_order(k(a), k(b));
    assert forall|a: u32, b: u32| a < n && b < n implies #[trigger] o(b, a) == reversed(o(a, b)) by {
        lemma_str_order_antisymmetric(k(a), k(b));
    }
    assert forall|a: u32, b: u32, c: u32| #![trigger o(a, b), o(b, c)]
        a < n && b < n && c < n && o(a, b) != Ordering::Greater && o(b, c) != Ordering::Greater
        implies o(a, c) != Ordering::Greater by {
        lemma_str_order_transitive(k(a), k(b), k(c));
    }
}

/// Ordering ids by an optional text key (`None` first) is a total preorder.
proof fn lemma_opt_str_key(k: spec_fn(u32) -> Option<Seq<char>>, n: nat)
    ensures
        total_preorder(|a: u32, b: u32| opt_str_order(k(a), k(b)), n),
{
    let o = |a: u32, b: u32| opt_str_order(k(a), k(b));
    assert forall|a: u32, b: u32| a < n && b < n implies #[trigger] o(b, a) == reversed(o(a, b)) by {
        if let (Some(x), Some(y)) = (k(a), k(b)) {
            lemma_str_order_antisymmetric(x, y);
        }
    }
    assert forall|a: u32, b: u32, c: u32| #![trigger o(a, b), o(b, c)]
        a < n && b < n && c < n && o(a, b) != Ordering::Greater && o(b, c) != Ordering::Greater
        implies o(a, c) != Ordering::Greater by {
        if let (Some(x), Some(y), Some(z)) = (k(a), k(b), k(c)) {
            lemma_str_order_transitive(x, y, z);
        }
    }
}

/// Ordering ids by an optional number (`None` first) is a total preorder.
proof fn lemma_opt_u64_key(k: spec_fn(u32) -> Option<u64>, n: nat)
    ensures
        total_preorder(|a: u32, b: u32| opt_u64_order(k(a), k(b)), n),
{
    let o = |a: u32, b: u32| opt_u64_order(k(a), k(b));
    assert forall|a: u32, b: u32| a < n && b < n implies #[trigger] o(b, a) == reversed(o(a, b)) by {}
    assert forall|a: u32, b: u32, c: u32| #![trigger o(a, b), o(b, c)]
        a < n && b < n && c < n && o(a, b) != Ordering::Greater && o(b, c) != Ordering::Greater
        implies o(a, c) != Ordering::Greater by {}
}

/// Ordering ids by optional mode bits (`None` first) is a total preorder.
proof fn lemma_opt_u32_key(k: spec_fn(u32) -> Option<u32>, n: nat)
    ensures
        total_preorder(|a: u32, b: u32| opt_u32_order(k(a), k(b)), n),
{
    let o = |a: u32, b: u32| opt_u32_order(k(a), k(b));
    assert forall|a: u32, b: u32| a < n && b < n implies #[trigger] o(b, a) == reversed(o(a, b)) by {}
    assert forall|a: u32, b: u32, c: u32| #![trigger o(a, b), o(b, c)]
        a < n && b < n && c < n && o(a, b) != Ordering::Greater && o(b, c) != Ordering::Greater
        implies o(a, c) != Ordering::Greater by {}
}

/// Ordering ids by an optional time (`None` first) is a total preorder.
proof fn lemma_opt_time_key(k: spec_fn(u32) -> Option<crate::database::FileTime>, n: nat)
    ensures
        total_preorder(|a: u32, b: u32| opt_time_order(k(a), k(b)), n),
{
    let o = |a: u32, b: u32| opt_time_order(k(a), k(b));
    assert forall|a: u32, b: u32| a < n && b < n implies #[trigger] o(b, a) == reversed(o(a, b)) by {}
    assert forall|a: u32, b: u32, c: u32| #![trigger o(a, b), o(b, c)]
        a < n && b < n && c < n && o(a, b) != Ordering::Greater && o(b, c) != Ordering::Greater
        implies o(a, c) != Ordering::Greater by {}
}

/// Breaking the ties of a total preorder with another gives a total
/// preorder.
proof fn lemma_then(o1: spec_fn(u32, u32) -> Ordering, o2: spec_fn(u32, u32) -> Ordering, n: nat)
    requires
        total_preorder(o1, n),
        total_preorder(o2, n),
    ensures
        total_preorder(|a: u32, b: u32| then_order(o1(a, b), o2(a, b)), n),
{
    let o = |a: u32, b: u32| then_order(o1(a, b), o2(a, b));
    assert forall|a: u32, b: u32| a < n && b < n implies #[trigger] o(b, a) == reversed(o(a, b)) by {
        assert(o1(b, a) == reversed(o1(a, b)));
        assert(o2(b, a) == reversed(o2(a, b)));
    }
    assert forall|a: u32, b: u32, c: u32| #![trigger o(a, b), o(b, c)]
        a < n && b < n && c < n && o(a, b) != Ordering::Greater && o(b, c) != Ordering::Greater
        implies o(a, c) != Ordering::Greater by {
        assert(o1(b, a) == reversed(o1(a, b)));
        assert(o1(c, b) == reversed(o1(b, c)));
        assert(o1(c, a) == reversed(o1(a, c)));
        assert(o1(a, b) != Ordering::Greater);
        assert(o1(b, c) != Ordering::Greater);
        assert(o1(a, c) != Ordering::Greater);
        if o1(a, c) == Ordering::Equal {
            assert(o1(c, a) != Ordering::Greater && o1(a, b) != Ordering::Greater ==> o1(c, b) != Ordering::Greater);
            assert(o1(b, c) != Ordering::Greater && o1(c, a) != Ordering::Greater ==> o1(b, a) != Ordering::Greater);
            assert(o1(a, b) == Ordering::Equal && o1(b, c) == Ordering::Equal);
            assert(o2(a, b) != Ordering::Greater && o2(b, c) != Ordering::Greater ==> o2(a, c) != Ordering::Greater);
        }
    }
}

impl Index {
    /// The parent of entry `i`, for a `u32` id.
    pub open(crate) spec fn parent_u(&self, i: u32) -> u32 {
        self.nodes@[i as int].parent
    }

    /// The names of the entries of a sequence of ids.
    pub open(crate) spec fn names_of(&self, x: Seq<u32>) -> Seq<Seq<char>> {
        Seq::new(x.len(), |j: int| self.node_name_u(x[j]))
    }

    /// Whether two entries of one directory never share a name.
    pub open(crate) spec fn distinct_sibling_names(&self) -> bool {
        forall|a: u32, b: u32| #![trigger self.node_name_u(a), self.node_name_u(b)]
            a < self.len() && b < self.len() && a != b && !self.is_root_u(a) && !self.is_root_u(b)
                && self.parent_u(a) == self.parent_u(b) ==> self.node_name_u(a) != self.node_name_u(b)
    }

    /// Whether distinct roots have distinct names, and compare by path as
    /// their names compare as strings.
    pub open(crate) spec fn roots_ordered_by_name(&self) -> bool {
        forall|a: u32, b: u32| #![trigger self.root_path_u(a), self.root_path_u(b)]
            a < self.len() && b < self.len() && a != b && self.is_root_u(a) && self.is_root_u(b)
                ==> self.node_name_u(a) != self.node_name_u(b)
                    && path_order(self.root_path_u(a), self.root_path_u(b))
                        == str_order(self.node_name_u(a), self.node_name_u(b))
    }

    /// Whether the ids go down the tree one level at a time, starting at a
    /// root (`first_parent` is `None`) or at a child of `first_parent`.
    pub open(crate) spec fn linked(&self, x: Seq<u32>, first_parent: Option<u32>) -> bool {
        &&& forall|j: int| 0 <= j < x.len() ==> #[trigger] x[j] < self.len()
        &&& forall|j: int| 0 < j < x.len() ==> self.parent_u(#[trigger] x[j]) == x[j - 1] && x[j - 1] < x[j]
        &&& x.len() > 0 ==> match first_parent {
            None => self.is_root_u(x[0]),
            Some(q) => self.parent_u(x[0]) == q && q < x[0],
        }
    }

    proof fn lemma_chain_linked(&self, i: u32)
        requires
            self.inv(),
            i < self.len(),
        ensures
            self.linked(self.chain_u(i), None),
            self.chain_u(i).len() > 0,
            self.chain_u(i).last() == i,
        decreases i,
    {
        if self.is_root_u(i) {
            self.lemma_chain_root(i);
        } else {
            self.lemma_chain_step(i);
            let p = self.parent_u(i);
            self.lemma_chain_linked(p);
            let c = self.chain_u(i);
            assert(c == self.chain_u(p) + seq![i]);
            assert forall|j: int| 0 < j < c.len() implies self.parent_u(#[trigger] c[j]) == c[j - 1] && c[j - 1] < c[j] by {
                if j < c.len() - 1 {
                    assert(c[j] == self.chain_u(p)[j]);
                    assert(c[j - 1] == self.chain_u(p)[j - 1]);
                }
            }
            assert(c[0] == self.chain_u(p)[0]);
        }
    }

    proof fn lemma_linked_tail(&self, x: Seq<u32>, first_parent: Option<u32>)
        requires
            self.linked(x, first_parent),
            x.len() > 0,
        ensures
            self.linked(x.drop_first(), Some(x[0])),
    {
        let t = x.drop_first();
        assert forall|j: int| 0 < j < t.len() implies self.parent_u(#[trigger] t[j]) == t[j - 1] && t[j - 1] < t[j] by {
            assert(t[j] == x[j + 1]);
            assert(t[j - 1] == x[j]);
        }
        if t.len() > 0 {
            assert(t[0] == x[1]);
        }
    }

    /// Comparing linked sequences id by id, names deciding at the first
    /// difference, compares their names lexicographically.
    proof fn lemma_chain_names(&self, x: Seq<u32>, y: Seq<u32>, first_parent: Option<u32>)
        requires
            self.inv(),
            self.distinct_sibling_names(),
            first_parent is None && x.len() > 0 && y.len() > 0 && x[0] != y[0] ==> self.roots_ordered_by_name(),
            self.linked(x, first_parent),
            self.linked(y, first_parent),
        ensures
            self.chain_order(x, y) == names_order(self.names_of(x), self.names_of(y)),
        decreases x.len(),
    {
        let nx = self.names_of(x);
        let ny = self.names_of(y);
        if x.len() > 0 && y.len() > 0 {
            assert(nx[0] == self.node_name_u(x[0]));
            assert(ny[0] == self.node_name_u(y[0]));
            if x[0] == y[0] {
                lemma_str_order_equal(nx[0], ny[0]);
                self.lemma_linked_tail(x, first_parent);
                self.lemma_linked_tail(y, first_parent);
                self.lemma_chain_names(x.drop_first(), y.drop_first(), Some(x[0]));
                assert(self.names_of(x.drop_first()) =~= nx.drop_first());
                assert(self.names_of(y.drop_first()) =~= ny.drop_first());
            } else {
                lemma_str_order_equal(nx[0], ny[0]);
                match first_parent {
                    None => {
                        assert(self.root_path_u(x[0]) == self.root_path_u(x[0]));
                        assert(self.root_path_u(y[0]) == self.root_path_u(y[0]));
                    },
                    Some(q) => {
                        assert(!self.is_root_u(x[0]));
                        assert(!self.is_root_u(y[0]));
                    },
                }
                assert(self.node_name_u(x[0]) != self.node_name_u(y[0]));
            }
        }
    }

    /// Under the two conditions, linked sequences with the same names are
    /// the same.
    proof fn lemma_names_determine(&self, x: Seq<u32>, y: Seq<u32>, first_parent: Option<u32>)
        requires
            self.inv(),
            self.distinct_sibling_names(),
            first_parent is None && x.len() > 0 && y.len() > 0 && x[0] != y[0] ==> self.roots_ordered_by_name(),
            self.linked(x, first_parent),
            self.linked(y, first_parent),
            self.names_of(x) == self.names_of(y),
        ensures
            x == y,
        decreases x.len(),
    {
        assert(x.len() == self.names_of(x).len());
        assert(y.len() == self.names_of(y).len());
        if x.len() > 0 {
            assert(self.names_of(x)[0] == self.node_name_u(x[0]));
            assert(self.names_of(y)[0] == self.node_name_u(y[0]));
            if x[0] != y[0] {
                match first_parent {
                    None => {
                        assert(self.root_path_u(x[0]) == self.root_path_u(x[0]));
                        assert(self.root_path_u(y[0]) == self.root_path_u(y[0]));
                    },
                    Some(q) => {
                        assert(!self.is_root_u(x[0]));
                        assert(!self.is_root_u(y[0]));
                    },
                }
            }
            self.lemma_linked_tail(x, first_parent);
            self.lemma_linked_tail(y, first_parent);
            assert(self.names_of(x.drop_first()) =~= self.names_of(x).drop_first());
            assert(self.names_of(y.drop_first()) =~= self.names_of(y).drop_first());
            self.lemma_names_determine(x.drop_first(), y.drop_first(), Some(x[0]));
            assert forall|i: int| 0 <= i < x.len() implies x[i] == y[i] by {
                if i > 0 {
                    assert(x[i] == x.drop_first()[i - 1]);
                    assert(y[i] == y.drop_first()[i - 1]);
                }
            }
            assert(x =~= y);
        }
    }

    /// Under the two conditions, two entries tie in the order by any status
    /// only when they are the same entry: the ties are broken by path.
    pub(crate) proof fn lemma_entry_order_strict(&self, kind: StatusKind, a: u32, b: u32)
        requires
            self.inv(),
            self.distinct_sibling_names(),
            self.roots_ordered_by_name(),
            a < self.len(),
            b < self.len(),
            self.entry_order(kind, a, b) == Ordering::Equal,
        ensures
            a == b,
    {
        assert(self.entry_path_order(a, b) == Ordering::Equal);
        self.lemma_path_order_by_names(a, b);
        lemma_names_order_equal(self.names_of(self.chain_u(a)), self.names_of(self.chain_u(b)));
        self.lemma_chain_linked(a);
        self.lemma_chain_linked(b);
        self.lemma_names_determine(self.chain_u(a), self.chain_u(b), None);
    }

    /// Under the two conditions, the order by path compares the names along
    /// the paths.
    proof fn lemma_path_order_by_names(&self, a: u32, b: u32)
        requires
            self.inv(),
            self.distinct_sibling_names(),
            self.roots_ordered_by_name(),
            a < self.len(),
            b < self.len(),
        ensures
            self.entry_path_order(a, b) == names_order(self.names_of(self.chain_u(a)), self.names_of(self.chain_u(b))),
    {
        self.lemma_chain_linked(a);
        self.lemma_chain_linked(b);
        if a == b {
            lemma_names_order_reflexive(self.names_of(self.chain_u(a)));
        } else if self.is_root_u(a) && self.is_root_u(b) {
            self.lemma_chain_root(a);
            self.lemma_chain_root(b);
            let na = self.names_of(self.chain_u(a));
            let nb = self.names_of(self.chain_u(b));
            assert(na[0] == self.node_name_u(a));
            assert(nb[0] == self.node_name_u(b));
            assert(self.root_path_u(a) == self.root_path_u(a));
            assert(self.root_path_u(b) == self.root_path_u(b));
            lemma_str_order_equal(na[0], nb[0]);
        } else {
            self.lemma_chain_names(self.chain_u(a), self.chain_u(b), None);
        }
    }

    /// Within one root's tree, the order by path compares the names along
    /// the paths.
    proof fn lemma_tree_order_by_names(&self, a: u32, b: u32)
        requires
            self.inv(),
            self.distinct_sibling_names(),
            a < self.len(),
            b < self.len(),
            self.chain_u(a)[0] == self.chain_u(b)[0],
        ensures
            self.entry_path_order(a, b) == names_order(self.names_of(self.chain_u(a)), self.names_of(self.chain_u(b))),
    {
        self.lemma_chain_linked(a);
        self.lemma_chain_linked(b);
        if a == b {
            lemma_names_order_reflexive(self.names_of(self.chain_u(a)));
        } else if self.is_root_u(a) && self.is_root_u(b) {
            self.lemma_chain_root(a);
            self.lemma_chain_root(b);
        } else {
            self.lemma_chain_names(self.chain_u(a), self.chain_u(b), None);
        }
    }

    /// The order by path is a total preorder under the two conditions.
    proof fn lemma_path_preorder(&self)
        requires
            self.inv(),
            self.distinct_sibling_names(),
            self.roots_ordered_by_name(),
        ensures
            total_preorder(|a: u32, b: u32| self.entry_path_order(a, b), self.len()),
    {
        let n = self.len();
        let o = |a: u32, b: u32| self.entry_path_order(a, b);
        assert forall|a: u32, b: u32| a < n && b < n implies #[trigger] o(b, a) == reversed(o(a, b)) by {
            self.lemma_path_order_by_names(a, b);
            self.lemma_path_order_by_names(b, a);
            lemma_names_order_antisymmetric(self.names_of(self.chain_u(a)), self.names_of(self.chain_u(b)));
        }
        assert forall|a: u32, b: u32, c: u32| #![trigger o(a, b), o(b, c)]
            a < n && b < n && c < n && o(a, b) != Ordering::Greater && o(b, c) != Ordering::Greater
            implies o(a, c) != Ordering::Greater by {
            self.lemma_path_order_by_names(a, b);
            self.lemma_path_order_by_names(b, c);
            self.lemma_path_order_by_names(a, c);
            lemma_names_order_transitive(
                self.names_of(self.chain_u(a)),
                self.names_of(self.chain_u(b)),
                self.names_of(self.chain_u(c)),
            );
        }
    }

    /// The order by name, then by path, is a total preorder under the two
    /// conditions.
    proof fn lemma_basename_preorder(&self)
        requires
            self.inv(),
            self.distinct_sibling_names(),
            self.roots_ordered_by_name(),
        ensures
            total_preorder(|a: u32, b: u32| self.basename_order(a, b), self.len()),
    {
        let n = self.len();
        let names = |a: u32| self.node_name_u(a);
        lemma_str_key(names, n);
        self.lemma_path_preorder();
        lemma_then(|a: u32, b: u32| str_order(names(a), names(b)), |a: u32, b: u32| self.entry_path_order(a, b), n);
        let t = |a: u32, b: u32| then_order(
            (|a: u32, b: u32| str_order(names(a), names(b)))(a, b),
            (|a: u32, b: u32| self.entry_path_order(a, b))(a, b),
        );
        assert(t =~= |a: u32, b: u32| self.basename_order(a, b));
    }

    /// Breaking the ties of a key order by name and path gives a total
    /// preorder under the two conditions.
    proof fn lemma_tie_broken(&self, key: spec_fn(u32, u32) -> Ordering)
        requires
            self.inv(),
            self.distinct_sibling_names(),
            self.roots_ordered_by_name(),
            total_preorder(key, self.len()),
        ensures
            total_preorder(|a: u32, b: u32| then_order(key(a, b), self.basename_order(a, b)), self.len()),
    {
        self.lemma_basename_preorder();
        lemma_then(key, |a: u32, b: u32| self.basename_order(a, b), self.len());
        let t = |a: u32, b: u32| then_order(key(a, b), (|a: u32, b: u32| self.basename_order(a, b))(a, b));
        assert(t =~= |a: u32, b: u32| then_order(key(a, b), self.basename_order(a, b)));
    }
}

/// A list of names comes before the same list with one more name.
proof fn lemma_names_order_prefix(x: Seq<Seq<char>>, n: Seq<char>)
    ensures
        names_order(x, x.push(n)) == Ordering::Less,
    decreases x.len(),
{
    if x.len() > 0 {
        lemma_str_order_equal(x[0], x[0]);
        assert(x.push(n).drop_first() =~= x.drop_first().push(n));
        lemma_names_order_prefix(x.drop_first(), n);
    }
}

/// Lists of names that begin alike compare as what follows.
proof fn lemma_names_order_common_prefix(p: Seq<Seq<char>>, x: Seq<Seq<char>>, y: Seq<Seq<char>>)
    ensures
        names_order(p + x, p + y) == names_order(x, y),
    decreases p.len(),
{
    if p.len() > 0 {
        lemma_str_order_equal(p[0], p[0]);
        assert((p + x).drop_first() =~= p.drop_first() + x);
        assert((p + y).drop_first() =~= p.drop_first() + y);
        lemma_names_order_common_prefix(p.drop_first(), x, y);
    } else {
        assert(p + x =~= x);
        assert(p + y =~= y);
    }
}

/// Within one root's tree, comparing two entries by path compares the
/// names along their paths from the root, when no two entries of a
/// directory share a name: swapping the entries reverses the result, only
/// an entry ties with itself, a directory comes before its children, and
/// entries of one directory compare by their names.
pub proof fn law_path_order_within_a_tree(idx: Index, a: u32, b: u32)
    requires
        idx.inv(),
        idx.distinct_sibling_names(),
        a < idx.len(),
        b < idx.len(),
        idx.chain_u(a)[0] == idx.chain_u(b)[0],
    ensures
        idx.entry_path_order(a, b) == names_order(idx.names_of(idx.chain_u(a)), idx.names_of(idx.chain_u(b))),
        idx.entry_path_order(b, a) == reversed(idx.entry_path_order(a, b)),
        (idx.entry_path_order(a, b) == Ordering::Equal) <==> a == b,
        !idx.is_root_u(b) && idx.parent_u(b) == a ==> idx.entry_path_order(a, b) == Ordering::Less,
        !idx.is_root_u(a) && !idx.is_root_u(b) && idx.parent_u(a) == idx.parent_u(b)
            ==> idx.entry_path_order(a, b) == str_order(idx.node_name_u(a), idx.node_name_u(b)),
{
    let na = idx.names_of(idx.chain_u(a));
    let nb = idx.names_of(idx.chain_u(b));
    idx.lemma_tree_order_by_names(a, b);
    idx.lemma_tree_order_by_names(b, a);
    lemma_names_order_antisymmetric(na, nb);
    if idx.entry_path_order(a, b) == Ordering::Equal {
        lemma_names_order_equal(na, nb);
        idx.lemma_chain_linked(a);
        idx.lemma_chain_linked(b);
        idx.lemma_names_determine(idx.chain_u(a), idx.chain_u(b), None);
    }
    if !idx.is_root_u(b) && idx.parent_u(b) == a {
        idx.lemma_chain_step(b);
        assert(nb =~= na.push(idx.node_name_u(b)));
        lemma_names_order_prefix(na, idx.node_name_u(b));
    }
    if !idx.is_root_u(a) && !idx.is_root_u(b) && idx.parent_u(a) == idx.parent_u(b) {
        idx.lemma_chain_step(a);
        idx.lemma_chain_step(b);
        let np = idx.names_of(idx.chain_u(idx.parent_u(a)));
        assert(na =~= np + seq![idx.node_name_u(a)]);
        assert(nb =~= np + seq![idx.node_name_u(b)]);
        lemma_names_order_common_prefix(np, seq![idx.node_name_u(a)], seq![idx.node_name_u(b)]);
        lemma_str_order_equal(idx.node_name_u(a), idx.node_name_u(b));
        assert(seq![idx.node_name_u(a)].drop_first() =~= Seq::<Seq<char>>::empty());
        assert(seq![idx.node_name_u(b)].drop_first() =~= Seq::<Seq<char>>::empty());
    }
}

/// With at most one root, no two distinct roots are there to compare, so
/// the roots are trivially ordered by name.
pub proof fn law_single_root_is_ordered(idx: Index)
    requires
        idx.inv(),
        idx.num_roots() <= 1,
    ensures
        idx.roots_ordered_by_name(),
{
    let roots = idx.root_paths@;
    assert forall|a: u32, b: u32| #![trigger idx.root_path_u(a), idx.root_path_u(b)]
        a < idx.len() && b < idx.len() && a != b && idx.is_root_u(a) && idx.is_root_u(b) implies false by {
        let ia = a as int;
        let ib = b as int;
        assert(idx.is_root(ia) && idx.is_root(ib));
        assert(crate::database::is_root_id(roots, ia));
        assert(crate::database::is_root_id(roots, ib));
        let ka = choose|k: int| 0 <= k < roots.len() && (#[trigger] roots[k]).id == ia;
        let kb = choose|k: int| 0 <= k < roots.len() && (#[trigger] roots[k]).id == ib;
        assert(ka == kb);
    }
}

/// Sorting by any status is sorting by a total preorder, as the parallel
/// sort requires, when no two entries of a directory share a name and
/// distinct roots have distinct names and compare by path as their names
/// do (as with a single root). Then the hits of a search come sorted.
pub proof fn law_sort_orders_are_total_preorders(idx: Index, kind: StatusKind)
    requires
        idx.inv(),
        idx.distinct_sibling_names(),
        idx.roots_ordered_by_name(),
    ensures
        idx.is_weak_order(kind),
{
    let n = idx.len();
    let o = |a: u32, b: u32| idx.entry_order(kind, a, b);
    match kind {
        StatusKind::Basename => {
            idx.lemma_basename_preorder();
            assert(o =~= |a: u32, b: u32| idx.basename_order(a, b));
        },
        StatusKind::Path => {
            idx.lemma_path_preorder();
            assert(o =~= |a: u32, b: u32| idx.entry_path_order(a, b));
        },
        StatusKind::Extension => {
            let k = |a: u32| idx.extension_u(a);
            lemma_opt_str_key(k, n);
            let key = |a: u32, b: u32| opt_str_order(k(a), k(b));
            idx.lemma_tie_broken(key);
            assert forall|a: u32, b: u32| #[trigger] idx.extension_order(a, b) == key(a, b) by {}
            assert(o =~= |a: u32, b: u32| then_order(key(a, b), idx.basename_order(a, b)));
        },
        StatusKind::Size => {
            let k = |a: u32| idx.size_u(a);
            lemma_opt_u64_key(k, n);
            let key = |a: u32, b: u32| opt_u64_order(k(a), k(b));
            idx.lemma_tie_broken(key);
            assert(o =~= |a: u32, b: u32| then_order(key(a, b), idx.basename_order(a, b)));
        },
        StatusKind::Mode => {
            let k = |a: u32| idx.mode_u(a);
            lemma_opt_u32_key(k, n);
            let key = |a: u32, b: u32| opt_u32_order(k(a), k(b));
            idx.lemma_tie_broken(key);
            assert(o =~= |a: u32, b: u32| then_order(key(a, b), idx.basename_order(a, b)));
        },
        StatusKind::Created => {
            let k = |a: u32| idx.created_u(a);
            lemma_opt_time_key(k, n);
            let key = |a: u32, b: u32| opt_time_order(k(a), k(b));
            idx.lemma_tie_broken(key);
            assert(o =~= |a: u32, b: u32| then_order(key(a, b), idx.basename_order(a, b)));
        },
        StatusKind::Modified => {
            let k = |a: u32| idx.modified_u(a);
            lemma_opt_time_key(k, n);
            let key = |a: u32, b: u32| opt_time_order(k(a), k(b));
            idx.lemma_tie_broken(key);
            assert(o =~= |a: u32, b: u32| then_order(key(a, b), idx.basename_order(a, b)));
        },
        StatusKind::Accessed => {
            let k = |a: u32| idx.accessed_u(a);
            lemma_opt_time_key(k, n);
            let key = |a: u32, b: u32| opt_time_order(k(a), k(b));
            idx.lemma_tie_broken(key);
            assert(o =~= |a: u32, b: u32| then_order(key(a, b), idx.basename_order(a, b)));
        },
    }
    assert(total_preorder(o, n));
    assert forall|a: u32, b: u32| a < n && b < n implies #[trigger] idx.entry_order(kind, b, a)
        == reversed(idx.entry_order(kind, a, b)) by {
        assert(o(b, a) == reversed(o(a, b)));
    }
    assert forall|a: u32, b: u32, c: u32| a < n && b < n && c < n
        && #[trigger] idx.entry_order(kind, a, b) != Ordering::Greater
        && #[trigger] idx.entry_order(kind, b, c) != Ordering::Greater
        implies idx.entry_order(kind, a, c) != Ordering::Greater by {
        assert(o(a, b) == idx.entry_order(kind, a, b));
        assert(o(b, c) == idx.entry_order(kind, b, c));
    }
}

} // verus!
