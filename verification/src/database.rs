//! The file index: a flat array of entry nodes forming one tree per indexed
//! root directory, with all names stored in a single string arena.

pub mod compare;
pub mod indexer;
pub mod builder;
pub mod search;
pub mod order;

use vstd::prelude::*;
use vstd::string::StringSliceAdditionalSpecFns;
use vstd::utf8::*;
use crate::mode::Mode;
use crate::text::{join_path, rsplit_once_char, spec_join, str_slice};

verus! {

/// A status (column) of an entry that can be indexed, sorted by and displayed.
#[derive(Clone, Copy, PartialEq, Eq, Structural, Debug)]
pub enum StatusKind {
    Basename,
    Path,
    Extension,
    Size,
    Mode,
    Created,
    Modified,
    Accessed,
}

/// The number of status kinds.
pub const NUM_STATUS_KINDS: usize = 8;

impl StatusKind {
    /// The position of the kind in declaration order.
    pub open spec fn kind_index(self) -> nat {
        match self {
            StatusKind::Basename => 0,
            StatusKind::Path => 1,
            StatusKind::Extension => 2,
            StatusKind::Size => 3,
            StatusKind::Mode => 4,
            StatusKind::Created => 5,
            StatusKind::Modified => 6,
            StatusKind::Accessed => 7,
        }
    }

    /// The position of the kind in declaration order.
    pub fn index(self) -> (i: usize)
        ensures
            i == self.kind_index(),
            i < NUM_STATUS_KINDS,
    {
        match self {
            StatusKind::Basename => 0,
            StatusKind::Path => 1,
            StatusKind::Extension => 2,
            StatusKind::Size => 3,
            StatusKind::Mode => 4,
            StatusKind::Created => 5,
            StatusKind::Modified => 6,
            StatusKind::Accessed => 7,
        }
    }

    /// All kinds, in declaration order.
    pub fn all() -> (v: Vec<StatusKind>)
        ensures
            v@.len() == NUM_STATUS_KINDS,
            forall|i: int| 0 <= i < NUM_STATUS_KINDS ==> (#[trigger] v@[i]).kind_index() == i,
    {
        let v = vec![
            StatusKind::Basename,
            StatusKind::Path,
            StatusKind::Extension,
            StatusKind::Size,
            StatusKind::Mode,
            StatusKind::Created,
            StatusKind::Modified,
            StatusKind::Accessed,
        ];
        v
    }

    /// The display name of the kind, such as `Basename`.
    pub open spec fn spec_name(self) -> Seq<char> {
        match self {
            StatusKind::Basename => "Basename"@,
            StatusKind::Path => "Path"@,
            StatusKind::Extension => "Extension"@,
            StatusKind::Size => "Size"@,
            StatusKind::Mode => "Mode"@,
            StatusKind::Created => "Created"@,
            StatusKind::Modified => "Modified"@,
            StatusKind::Accessed => "Accessed"@,
        }
    }

    /// The display name of the kind, such as `Basename`.
    pub fn name(self) -> (s: &'static str)
        ensures
            s@ == self.spec_name(),
    {
        match self {
            StatusKind::Basename => "Basename",
            StatusKind::Path => "Path",
            StatusKind::Extension => "Extension",
            StatusKind::Size => "Size",
            StatusKind::Mode => "Mode",
            StatusKind::Created => "Created",
            StatusKind::Modified => "Modified",
            StatusKind::Accessed => "Accessed",
        }
    }
}

/// One flag per status kind.
#[derive(Clone, Copy, Debug)]
pub struct StatusFlags {
    pub basename: bool,
    pub path: bool,
    pub extension: bool,
    pub size: bool,
    pub mode: bool,
    pub created: bool,
    pub modified: bool,
    pub accessed: bool,
}

impl StatusFlags {
    /// The flag of `kind`.
    pub open spec fn flag(self, kind: StatusKind) -> bool {
        match kind {
            StatusKind::Basename => self.basename,
            StatusKind::Path => self.path,
            StatusKind::Extension => self.extension,
            StatusKind::Size => self.size,
            StatusKind::Mode => self.mode,
            StatusKind::Created => self.created,
            StatusKind::Modified => self.modified,
            StatusKind::Accessed => self.accessed,
        }
    }

    /// All flags cleared.
    pub fn none() -> (f: Self)
        ensures
            forall|k: StatusKind| !(#[trigger] f.flag(k)),
    {
        StatusFlags {
            basename: false,
            path: false,
            extension: false,
            size: false,
            mode: false,
            created: false,
            modified: false,
            accessed: false,
        }
    }

    /// The flag of `kind`.
    pub fn get(&self, kind: StatusKind) -> (r: bool)
        ensures
            r == self.flag(kind),
    {
        match kind {
            StatusKind::Basename => self.basename,
            StatusKind::Path => self.path,
            StatusKind::Extension => self.extension,
            StatusKind::Size => self.size,
            StatusKind::Mode => self.mode,
            StatusKind::Created => self.created,
            StatusKind::Modified => self.modified,
            StatusKind::Accessed => self.accessed,
        }
    }

    /// Sets the flag of `kind`, leaving the others.
    pub fn set(&mut self, kind: StatusKind, value: bool)
        ensures
            final(self).flag(kind) == value,
            forall|k: StatusKind| k != kind ==> #[trigger] final(self).flag(k) == old(self).flag(k),
    {
        match kind {
            StatusKind::Basename => self.basename = value,
            StatusKind::Path => self.path = value,
            StatusKind::Extension => self.extension = value,
            StatusKind::Size => self.size = value,
            StatusKind::Mode => self.mode = value,
            StatusKind::Created => self.created = value,
            StatusKind::Modified => self.modified = value,
            StatusKind::Accessed => self.accessed = value,
        }
    }
}

/// The identifier of an entry: its position in the database.
#[derive(Clone, Copy, PartialEq, Eq, Structural, Debug)]
pub struct EntryId(pub u32);

/// A point in time as a duration since the Unix epoch; times before the
/// epoch are stored as the epoch itself.
#[derive(Clone, Copy, PartialEq, Eq, PartialOrd, Ord, Debug)]
pub struct FileTime {
    pub secs: u64,
    pub nanos: u32,
}

/// One entry of the tree.
#[derive(Clone, Copy, Debug)]
pub struct EntryNode {
    /// Byte offset of the name in the arena.
    pub(crate) name_start: usize,
    /// The parent entry; a root is its own parent.
    pub(crate) parent: u32,
    /// The children occupy ids `child_start..child_end`.
    pub(crate) child_start: u32,
    pub(crate) child_end: u32,
    /// Byte length of the name.
    pub(crate) name_len: u16,
    pub(crate) is_dir: bool,
}

impl EntryNode {
    /// Whether the entry has at least one child.
    pub(crate) fn has_any_child(&self) -> (r: bool)
        ensures
            r == (self.child_start < self.child_end),
    {
        self.child_start < self.child_end
    }
}

/// An indexed root directory: the id of its node and its full path.
#[derive(Debug)]
pub struct RootPath {
    pub(crate) id: u32,
    pub(crate) path: String,
}

/// The path of the root whose node is `id`, looked up in the root list.
pub open(crate) spec fn root_path_of(roots: Seq<RootPath>, id: int) -> Seq<char>
    decreases roots.len(),
{
    if roots.len() == 0 {
        Seq::empty()
    } else if roots.last().id == id {
        roots.last().path@
    } else {
        root_path_of(roots.drop_last(), id)
    }
}

/// Whether `name` is a suffix of `path`.
pub open spec fn is_suffix(name: Seq<char>, path: Seq<char>) -> bool {
    name.len() <= path.len() && path.subrange(path.len() - name.len(), path.len() as int) == name
}

/// Whether `id` is the id of some root in the list.
pub open(crate) spec fn is_root_id(roots: Seq<RootPath>, id: int) -> bool {
    exists|k: int| 0 <= k < roots.len() && (#[trigger] roots[k]).id == id
}

/// The entry tree and its per-entry columns.
pub struct Index {
    /// Names of all entries, concatenated.
    pub(crate) name_arena: String,
    pub(crate) nodes: Vec<EntryNode>,
    /// Roots in increasing id order.
    pub(crate) root_paths: Vec<RootPath>,
    /// The path separator used to build full paths.
    pub(crate) separator: char,
    pub(crate) size: Option<Vec<u64>>,
    pub(crate) mode: Option<Vec<Mode>>,
    pub(crate) created: Option<Vec<FileTime>>,
    pub(crate) modified: Option<Vec<FileTime>>,
    pub(crate) accessed: Option<Vec<FileTime>>,
}

/// The index of a file tree, with presorted orders of its entries.
pub struct Database {
    pub(crate) index: Index,
    /// For each status kind (by index), the ids of all entries sorted by it,
    /// when fast sorting is enabled for it.
    pub(crate) sorted_ids: Vec<Option<Vec<u32>>>,
}

/// Every id of an optional id list is below `n`.
pub open spec fn ids_in_range(ids: Option<Vec<u32>>, n: nat) -> bool {
    ids matches Some(v) ==> forall|j: int| 0 <= j < v@.len() ==> #[trigger] v@[j] < n
}

/// The ids `0..n`, in order.
pub open spec fn all_ids(n: nat) -> Seq<u32> {
    Seq::new(n, |i: int| i as u32)
}

/// A present presorted id list is sorted by its status when that order is a
/// total preorder.
pub open spec fn ids_sorted(ids: Option<Vec<u32>>, index: Index, kind: StatusKind) -> bool {
    ids matches Some(v) ==> (index.is_weak_order(kind) ==> crate::database::compare::sorted_by(v@, index, kind, false))
}

/// A present id list holds every id below `n` exactly once, in some order.
pub open spec fn ids_complete(ids: Option<Vec<u32>>, n: nat) -> bool {
    ids matches Some(v) ==> v@.to_multiset() == all_ids(n).to_multiset()
}

/// The length of an optional per-entry column, if present, matches `n`.
pub open spec fn column_fits<T>(col: Option<Vec<T>>, n: nat) -> bool {
    col matches Some(v) ==> v@.len() == n
}

impl Index {
    /// The UTF-8 bytes of the name arena.
    pub open(crate) spec fn arena_bytes(&self) -> Seq<u8> {
        encode_utf8(self.name_arena@)
    }

    /// Number of entries.
    pub open(crate) spec fn len(&self) -> nat {
        self.nodes@.len()
    }

    /// The name span of entry `i` lies on character boundaries of the arena.
    pub open(crate) spec fn span_wf(&self, i: int) -> bool {
        let n = self.nodes@[i];
        &&& n.name_start + n.name_len <= self.arena_bytes().len()
        &&& is_char_boundary(self.arena_bytes(), n.name_start as int)
        &&& is_char_boundary(self.arena_bytes(), n.name_start + n.name_len)
    }

    /// Structural well-formedness of entry `i`.
    pub open(crate) spec fn node_wf(&self, i: int) -> bool {
        let n = self.nodes@[i];
        &&& self.span_wf(i)
        &&& (n.parent == i || n.parent < i)
        &&& (n.child_start == n.child_end || (i < n.child_start && n.child_start < n.child_end
            && n.child_end <= self.len()))
    }

    /// Whether entry `i` is a root.
    pub open(crate) spec fn is_root(&self, i: int) -> bool {
        self.nodes@[i].parent == i
    }

    pub open(crate) spec fn roots_wf(&self) -> bool {
        let roots = self.root_paths@;
        &&& forall|k: int| 0 <= k < roots.len() ==> (#[trigger] roots[k]).id < self.len()
            && self.is_root(roots[k].id as int)
        &&& forall|k: int, l: int| 0 <= k < l < roots.len() ==> (#[trigger] roots[k]).id < (#[trigger] roots[l]).id
        &&& forall|i: int| 0 <= i < self.len() && #[trigger] self.is_root(i) ==> is_root_id(roots, i)
        // Every entry lies in the id block of its root: no root id falls
        // strictly after the parent and at or before the entry.
        &&& forall|k: int| 0 <= k < roots.len() ==> crate::text::byte_len(self.node_name((#[trigger] roots[k]).id as int))
            <= crate::text::byte_len(roots[k].path@)
        &&& forall|i: int, k: int| #![trigger self.nodes@[i], roots[k]]
            0 <= i < self.len() && 0 <= k < roots.len() && !self.is_root(i)
            ==> !(self.nodes@[i].parent < roots[k].id <= i)
    }

    pub open(crate) spec fn children_wf(&self) -> bool {
        forall|i: int, c: int| #![trigger self.nodes@[i], self.nodes@[c]]
            0 <= i < self.len() && self.nodes@[i].child_start <= c
            < self.nodes@[i].child_end ==> self.nodes@[c].parent == i
    }

    pub open(crate) spec fn columns_wf(&self) -> bool {
        &&& column_fits(self.size, self.len())
        &&& column_fits(self.mode, self.len())
        &&& column_fits(self.created, self.len())
        &&& column_fits(self.modified, self.len())
        &&& column_fits(self.accessed, self.len())
    }

    pub open(crate) spec fn inv(&self) -> bool {
        &&& self.len() < u32::MAX
        &&& self.arena_bytes().len() <= usize::MAX
        &&& forall|i: int| 0 <= i < self.len() ==> #[trigger] self.node_wf(i)
        &&& self.roots_wf()
        &&& self.children_wf()
        &&& self.columns_wf()
    }

    /// The name of entry `i`.
    pub open(crate) spec fn node_name(&self, i: int) -> Seq<char> {
        let n = self.nodes@[i];
        decode_utf8(self.arena_bytes().subrange(n.name_start as int, n.name_start + n.name_len))
    }

    /// The full path of entry `i`: the root's path, then the names of the
    /// entries below it joined with the separator.
    pub open(crate) spec fn spec_path(&self, i: int) -> Seq<char>
        decreases i,
    {
        if 0 <= i < self.len() {
            let p = self.nodes@[i].parent as int;
            if p == i {
                root_path_of(self.root_paths@, i)
            } else if p < i {
                spec_join(self.spec_path(p), self.node_name(i), self.separator)
            } else {
                Seq::empty()
            }
        } else {
            Seq::empty()
        }
    }

    /// The id of the `k`-th root.
    pub open(crate) spec fn root_id(&self, k: int) -> int {
        self.root_paths@[k].id as int
    }

    /// The path of the `k`-th root.
    pub open(crate) spec fn root_path_at(&self, k: int) -> Seq<char> {
        self.root_paths@[k].path@
    }

    /// Number of roots.
    pub open(crate) spec fn num_roots(&self) -> nat {
        self.root_paths@.len()
    }

    /// Byte length of the name of entry `i`.
    pub open(crate) spec fn name_len(&self, i: int) -> nat {
        self.nodes@[i].name_len as nat
    }

    /// First child id of entry `i`.
    pub open(crate) spec fn child_start(&self, i: int) -> int {
        self.nodes@[i].child_start as int
    }

    /// One past the last child id of entry `i`.
    pub open(crate) spec fn child_end(&self, i: int) -> int {
        self.nodes@[i].child_end as int
    }

    /// The parent of entry `i`.
    pub open(crate) spec fn parent(&self, i: int) -> int {
        self.nodes@[i].parent as int
    }

    /// The indexed size of entry `i`, if sizes are indexed.
    pub open(crate) spec fn spec_size(&self, i: int) -> Option<u64> {
        match self.size { Some(v) => Some(v@[i]), None => None }
    }

    /// The indexed mode of entry `i`, if modes are indexed.
    pub open(crate) spec fn spec_mode(&self, i: int) -> Option<Mode> {
        match self.mode { Some(v) => Some(v@[i]), None => None }
    }

    /// The indexed creation time of entry `i`, if indexed.
    pub open(crate) spec fn spec_created(&self, i: int) -> Option<FileTime> {
        match self.created { Some(v) => Some(v@[i]), None => None }
    }

    /// The indexed modification time of entry `i`, if indexed.
    pub open(crate) spec fn spec_modified(&self, i: int) -> Option<FileTime> {
        match self.modified { Some(v) => Some(v@[i]), None => None }
    }

    /// The indexed access time of entry `i`, if indexed.
    pub open(crate) spec fn spec_accessed(&self, i: int) -> Option<FileTime> {
        match self.accessed { Some(v) => Some(v@[i]), None => None }
    }

    /// The ids from the root of entry `i`'s tree down to `i`.
    pub open(crate) spec fn chain(&self, i: int) -> Seq<u32>
        decreases i,
    {
        if 0 <= i < self.len() {
            let p = self.nodes@[i].parent as int;
            if p == i {
                seq![i as u32]
            } else if p < i {
                self.chain(p).push(i as u32)
            } else {
                Seq::empty()
            }
        } else {
            Seq::empty()
        }
    }

    /// [`Database::chain`] for a `u32` id.
    pub open(crate) spec fn chain_u(&self, i: u32) -> Seq<u32> {
        self.chain(i as int)
    }

    /// [`Database::node_name`] for a `u32` id.
    pub open(crate) spec fn node_name_u(&self, i: u32) -> Seq<char> {
        self.node_name(i as int)
    }

    /// [`Database::is_root`] for a `u32` id.
    pub open(crate) spec fn is_root_u(&self, i: u32) -> bool {
        self.is_root(i as int)
    }

    /// The path of root `i`, for a `u32` id.
    pub open(crate) spec fn root_path_u(&self, i: u32) -> Seq<char> {
        root_path_of(self.root_paths@, i as int)
    }

    /// [`Index::spec_is_dir`] for a `u32` id.
    pub open(crate) spec fn is_dir_u(&self, i: u32) -> bool {
        self.spec_is_dir(i as int)
    }

    /// [`Index::spec_extension`] for a `u32` id.
    pub open(crate) spec fn extension_u(&self, i: u32) -> Option<Seq<char>> {
        self.spec_extension(i as int)
    }

    /// [`Index::spec_size`] for a `u32` id.
    pub open(crate) spec fn size_u(&self, i: u32) -> Option<u64> {
        self.spec_size(i as int)
    }

    /// The indexed mode of entry `i`, as its bits.
    pub open(crate) spec fn mode_u(&self, i: u32) -> Option<u32> {
        match self.spec_mode(i as int) { Some(m) => Some(m.0), None => None }
    }

    /// [`Index::spec_created`] for a `u32` id.
    pub open(crate) spec fn created_u(&self, i: u32) -> Option<FileTime> {
        self.spec_created(i as int)
    }

    /// [`Index::spec_modified`] for a `u32` id.
    pub open(crate) spec fn modified_u(&self, i: u32) -> Option<FileTime> {
        self.spec_modified(i as int)
    }

    /// [`Index::spec_accessed`] for a `u32` id.
    pub open(crate) spec fn accessed_u(&self, i: u32) -> Option<FileTime> {
        self.spec_accessed(i as int)
    }

    /// Whether entry `id` is a directory.
    pub(crate) fn node_is_dir(&self, id: u32) -> (r: bool)
        requires
            self.inv(),
            id < self.len(),
        ensures
            r == self.is_dir_u(id),
    {
        self.nodes[id as usize].is_dir
    }

    /// The extension of entry `id` (see [`extension_of`]).
    pub(crate) fn node_extension(&self, id: u32) -> (r: Option<&str>)
        requires
            self.inv(),
            id < self.len(),
        ensures
            r matches Some(s) ==> self.extension_u(id) == Some(s@),
            r is None ==> self.extension_u(id) is None,
    {
        if self.nodes[id as usize].is_dir {
            return None;
        }
        let name = self.basename_from_node(id);
        match rsplit_once_char(name, '.') {
            Some((before, after)) => {
                proof { lemma_last_index_split(before@, after@, '.'); }
                Some(after)
            },
            None => None,
        }
    }

    /// The indexed size of entry `id`.
    pub(crate) fn node_size(&self, id: u32) -> (r: Option<u64>)
        requires
            self.inv(),
            id < self.len(),
        ensures
            r == self.size_u(id),
    {
        match &self.size {
            Some(v) => Some(v[id as usize]),
            None => None,
        }
    }

    /// The indexed mode bits of entry `id`.
    pub(crate) fn node_mode(&self, id: u32) -> (r: Option<u32>)
        requires
            self.inv(),
            id < self.len(),
        ensures
            r == self.mode_u(id),
    {
        match &self.mode {
            Some(v) => Some(v[id as usize].0),
            None => None,
        }
    }

    /// The indexed creation time of entry `id`.
    pub(crate) fn node_created(&self, id: u32) -> (r: Option<FileTime>)
        requires
            self.inv(),
            id < self.len(),
        ensures
            r == self.created_u(id),
    {
        match &self.created {
            Some(v) => Some(v[id as usize]),
            None => None,
        }
    }

    /// The indexed modification time of entry `id`.
    pub(crate) fn node_modified(&self, id: u32) -> (r: Option<FileTime>)
        requires
            self.inv(),
            id < self.len(),
        ensures
            r == self.modified_u(id),
    {
        match &self.modified {
            Some(v) => Some(v[id as usize]),
            None => None,
        }
    }

    /// The indexed access time of entry `id`.
    pub(crate) fn node_accessed(&self, id: u32) -> (r: Option<FileTime>)
        requires
            self.inv(),
            id < self.len(),
        ensures
            r == self.accessed_u(id),
    {
        match &self.accessed {
            Some(v) => Some(v[id as usize]),
            None => None,
        }
    }

    /// A root's path ends with its name.
    pub(crate) proof fn lemma_root_path_of_found(&self, i: int)
        requires
            self.inv(),
            0 <= i < self.len(),
            self.is_root(i),
        ensures
            exists|k: int| 0 <= k < self.root_paths@.len() && (#[trigger] self.root_paths@[k]).id == i
                && root_path_of(self.root_paths@, i) == self.root_paths@[k].path@,
    {
        let roots = self.root_paths@;
        let k = choose|k: int| 0 <= k < roots.len() && (#[trigger] roots[k]).id == i;
        lemma_root_path_of_unique(roots, k);
    }

    /// The full path of a non-root entry ends with its name; the UTF-8
    /// length of any entry's path is at least its name's.
    pub(crate) proof fn lemma_path_ends_with_name(&self, i: int)
        requires
            self.inv(),
            0 <= i < self.len(),
        ensures
            !self.is_root(i) ==> is_suffix(self.node_name(i), self.spec_path(i)),
            crate::text::byte_len(self.node_name(i)) <= crate::text::byte_len(self.spec_path(i)),
    {
        assert(self.node_wf(i));
        let name = self.node_name(i);
        let path = self.spec_path(i);
        if self.is_root(i) {
            self.lemma_root_path_of_found(i);
        } else {
            let base = self.spec_path(self.nodes@[i].parent as int);
            let sep = self.separator;
            let pre = if base.len() == 0 || base.last() == sep { base } else { base.push(sep) };
            assert(path == pre + name);
            assert(path.subrange(path.len() - name.len(), path.len() as int) =~= name);
            let pre = path.subrange(0, path.len() - name.len());
            assert(path =~= pre + name);
            crate::text::lemma_encode_concat(pre, name);
        }
    }

    /// Every chain is non-empty, starts at a root and ends at the entry.
    pub(crate) proof fn lemma_chain(&self, i: int)
        requires
            self.inv(),
            0 <= i < self.len(),
        ensures
            self.chain(i).len() > 0,
            self.chain(i).last() == i,
            self.is_root(self.chain(i)[0] as int),
            forall|j: int| 0 <= j < self.chain(i).len() ==> #[trigger] self.chain(i)[j] < self.len(),
        decreases i,
    {
        assert(self.node_wf(i));
        let p = self.nodes@[i].parent as int;
        if p != i {
            self.lemma_chain(p);
            assert(self.chain(i)[0] == self.chain(p)[0]);
        }
    }

    /// The chain of a non-root entry extends its parent's chain.
    pub(crate) proof fn lemma_chain_step(&self, i: u32)
        requires
            self.inv(),
            i < self.len(),
            !self.is_root_u(i),
        ensures
            self.nodes@[i as int].parent < i,
            self.chain_u(i) == self.chain_u(self.nodes@[i as int].parent) + seq![i],
    {
        assert(self.node_wf(i as int));
        assert(self.chain(i as int) =~= self.chain(self.nodes@[i as int].parent as int) + seq![i]);
    }

    /// The chain of a root is the root alone.
    pub(crate) proof fn lemma_chain_root(&self, i: u32)
        requires
            self.inv(),
            i < self.len(),
            self.is_root_u(i),
        ensures
            self.chain_u(i) == seq![i],
    {
        assert(self.chain(i as int) =~= seq![i]);
    }

    /// Whether entry `i` is a directory.
    pub open(crate) spec fn spec_is_dir(&self, i: int) -> bool {
        self.nodes@[i].is_dir
    }

    /// The extension of entry `i`: `None` for a directory or a name without a
    /// dot, else the text after its last dot.
    pub open(crate) spec fn spec_extension(&self, i: int) -> Option<Seq<char>> {
        extension_of(self.node_name(i), self.nodes@[i].is_dir)
    }

    /// The name of entry `id`, sliced out of the arena.
    pub(crate) fn basename_from_node(&self, id: u32) -> (s: &str)
        requires
            self.inv(),
            id < self.len(),
        ensures
            s@ == self.node_name(id as int),
            s.spec_bytes().len() == self.nodes@[id as int].name_len,
    {
        let node = &self.nodes[id as usize];
        proof { assert(self.node_wf(id as int)); }
        let s = str_slice(self.name_arena.as_str(), node.name_start, node.name_start + node.name_len as usize);
        proof {
            vstd::utf8::encode_utf8_decode_utf8(s@);
        }
        s
    }

    /// The full path of entry `id`.
    pub(crate) fn path_from_id(&self, id: u32) -> (p: String)
        requires
            self.inv(),
            id < self.len(),
        ensures
            p@ == self.spec_path(id as int),
        decreases id,
    {
        let node = &self.nodes[id as usize];
        proof { assert(self.node_wf(id as int)); }
        if node.parent == id {
            self.root_path(id)
        } else {
            let base = self.path_from_id(node.parent);
            join_path(base, self.basename_from_node(id), self.separator)
        }
    }

    /// The path of the root entry `id`.
    fn root_path(&self, id: u32) -> (p: String)
        ensures
            p@ == root_path_of(self.root_paths@, id as int),
    {
        let mut k = self.root_paths.len();
        assert(self.root_paths@.take(k as int) =~= self.root_paths@);
        while k > 0
            invariant
                k <= self.root_paths@.len(),
                root_path_of(self.root_paths@, id as int) == root_path_of(self.root_paths@.take(k as int), id as int),
            decreases k,
        {
            let ghost t = self.root_paths@.take(k as int);
            assert(t.drop_last() =~= self.root_paths@.take(k - 1));
            if self.root_paths[k - 1].id == id {
                return self.root_paths[k - 1].path.clone();
            }
            k = k - 1;
        }
        String::new()
    }
}

/// Every entry's path ends with its basename: below a root, the basename is
/// the last part of the path, and no basename is longer than its path.
pub proof fn law_path_ends_with_basename(db: &Database, id: int)
    requires
        db.inv(),
        0 <= id < db.idx().len(),
    ensures
        !db.idx().is_root(id) ==> is_suffix(db.idx().node_name(id), db.idx().spec_path(id)),
        crate::text::byte_len(db.idx().node_name(id)) <= crate::text::byte_len(db.idx().spec_path(id)),
{
    db.index.lemma_path_ends_with_name(id);
}

impl Database {
    /// The invariant of every database value.
    #[verifier::type_invariant]
    pub(crate) closed spec fn wf(&self) -> bool {
        self.inv()
    }

    pub open(crate) spec fn inv(&self) -> bool {
        &&& self.index.inv()
        &&& self.sorted_ids@.len() == NUM_STATUS_KINDS
        &&& forall|k: int| 0 <= k < NUM_STATUS_KINDS ==> ids_in_range(#[trigger] self.sorted_ids@[k], self.index.len())
        &&& forall|k: int| 0 <= k < NUM_STATUS_KINDS ==> ids_complete(#[trigger] self.sorted_ids@[k], self.index.len())
        &&& forall|kind: StatusKind| ids_sorted(#[trigger] self.sorted_ids@[kind.kind_index() as int], self.index, kind)
    }

    /// The entry tree.
    pub open(crate) spec fn idx(&self) -> Index {
        self.index
    }

    /// Number of entries.
    pub fn num_entries(&self) -> (n: usize)
        ensures
            n == self.idx().len(),
    {
        self.index.nodes.len()
    }

    /// The entry with the given id.
    pub fn entry(&self, id: EntryId) -> (e: Entry<'_>)
        requires
            id.0 < self.idx().len(),
        ensures
            e.db() == self,
            e.index() == id.0,
    {
        Entry { database: self, id }
    }

    /// The root entries, in increasing id order.
    pub fn root_entries(&self) -> (v: Vec<Entry<'_>>)
        ensures
            v@.len() == self.idx().num_roots(),
            forall|k: int| 0 <= k < v@.len() ==> (#[trigger] v@[k]).db() == self
                && v@[k].index() == self.idx().root_id(k),
    {
        proof { use_type_invariant(self); }
        let mut v: Vec<Entry<'_>> = Vec::new();
        let mut k: usize = 0;
        while k < self.index.root_paths.len()
            invariant
                self.index.inv(),
                k <= self.index.root_paths@.len(),
                v@.len() == k,
                forall|j: int| 0 <= j < k ==> (#[trigger] v@[j]).db() == self
                    && v@[j].index() == self.idx().root_id(j),
            decreases self.index.root_paths@.len() - k,
        {
            let id = self.index.root_paths[k].id;
            proof { let r = self.index.root_paths@[k as int]; }
            v.push(self.entry(EntryId(id)));
            k = k + 1;
        }
        v
    }

    /// Whether the status is stored in the index. Names, paths and
    /// extensions always are.
    pub open(crate) spec fn spec_is_indexed(&self, kind: StatusKind) -> bool {
        match kind {
            StatusKind::Basename | StatusKind::Path | StatusKind::Extension => true,
            StatusKind::Size => self.index.size is Some,
            StatusKind::Mode => self.index.mode is Some,
            StatusKind::Created => self.index.created is Some,
            StatusKind::Modified => self.index.modified is Some,
            StatusKind::Accessed => self.index.accessed is Some,
        }
    }

    /// Whether the status is stored in the index.
    pub fn is_indexed(&self, kind: StatusKind) -> (r: bool)
        ensures
            r == self.spec_is_indexed(kind),
    {
        match kind {
            StatusKind::Basename | StatusKind::Path | StatusKind::Extension => true,
            StatusKind::Size => self.index.size.is_some(),
            StatusKind::Mode => self.index.mode.is_some(),
            StatusKind::Created => self.index.created.is_some(),
            StatusKind::Modified => self.index.modified.is_some(),
            StatusKind::Accessed => self.index.accessed.is_some(),
        }
    }

    /// Whether a presorted order of all entries is stored for the status.
    pub open(crate) spec fn spec_is_fast_sortable(&self, kind: StatusKind) -> bool {
        self.sorted_ids@[kind.kind_index() as int] is Some
    }

    /// The presorted ids for the status (empty when there are none).
    pub open(crate) spec fn spec_sorted_ids(&self, kind: StatusKind) -> Seq<u32> {
        match self.sorted_ids@[kind.kind_index() as int] {
            Some(v) => v@,
            None => Seq::empty(),
        }
    }

    /// Whether a presorted order of all entries is stored for the status.
    pub fn is_fast_sortable(&self, kind: StatusKind) -> (r: bool)
        ensures
            r == self.spec_is_fast_sortable(kind),
    {
        proof { use_type_invariant(self); }
        self.sorted_ids[kind.index()].is_some()
    }

}

/// The extension of a name: `None` for a directory or a name without a dot,
/// else the text after its last dot.
pub open spec fn extension_of(name: Seq<char>, is_dir: bool) -> Option<Seq<char>> {
    if is_dir || !name.contains('.') {
        None
    } else {
        Some(name.subrange(last_index_of(name, '.') + 1, name.len() as int))
    }
}

/// The position of the last occurrence of `c` in `s`, or -1.
pub open spec fn last_index_of(s: Seq<char>, c: char) -> int
    decreases s.len(),
{
    if s.len() == 0 {
        -1
    } else if s.last() == c {
        s.len() - 1
    } else {
        last_index_of(s.drop_last(), c)
    }
}

/// A convenience view of one entry of a database.
pub struct Entry<'a> {
    pub(crate) database: &'a Database,
    pub(crate) id: EntryId,
}

impl<'a> Entry<'a> {
    #[verifier::type_invariant]
    pub(crate) closed spec fn wf(&self) -> bool {
        self.id.0 < self.database.index.len()
    }

    pub open(crate) spec fn index(&self) -> int {
        self.id.0 as int
    }

    /// The database the entry belongs to.
    pub open(crate) spec fn db(&self) -> &'a Database {
        self.database
    }

    /// The full path ends with the basename, so its UTF-8 length is at least
    /// the basename's.
    pub(crate) fn lemma_path_ends_with_name(&self)
        ensures
            crate::text::byte_len(self.spec_basename()) <= crate::text::byte_len(self.spec_path()),
    {
        proof {
            use_type_invariant(self);
            use_type_invariant(self.database);
            self.database.index.lemma_path_ends_with_name(self.index());
        }
    }

    /// The id of the entry.
    pub fn id(&self) -> (id: EntryId)
        ensures
            id.0 == self.index(),
    {
        self.id
    }

    /// The name of the entry.
    pub open(crate) spec fn spec_basename(&self) -> Seq<char> {
        self.db().idx().node_name(self.index())
    }

    /// The full path of the entry.
    pub open(crate) spec fn spec_path(&self) -> Seq<char> {
        self.db().idx().spec_path(self.index())
    }

    /// Whether the entry is a directory.
    pub fn is_dir(&self) -> (r: bool)
        ensures
            r == self.db().idx().spec_is_dir(self.index()),
    {
        proof { use_type_invariant(self); }
        self.database.index.nodes[self.id.0 as usize].is_dir
    }

    /// The children of the entry, in id order.
    pub fn children(&self) -> (v: Vec<Entry<'a>>)
        ensures
            v@.len() == self.db().idx().child_end(self.index()) - self.db().idx().child_start(self.index()),
            forall|k: int| 0 <= k < v@.len() ==> (#[trigger] v@[k]).db() == self.db()
                && v@[k].index() == self.db().idx().child_start(self.index()) + k,
    {
        proof {
            use_type_invariant(self);
            use_type_invariant(self.database);
            assert(self.database.index.node_wf(self.index()));
        }
        let node = &self.database.index.nodes[self.id.0 as usize];
        let mut v: Vec<Entry<'a>> = Vec::new();
        let mut c = node.child_start;
        while c < node.child_end
            invariant
                self.database.inv(),
                node == self.database.index.nodes@[self.index()],
                self.index() < self.database.index.len(),
                node.child_start == node.child_end || (node.child_start < node.child_end <= self.database.index.len()),
                node.child_start <= c,
                node.child_start < node.child_end ==> c <= node.child_end,
                node.child_start == node.child_end ==> c == node.child_start,
                v@.len() == c - node.child_start,
                forall|k: int| 0 <= k < v@.len() ==> (#[trigger] v@[k]).database == self.database
                    && v@[k].id.0 == node.child_start + k,
            decreases node.child_end - c,
        {
            v.push(self.database.entry(EntryId(c)));
            c = c + 1;
        }
        v
    }

    /// The name of the entry.
    pub fn basename(&self) -> (s: &'a str)
        ensures
            s@ == self.spec_basename(),
            s.spec_bytes().len() == self.db().idx().name_len(self.index()),
    {
        proof { use_type_invariant(self); use_type_invariant(self.database); }
        self.database.index.basename_from_node(self.id.0)
    }

    /// The full path of the entry.
    pub fn path(&self) -> (p: String)
        ensures
            p@ == self.spec_path(),
    {
        proof { use_type_invariant(self); use_type_invariant(self.database); }
        self.database.index.path_from_id(self.id.0)
    }

    /// The extension: `None` for a directory or a name without a dot.
    pub fn extension(&self) -> (r: Option<&'a str>)
        ensures
            r matches Some(s) ==> self.db().idx().spec_extension(self.index()) == Some(s@),
            r is None ==> self.db().idx().spec_extension(self.index()) is None,
    {
        proof { use_type_invariant(self); use_type_invariant(self.database); }
        if self.database.index.nodes[self.id.0 as usize].is_dir {
            return None;
        }
        let name = self.database.index.basename_from_node(self.id.0);
        match rsplit_once_char(name, '.') {
            Some((before, after)) => {
                proof { lemma_last_index_split(before@, after@, '.'); }
                Some(after)
            },
            None => None,
        }
    }

    /// The indexed size (for a directory, its number of children), or
    /// `None` when sizes are not indexed.
    pub fn size(&self) -> (r: Option<u64>)
        ensures
            r == self.db().idx().spec_size(self.index()),
    {
        proof { use_type_invariant(self); use_type_invariant(self.database); }
        match &self.database.index.size {
            Some(v) => Some(v[self.id.0 as usize]),
            None => None,
        }
    }

    /// The indexed mode, or `None` when modes are not indexed.
    pub fn mode(&self) -> (r: Option<Mode>)
        ensures
            r == self.db().idx().spec_mode(self.index()),
    {
        proof { use_type_invariant(self); use_type_invariant(self.database); }
        match &self.database.index.mode {
            Some(v) => Some(v[self.id.0 as usize]),
            None => None,
        }
    }

    /// The indexed creation time, or `None` when it is not indexed.
    pub fn created(&self) -> (r: Option<FileTime>)
        ensures
            r == self.db().idx().spec_created(self.index()),
    {
        proof { use_type_invariant(self); use_type_invariant(self.database); }
        match &self.database.index.created {
            Some(v) => Some(v[self.id.0 as usize]),
            None => None,
        }
    }

    /// The indexed modification time, or `None` when it is not indexed.
    pub fn modified(&self) -> (r: Option<FileTime>)
        ensures
            r == self.db().idx().spec_modified(self.index()),
    {
        proof { use_type_invariant(self); use_type_invariant(self.database); }
        match &self.database.index.modified {
            Some(v) => Some(v[self.id.0 as usize]),
            None => None,
        }
    }

    /// The indexed access time, or `None` when it is not indexed.
    pub fn accessed(&self) -> (r: Option<FileTime>)
        ensures
            r == self.db().idx().spec_accessed(self.index()),
    {
        proof { use_type_invariant(self); use_type_invariant(self.database); }
        match &self.database.index.accessed {
            Some(v) => Some(v[self.id.0 as usize]),
            None => None,
        }
    }
}

/// With strictly increasing ids, the lookup finds the entry holding the id.
pub(crate) proof fn lemma_root_path_of_unique(roots: Seq<RootPath>, k: int)
    requires
        0 <= k < roots.len(),
        forall|a: int, b: int| 0 <= a < b < roots.len() ==> (#[trigger] roots[a]).id < (#[trigger] roots[b]).id,
    ensures
        root_path_of(roots, roots[k].id as int) == roots[k].path@,
    decreases roots.len(),
{
    if k < roots.len() - 1 {
        assert(roots[k].id < roots.last().id);
        let r = roots.drop_last();
        assert forall|a: int, b: int| 0 <= a < b < r.len() implies (#[trigger] r[a]).id < (#[trigger] r[b]).id by {
            assert(r[a] == roots[a]);
            assert(r[b] == roots[b]);
        }
        assert(r[k] == roots[k]);
        lemma_root_path_of_unique(r, k);
    }
}

/// Splitting at the last occurrence of `c` puts it at `last_index_of`.
pub proof fn lemma_last_index_split(a: Seq<char>, b: Seq<char>, c: char)
    requires
        !b.contains(c),
    ensures
        ({
            let s = a + seq![c] + b;
            &&& s.contains(c)
            &&& last_index_of(s, c) == a.len()
            &&& s.subrange(a.len() + 1 as int, s.len() as int) == b
        }),
    decreases b.len(),
{
    let s = a + seq![c] + b;
    assert(s[a.len() as int] == c);
    if b.len() == 0 {
        assert(s.last() == c);
    } else {
        assert(s.drop_last() =~= a + seq![c] + b.drop_last());
        assert(b.last() != c) by { assert(b.contains(b.last()) || true); if b.last() == c { assert(b[b.len() - 1] == c); } }
        lemma_last_index_split(a, b.drop_last(), c);
    }
    assert(s.subrange(a.len() + 1 as int, s.len() as int) =~= b);
}

} // verus!
