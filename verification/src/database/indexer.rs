//! Building the index from scanned file trees.
//!
//! Reading the file system is left to the caller, who hands over each root
//! as a [`DirEntry`] tree. The indexer stores every visible entry below the
//! root: the children of an entry occupy one contiguous block of ids, those
//! with children of their own first, and names are interned in one arena.

use vstd::prelude::*;
use vstd::multiset::Multiset;
use vstd::string::StringSliceAdditionalSpecFns;
use vstd::utf8::*;
use crate::database::{Index, EntryNode, StatusFlags, FileTime, RootPath};
use crate::mode::Mode;
use crate::text::{byte_len, byte_length, str_slice, str_eq};
use crate::Error;

verus! {

/// What to index.
pub struct IndexOptions {
    /// The statuses stored for every entry.
    pub index_flags: StatusFlags,
    /// Whether hidden entries (and everything below them) are skipped.
    pub ignore_hidden: bool,
}

impl Default for IndexOptions {
    /// Names, paths and extensions are indexed; hidden entries are kept.
    fn default() -> (o: Self)
        ensures
            o.index_flags.basename && o.index_flags.path && o.index_flags.extension,
            !o.index_flags.size && !o.index_flags.mode && !o.index_flags.created,
            !o.index_flags.modified && !o.index_flags.accessed,
            !o.ignore_hidden,
    {
        IndexOptions {
            index_flags: StatusFlags {
                basename: true,
                path: true,
                extension: true,
                size: false,
                mode: false,
                created: false,
                modified: false,
                accessed: false,
            },
            ignore_hidden: false,
        }
    }
}

impl IndexOptions {
    /// Whether anything but the name and the kind of an entry must be read
    /// from the file system: a mode or a time is indexed, or the size of a
    /// file (that of a directory is its number of items).
    pub fn needs_metadata(&self, is_dir: bool) -> (r: bool)
        ensures
            r == ((!is_dir && self.index_flags.size) || self.index_flags.mode || self.index_flags.created
                || self.index_flags.modified || self.index_flags.accessed),
    {
        let f = &self.index_flags;
        (!is_dir && f.size) || f.mode || f.created || f.modified || f.accessed
    }
}

/// Whether an entry is hidden: its name starts with a dot, or, where the
/// file system has attributes (Windows), the hidden attribute is set.
pub fn is_hidden(name: &str, attributes: Option<Mode>) -> (r: bool)
    ensures
        r == ((attributes matches Some(m) && crate::mode::spec_has_flag(m.0, crate::mode::FILE_ATTRIBUTE_HIDDEN))
            || (name@.len() > 0 && name@[0] == '.')),
{
    let by_attribute = match attributes {
        Some(m) => m.is_hidden(),
        None => false,
    };
    if by_attribute {
        return true;
    }
    match crate::text::split_first_char(name) {
        Some((c, _)) => c == '.',
        None => false,
    }
}

/// The statuses of a file as read from the file system. Fields of statuses
/// that are not indexed are never read and may hold anything.
#[derive(Clone, Copy, Debug)]
pub struct Metadata {
    pub size: u64,
    pub mode: Mode,
    pub created: FileTime,
    pub modified: FileTime,
    pub accessed: FileTime,
}

impl Default for Metadata {
    fn default() -> (m: Self)
        ensures
            m.size == 0,
            m.mode.0 == 0,
            m.created == (FileTime { secs: 0, nanos: 0 }),
            m.modified == (FileTime { secs: 0, nanos: 0 }),
            m.accessed == (FileTime { secs: 0, nanos: 0 }),
    {
        Metadata {
            size: 0,
            mode: Mode(0),
            created: FileTime { secs: 0, nanos: 0 },
            modified: FileTime { secs: 0, nanos: 0 },
            accessed: FileTime { secs: 0, nanos: 0 },
        }
    }
}

/// A scanned file or directory.
pub struct DirEntry {
    /// The file name.
    pub name: String,
    pub is_dir: bool,
    /// Whether the entry counts as hidden on this platform.
    pub is_hidden: bool,
    pub metadata: Metadata,
    /// The entries of a directory that could be read, hidden ones included.
    pub children: Vec<DirEntry>,
    /// The number of entries the directory listing held, including those
    /// that could not be read; it is stored as the size of a directory.
    pub num_children: u64,
}

/// The size stored for an entry: for a directory, its number of children.
pub open spec fn stored_size(e: DirEntry) -> u64 {
    if e.is_dir { e.num_children } else { e.metadata.size }
}

/// Turns a time read from the file system into a stored time: a time before
/// the Unix epoch (given as `None`) becomes the epoch itself.
pub fn sanitize_system_time(since_epoch: Option<FileTime>) -> (t: FileTime)
    ensures
        t == match since_epoch {
            Some(d) => d,
            None => FileTime { secs: 0, nanos: 0 },
        },
{
    match since_epoch {
        Some(d) => d,
        None => FileTime { secs: 0, nanos: 0 },
    }
}

impl IndexOptions {
    /// Whether an entry is stored: hidden ones are skipped when asked to.
    pub open spec fn is_visible(&self, e: DirEntry) -> bool {
        !(self.ignore_hidden && e.is_hidden)
    }

    /// Whether a directory has at least one stored child.
    pub open spec fn has_visible_child(&self, e: DirEntry) -> bool {
        exists|j: int| 0 <= j < e.children@.len() && self.is_visible(#[trigger] e.children@[j])
    }

    /// Whether an entry is stored with children of its own.
    pub open spec fn is_internal(&self, e: DirEntry) -> bool {
        e.is_dir && self.has_visible_child(e)
    }

    /// The positions in `s` of the stored entries that have (`internal`) or
    /// have not children of their own, in order.
    pub open spec fn select(&self, s: Seq<DirEntry>, internal: bool) -> Seq<usize>
        decreases s.len(),
    {
        if s.len() == 0 {
            Seq::empty()
        } else {
            let rest = self.select(s.drop_last(), internal);
            if self.is_visible(s.last()) && self.is_internal(s.last()) == internal {
                rest.push((s.len() - 1) as usize)
            } else {
                rest
            }
        }
    }

    /// The positions of the children of `e` in the order they are stored:
    /// those with children of their own first.
    pub open spec fn kid_positions(&self, e: DirEntry) -> Seq<usize> {
        if e.is_dir {
            self.select(e.children@, true) + self.select(e.children@, false)
        } else {
            Seq::empty()
        }
    }

    /// Whether entry `id` of the index holds the data of `e`.
    pub open spec fn data_at(&self, idx: Index, id: int, e: DirEntry) -> bool {
        &&& idx.spec_is_dir(id) == e.is_dir
        &&& (idx.spec_size(id) matches Some(s) ==> s == stored_size(e))
        &&& (idx.spec_mode(id) matches Some(m) ==> m == e.metadata.mode)
        &&& (idx.spec_created(id) matches Some(t) ==> t == e.metadata.created)
        &&& (idx.spec_modified(id) matches Some(t) ==> t == e.metadata.modified)
        &&& (idx.spec_accessed(id) matches Some(t) ==> t == e.metadata.accessed)
    }

    /// Whether entry `id` holds the name and data of `e`.
    pub open spec fn stored_at(&self, idx: Index, id: int, e: DirEntry) -> bool {
        idx.node_name(id) == e.name@ && self.data_at(idx, id, e)
    }

    /// Whether the children of `e`, and everything below them, are stored
    /// below entry `id`: its children block holds them in stored order, and
    /// all of their blocks lie within ids `lo..hi`.
    pub open spec fn stored_below(&self, idx: Index, id: int, e: DirEntry, lo: int, hi: int) -> bool
        decreases e,
    {
        let ks = self.kid_positions(e);
        let cs = idx.child_start(id);
        &&& (ks.len() == 0 ==> cs == idx.child_end(id))
        &&& (ks.len() > 0 ==> lo <= cs && cs + ks.len() <= hi && idx.child_end(id) == cs + ks.len())
        &&& forall|k: int| 0 <= k < ks.len() && ks[k] < e.children@.len() ==> {
            &&& self.stored_at(idx, cs + k, #[trigger] e.children@[ks[k] as int])
            &&& self.stored_below(idx, cs + k, e.children@[ks[k] as int], lo, hi)
        }
    }

    /// The number of entries stored below `e`: its stored children, and
    /// what is stored below each of them that has children of its own.
    pub open spec fn below_count(&self, e: DirEntry) -> nat
        decreases e, 1int, 0int,
    {
        if e.is_dir { self.kid_positions(e).len() + self.internal_count_from(e, 0) } else { 0 }
    }

    /// The entries stored below the children of `e` with children of their
    /// own, from the `k`-th of those children on.
    pub open spec fn internal_count_from(&self, e: DirEntry, k: int) -> nat
        decreases e, 0int, self.select(e.children@, true).len() - k,
    {
        let ps = self.select(e.children@, true);
        if k < 0 || k >= ps.len() {
            0
        } else {
            let below = if ps[k] < e.children@.len() { self.below_count(e.children@[ps[k] as int]) } else { 0 };
            below + self.internal_count_from(e, k + 1)
        }
    }

    /// The bytes of the names stored below `e`, counting each name once for
    /// every entry that bears it.
    pub open spec fn below_bytes(&self, e: DirEntry) -> nat
        decreases e, 1int, 0int,
    {
        if e.is_dir { self.kid_names_bytes_from(e, 0) + self.internal_bytes_from(e, 0) } else { 0 }
    }

    /// The bytes of the names of the stored children of `e`, from the
    /// `k`-th in stored order on.
    pub open spec fn kid_names_bytes_from(&self, e: DirEntry, k: int) -> nat
        decreases self.kid_positions(e).len() - k,
    {
        let ks = self.kid_positions(e);
        if k < 0 || k >= ks.len() {
            0
        } else {
            let here = if ks[k] < e.children@.len() { byte_len(e.children@[ks[k] as int].name@) } else { 0 };
            here + self.kid_names_bytes_from(e, k + 1)
        }
    }

    /// The bytes of the names stored below the children of `e` with children
    /// of their own, from the `k`-th of those children on.
    pub open spec fn internal_bytes_from(&self, e: DirEntry, k: int) -> nat
        decreases e, 0int, self.select(e.children@, true).len() - k,
    {
        let ps = self.select(e.children@, true);
        if k < 0 || k >= ps.len() {
            0
        } else {
            let below = if ps[k] < e.children@.len() { self.below_bytes(e.children@[ps[k] as int]) } else { 0 };
            below + self.internal_bytes_from(e, k + 1)
        }
    }

    /// Whether every name stored below `e` fits in a name span
    /// (`u16::MAX` bytes).
    pub open spec fn names_fit(&self, e: DirEntry) -> bool
        decreases e,
    {
        let ks = self.kid_positions(e);
        forall|k: int| 0 <= k < ks.len() && ks[k] < e.children@.len() ==> {
            &&& byte_len((#[trigger] e.children@[ks[k] as int]).name@) <= u16::MAX
            &&& self.names_fit(e.children@[ks[k] as int])
        }
    }

    /// Whether an index of `len` entries and `arena_len` name bytes has room
    /// for everything below `e`: the ids, the name spans and the arena.
    pub open spec fn room_below(&self, len: int, arena_len: int, e: DirEntry) -> bool {
        &&& len + self.below_count(e) + 1 <= u32::MAX
        &&& self.names_fit(e)
        &&& arena_len + self.below_bytes(e) <= usize::MAX
    }

    /// Whether an index of `len` entries and `arena_len` name bytes has room
    /// for a root scanned at `path`: its own entry, named after the last
    /// component of `path`, and everything below it.
    pub open spec fn room_for_root(&self, len: int, arena_len: int, path: Seq<char>, root: DirEntry) -> bool {
        &&& len + self.below_count(root) + 2 <= u32::MAX
        &&& byte_len(root_name(path)) <= u16::MAX
        &&& self.names_fit(root)
        &&& arena_len + byte_len(root_name(path)) + self.below_bytes(root) <= usize::MAX
    }
}

/// Both indexes store the same columns.
pub open(crate) spec fn same_column_kinds(a: Index, b: Index) -> bool {
    &&& (a.size is Some <==> b.size is Some)
    &&& (a.mode is Some <==> b.mode is Some)
    &&& (a.created is Some <==> b.created is Some)
    &&& (a.modified is Some <==> b.modified is Some)
    &&& (a.accessed is Some <==> b.accessed is Some)
}

/// Entry `j` has no children block yet.
pub open spec fn block_unset(idx: Index, j: int) -> bool {
    idx.child_start(j) == u32::MAX && idx.child_end(j) == u32::MAX
}

/// Two indexes agree on entry `j`, apart from its children block: same
/// name, kind, parent and statuses.
pub open spec fn same_data_at(a: Index, b: Index, j: int) -> bool {
    &&& a.node_name(j) == b.node_name(j)
    &&& a.spec_is_dir(j) == b.spec_is_dir(j)
    &&& a.parent(j) == b.parent(j)
    &&& a.name_len(j) == b.name_len(j)
    &&& a.spec_size(j) == b.spec_size(j)
    &&& a.spec_mode(j) == b.spec_mode(j)
    &&& a.spec_created(j) == b.spec_created(j)
    &&& a.spec_modified(j) == b.spec_modified(j)
    &&& a.spec_accessed(j) == b.spec_accessed(j)
}

/// Two indexes agree on entry `j`, its children block included.
pub open spec fn same_at(a: Index, b: Index, j: int) -> bool {
    &&& same_data_at(a, b, j)
    &&& a.child_start(j) == b.child_start(j)
    &&& a.child_end(j) == b.child_end(j)
}

/// Entry `c` is a root or lies in its parent's block of children.
pub open(crate) spec fn in_parent_block(idx: Index, c: int) -> bool {
    !idx.is_root(c) ==> idx.child_start(idx.parent(c)) <= c < idx.child_end(idx.parent(c))
}

/// No two entries of the block of entry `i` share a name.
pub open(crate) spec fn block_names_distinct(idx: Index, i: int) -> bool {
    forall|x: int, y: int| idx.child_start(i) <= x < idx.child_end(i) && idx.child_start(i) <= y < idx.child_end(i)
        && x != y ==> #[trigger] idx.node_name(x) != #[trigger] idx.node_name(y)
}

/// Every entry lies in its parent's block, and no block holds two entries
/// of one name.
pub open(crate) spec fn tidy(idx: Index) -> bool {
    &&& forall|c: int| 0 <= c < idx.len() ==> #[trigger] in_parent_block(idx, c)
    &&& forall|i: int| 0 <= i < idx.len() ==> #[trigger] block_names_distinct(idx, i)
}

/// When every entry lies in its parent's block and no block holds two
/// entries of one name, no two entries of a directory share a name.
pub proof fn lemma_tidy_names_apart(idx: Index)
    requires
        idx.inv(),
        tidy(idx),
    ensures
        idx.distinct_sibling_names(),
{
    assert forall|a: u32, b: u32| #![trigger idx.node_name_u(a), idx.node_name_u(b)]
        a < idx.len() && b < idx.len() && a != b && !idx.is_root_u(a) && !idx.is_root_u(b)
            && idx.parent_u(a) == idx.parent_u(b) implies idx.node_name_u(a) != idx.node_name_u(b) by {
        let x = a as int;
        let y = b as int;
        assert(in_parent_block(idx, x));
        assert(in_parent_block(idx, y));
        let p = idx.parent(x);
        assert(idx.node_wf(x));
        assert(block_names_distinct(idx, p));
        assert(idx.node_name(x) != idx.node_name(y));
    }
}

/// No entry but `p` itself has `p` for its parent.
pub open(crate) spec fn childless(idx: Index, p: int) -> bool {
    forall|c: int| 0 <= c < idx.len() && c != p ==> #[trigger] idx.parent(c) != p
}

impl IndexOptions {
    /// Whether, in `e` and everywhere below it, no two stored children of a
    /// directory share a name (as in a file system).
    pub open spec fn names_apart(&self, e: DirEntry) -> bool
        decreases e,
    {
        let ks = self.kid_positions(e);
        &&& forall|k1: int, k2: int| 0 <= k1 < ks.len() && 0 <= k2 < ks.len() && k1 != k2
            && ks[k1] < e.children@.len() && ks[k2] < e.children@.len()
            ==> (#[trigger] e.children@[ks[k1] as int]).name@ != (#[trigger] e.children@[ks[k2] as int]).name@
        &&& forall|k: int| 0 <= k < ks.len() && ks[k] < e.children@.len()
            ==> self.names_apart(#[trigger] e.children@[ks[k] as int])
    }

    /// Storing depends only on the entries involved: an index that agrees on
    /// `id` (apart from its block) and on the ids `lo..hi` stores the same.
    pub proof fn lemma_stored_frame(&self, a: Index, b: Index, id: int, e: DirEntry, lo: int, hi: int, lo2: int, hi2: int)
        requires
            self.stored_below(a, id, e, lo, hi),
            a.child_start(id) == b.child_start(id),
            a.child_end(id) == b.child_end(id),
            forall|j: int| lo <= j < hi ==> #[trigger] same_at(a, b, j),
            lo2 <= lo,
            hi <= hi2,
        ensures
            self.stored_below(b, id, e, lo2, hi2),
        decreases e,
    {
        let ks = self.kid_positions(e);
        let cs = a.child_start(id);
        assert forall|k: int| 0 <= k < ks.len() && ks[k] < e.children@.len() implies {
            &&& self.stored_at(b, cs + k, #[trigger] e.children@[ks[k] as int])
            &&& self.stored_below(b, cs + k, e.children@[ks[k] as int], lo2, hi2)
        } by {
            let c = e.children@[ks[k] as int];
            assert(self.stored_at(a, cs + k, c));
            assert(same_at(a, b, cs + k));
            self.lemma_stored_frame(a, b, cs + k, c, lo, hi, lo2, hi2);
        }
    }
}

/// The text of the span `start..start + len` of an arena.
pub open spec fn span_text(arena: Seq<u8>, start: int, len: int) -> Seq<char> {
    decode_utf8(arena.subrange(start, start + len))
}

/// Whether `start..start + len` lies within the arena on character
/// boundaries.
pub open spec fn span_valid(arena: Seq<u8>, start: int, len: int) -> bool {
    &&& 0 <= start
    &&& 0 <= len
    &&& start + len <= arena.len()
    &&& is_char_boundary(arena, start)
    &&& is_char_boundary(arena, start + len)
}

/// The hash of a string under `fxhash::hash64`, a fixed function of the
/// string for one build: it reads the bytes as words in the target's byte
/// order.
pub uninterp spec fn fx_hash64(s: Seq<char>) -> u64;

/// `fxhash::hash64` of a string; its result is named [`fx_hash64`].
#[verifier::external_body]
fn fx_hash(s: &str) -> (h: u64)
    ensures
        h == fx_hash64(s@),
{
    fxhash::hash64(s)
}

/// Every interned span lies on character boundaries of the arena and was
/// stored under the hash of its text.
pub open spec fn spans_consistent(spans: Multiset<(usize, u16, u64)>, arena: Seq<u8>) -> bool {
    forall|e: (usize, u16, u64)| #[trigger] spans.count(e) > 0 ==> span_valid(arena, e.0 as int, e.1 as int)
        && fx_hash64(span_text(arena, e.0 as int, e.1 as int)) == e.2
}

/// Whether the span `key` of the arena holds the text `name`.
pub fn span_matches(arena: &str, key: (usize, u16), name: &str) -> (r: bool)
    ensures
        r == (span_valid(arena.spec_bytes(), key.0 as int, key.1 as int)
            && span_text(arena.spec_bytes(), key.0 as int, key.1 as int) == name@),
{
    let (start, len) = key;
    let n = byte_length(arena);
    if start > n || (len as usize) > n - start {
        return false;
    }
    let end = start + len as usize;
    if !arena.is_char_boundary(start) || !arena.is_char_boundary(end) {
        return false;
    }
    let s = str_slice(arena, start, end);
    proof {
        encode_utf8_decode_utf8(s@);
    }
    str_eq(s, name)
}

/// The hash of the text of span `key` (0 for a span that is not valid).
pub fn span_hash(arena: &str, key: (usize, u16)) -> (h: u64)
    ensures
        span_valid(arena.spec_bytes(), key.0 as int, key.1 as int)
            ==> h == fx_hash64(span_text(arena.spec_bytes(), key.0 as int, key.1 as int)),
{
    let (start, len) = key;
    let n = byte_length(arena);
    if start > n || (len as usize) > n - start {
        return 0;
    }
    let end = start + len as usize;
    if !arena.is_char_boundary(start) || !arena.is_char_boundary(end) {
        return 0;
    }
    let s = str_slice(arena, start, end);
    proof {
        encode_utf8_decode_utf8(s@);
    }
    fx_hash(s)
}

/// The set of interned names: a `hashbrown` map from spans of the name
/// arena, without a hash builder of its own; every span is stored under the
/// hash of its text.
#[verifier::external_body]
pub struct NameSpans {
    map: hashbrown::HashMap<(usize, u16), (), ()>,
}

/// What the interned set holds: each span's start and length, with the hash
/// it was stored under.
pub uninterp spec fn name_span_set(spans: NameSpans) -> Multiset<(usize, u16, u64)>;

/// `hashbrown::HashMap::with_hasher(())`: an empty map.
#[verifier::external_body]
fn new_name_spans() -> (s: NameSpans)
    ensures
        name_span_set(s) == Multiset::<(usize, u16, u64)>::empty(),
{
    NameSpans { map: hashbrown::HashMap::with_hasher(()) }
}

/// `raw_entry().from_hash(hash, ..)`: looks among the spans stored under
/// `hash` for one whose text is `name`. What it returns is a key of the map
/// that the match closure accepts; it finds one whenever such a key is
/// stored under `hash`.
#[verifier::external_body]
fn find_span(spans: &NameSpans, hash: u64, arena: &str, name: &str) -> (r: Option<(usize, u16)>)
    requires
        spans_consistent(name_span_set(*spans), arena.spec_bytes()),
    ensures
        r matches Some(k) ==> span_valid(arena.spec_bytes(), k.0 as int, k.1 as int)
            && span_text(arena.spec_bytes(), k.0 as int, k.1 as int) == name@
            && exists|h: u64| #[trigger] name_span_set(*spans).count((k.0, k.1, h)) > 0,
        r is None ==> forall|e: (usize, u16, u64)| #[trigger] name_span_set(*spans).count(e) > 0 && e.2 == hash
            ==> span_text(arena.spec_bytes(), e.0 as int, e.1 as int) != name@,
{
    spans.map.raw_entry().from_hash(hash, |k| span_matches(arena, *k, name)).map(|(k, _)| *k)
}

/// `raw_entry_mut().from_hash(hash, ..)` and, on a vacant entry,
/// `insert_with_hasher`: stores the span `key` under `hash` unless a span
/// with the text `name` is already stored under it. When the table grows,
/// the stored spans are rehashed with the hash of their text, which is the
/// hash they were stored under.
#[verifier::external_body]
fn insert_span(spans: &mut NameSpans, hash: u64, key: (usize, u16), arena: &str, name: &str)
    requires
        spans_consistent(name_span_set(*old(spans)), arena.spec_bytes()),
        span_valid(arena.spec_bytes(), key.0 as int, key.1 as int),
        span_text(arena.spec_bytes(), key.0 as int, key.1 as int) == name@,
        fx_hash64(span_text(arena.spec_bytes(), key.0 as int, key.1 as int)) == hash,
    ensures
        (exists|e: (usize, u16, u64)| #[trigger] name_span_set(*old(spans)).count(e) > 0 && e.2 == hash
            && span_text(arena.spec_bytes(), e.0 as int, e.1 as int) == name@)
            ==> name_span_set(*final(spans)) == name_span_set(*old(spans)),
        !(exists|e: (usize, u16, u64)| #[trigger] name_span_set(*old(spans)).count(e) > 0 && e.2 == hash
            && span_text(arena.spec_bytes(), e.0 as int, e.1 as int) == name@)
            ==> name_span_set(*final(spans)) == name_span_set(*old(spans)).insert((key.0, key.1, hash)),
{
    match spans.map.raw_entry_mut().from_hash(hash, |k| span_matches(arena, *k, name)) {
        hashbrown::hash_map::RawEntryMut::Occupied(_) => {},
        hashbrown::hash_map::RawEntryMut::Vacant(v) => {
            v.insert_with_hasher(hash, key, (), |k| span_hash(arena, *k));
        },
    }
}


/// Appending text to an arena keeps every span and its text.
proof fn lemma_append_keeps_spans(a: Seq<char>, b: Seq<char>)
    ensures
        forall|s: int, l: int| #![trigger span_valid(encode_utf8(a), s, l)]
            span_valid(encode_utf8(a), s, l) ==> span_valid(encode_utf8(a + b), s, l)
                && span_text(encode_utf8(a + b), s, l) == span_text(encode_utf8(a), s, l),
{
    crate::text::lemma_encode_concat(a, b);
    assert forall|s: int, l: int| #![trigger span_valid(encode_utf8(a), s, l)]
        span_valid(encode_utf8(a), s, l) implies span_valid(encode_utf8(a + b), s, l)
            && span_text(encode_utf8(a + b), s, l) == span_text(encode_utf8(a), s, l) by {
        crate::text::lemma_boundary_append(a, b, s);
        crate::text::lemma_boundary_append(a, b, s + l);
        assert(encode_utf8(a + b).subrange(s, s + l) =~= encode_utf8(a).subrange(s, s + l));
    }
}

/// Whether some interned span of the arena holds the text `name`.
#[verifier::opaque]
pub open spec fn interned(spans: Multiset<(usize, u16, u64)>, arena: Seq<u8>, name: Seq<char>) -> bool {
    exists|e: (usize, u16, u64)| #[trigger] spans.count(e) > 0 && span_text(arena, e.0 as int, e.1 as int) == name
}

/// Appends `x` to a column that is stored.
fn push_column<T: Copy>(col: &mut Option<Vec<T>>, x: T)
    ensures
        match (*old(col), *final(col)) {
            (Some(a), Some(b)) => b@ == a@.push(x),
            (None, None) => true,
            _ => false,
        },
{
    match col {
        Some(v) => v.push(x),
        None => {},
    }
}

/// `new` is `old` with one more entry, the last: named `name`, of kind
/// `is_dir`, below `parent`, without children yet, and with the statuses of
/// `md` in the stored columns.
pub open(crate) spec fn pushed(old: Index, new: Index, name: Seq<char>, md: Metadata, is_dir: bool, parent: u32) -> bool {
    let n = old.len() as int;
    &&& new.len() == n + 1
    &&& forall|j: int| 0 <= j < n ==> #[trigger] new.nodes@[j] == old.nodes@[j]
    &&& forall|j: int| 0 <= j < n ==> #[trigger] same_at(old, new, j)
    &&& new.span_wf(n)
    &&& forall|j: int| 0 <= j < n && old.span_wf(j) ==> #[trigger] new.span_wf(j)
    &&& new.node_name(n) == name
    &&& new.nodes@[n].name_len == byte_len(name)
    &&& new.parent(n) == parent
    &&& new.child_start(n) == u32::MAX
    &&& new.child_end(n) == u32::MAX
    &&& new.spec_is_dir(n) == is_dir
    &&& (new.size is Some <==> old.size is Some)
    &&& (new.mode is Some <==> old.mode is Some)
    &&& (new.created is Some <==> old.created is Some)
    &&& (new.modified is Some <==> old.modified is Some)
    &&& (new.accessed is Some <==> old.accessed is Some)
    &&& (new.size is Some ==> new.spec_size(n) == Some(md.size))
    &&& (new.mode is Some ==> new.spec_mode(n) == Some(md.mode))
    &&& (new.created is Some ==> new.spec_created(n) == Some(md.created))
    &&& (new.modified is Some ==> new.spec_modified(n) == Some(md.modified))
    &&& (new.accessed is Some ==> new.spec_accessed(n) == Some(md.accessed))
    &&& new.root_paths == old.root_paths
    &&& new.separator == old.separator
    &&& new.arena_bytes().len() <= usize::MAX
    &&& new.columns_wf()
}

/// Pushing an entry keeps the blocks as they were, and every entry before
/// `n0` in its parent's block.
proof fn lemma_push_keeps_tidy(prev: Index, cur: Index, name: Seq<char>, md: Metadata, is_dir: bool,
    parent: u32, n0: int)
    requires
        prev.inv(),
        pushed(prev, cur, name, md, is_dir, parent),
        0 <= n0 <= prev.len(),
        forall|c: int| 0 <= c < n0 ==> #[trigger] in_parent_block(prev, c),
        forall|i: int| 0 <= i < prev.len() ==> #[trigger] block_names_distinct(prev, i),
    ensures
        forall|c: int| 0 <= c < n0 ==> #[trigger] in_parent_block(cur, c),
        forall|i: int| 0 <= i < cur.len() ==> #[trigger] block_names_distinct(cur, i),
{
    assert forall|c: int| 0 <= c < n0 implies #[trigger] in_parent_block(cur, c) by {
        assert(in_parent_block(prev, c));
        assert(prev.node_wf(c));
        assert(cur.nodes@[c] == prev.nodes@[c]);
        let q = prev.parent(c);
        if q != c {
            assert(cur.nodes@[q] == prev.nodes@[q]);
        }
    }
    assert forall|i: int| 0 <= i < cur.len() implies #[trigger] block_names_distinct(cur, i) by {
        if i < prev.len() {
            assert(block_names_distinct(prev, i));
            assert(prev.node_wf(i));
            assert(cur.nodes@[i] == prev.nodes@[i]);
            assert forall|x: int, y: int| cur.child_start(i) <= x < cur.child_end(i) && cur.child_start(i) <= y < cur.child_end(i)
                && x != y implies #[trigger] cur.node_name(x) != #[trigger] cur.node_name(y) by {
                assert(same_at(prev, cur, x));
                assert(same_at(prev, cur, y));
            }
        }
    }
}

/// Pushing an entry below an existing one, with every root at or before its
/// parent, keeps the index well formed.
proof fn lemma_push_keeps_inv(old: Index, new: Index, name: Seq<char>, md: Metadata, is_dir: bool, parent: u32)
    requires
        old.inv(),
        pushed(old, new, name, md, is_dir, parent),
        parent < old.len(),
        forall|k: int| 0 <= k < old.root_paths@.len() ==> #[trigger] old.root_paths@[k].id <= parent,
        old.len() + 2 <= u32::MAX,
    ensures
        new.inv(),
{
    let n = old.len() as int;
    assert forall|i: int| 0 <= i < new.len() implies #[trigger] new.node_wf(i) by {
        if i < n {
            assert(old.node_wf(i));
            assert(new.nodes@[i] == old.nodes@[i]);
        }
    }
    let roots = new.root_paths@;
    assert forall|k: int| 0 <= k < roots.len() implies (#[trigger] roots[k]).id < new.len()
        && new.is_root(roots[k].id as int) by {
        assert(old.root_paths@[k] == roots[k]);
        assert(new.nodes@[roots[k].id as int] == old.nodes@[roots[k].id as int]);
    }
    assert forall|i: int| 0 <= i < new.len() && #[trigger] new.is_root(i) implies crate::database::is_root_id(roots, i) by {
        assert(i < n);
        assert(new.nodes@[i] == old.nodes@[i]);
        assert(old.is_root(i));
    }
    assert forall|k: int| 0 <= k < roots.len() implies byte_len(new.node_name((#[trigger] roots[k]).id as int))
        <= byte_len(roots[k].path@) by {
        assert(old.root_paths@[k] == roots[k]);
        assert(same_at(old, new, roots[k].id as int));
    }
    assert forall|i: int, k: int| #![trigger new.nodes@[i], roots[k]]
        0 <= i < new.len() && 0 <= k < roots.len() && !new.is_root(i)
        implies !(new.nodes@[i].parent < roots[k].id <= i) by {
        assert(old.root_paths@[k] == roots[k]);
        if i < n {
            assert(new.nodes@[i] == old.nodes@[i]);
            assert(old.nodes@[i] == old.nodes@[i]);
            assert(old.root_paths@[k] == old.root_paths@[k]);
        }
    }
    assert forall|i: int, c: int| #![trigger new.nodes@[i], new.nodes@[c]]
        0 <= i < new.len() && new.nodes@[i].child_start <= c < new.nodes@[i].child_end
        implies new.nodes@[c].parent == i by {
        if i < n {
            assert(new.nodes@[i] == old.nodes@[i]);
            assert(old.node_wf(i));
            assert(new.nodes@[c] == old.nodes@[c]);
            assert(old.nodes@[i] == old.nodes@[i] && old.nodes@[c] == old.nodes@[c]);
        }
    }
}

/// The index being built, with its interned names.
pub struct WalkContext {
    pub(crate) index: Index,
    pub(crate) name_spans: NameSpans,
}

impl WalkContext {
    /// The interned spans agree with the arena.
    pub open(crate) spec fn spans_ok(&self) -> bool {
        spans_consistent(name_span_set(self.name_spans), self.index.arena_bytes())
    }

    /// A context for an index without names.
    fn new(index: Index) -> (c: WalkContext)
        requires
            index.name_arena@.len() == 0,
        ensures
            c.index == index,
            c.spans_ok(),
    {
        WalkContext { index, name_spans: new_name_spans() }
    }

    /// Stores one entry below `parent_id` (which is the new entry's own id
    /// for a root). Its name is interned: when the arena already holds it,
    /// the entry shares that span. Fails, changing nothing, when the ids,
    /// the name length or the arena would overflow.
    fn push_entry(&mut self, name: &str, metadata: &Metadata, is_dir: bool, parent_id: u32) -> (r: Result<(), Error>)
        requires
            old(self).spans_ok(),
            old(self).index.inv(),
        ensures
            r is Err ==> (r matches Err(Error::IndexFull)) && *final(self) == *old(self),
            r is Err <==> (old(self).index.len() + 2 > u32::MAX || byte_len(name@) > u16::MAX
                || old(self).index.arena_bytes().len() + byte_len(name@) > usize::MAX),
            r is Ok ==> pushed(old(self).index, final(self).index, name@, *metadata, is_dir, parent_id),
            r is Ok ==> final(self).spans_ok(),
            r is Ok && interned(name_span_set(old(self).name_spans), old(self).index.arena_bytes(), name@)
                ==> final(self).index.name_arena@ == old(self).index.name_arena@,
            r is Ok && !interned(name_span_set(old(self).name_spans), old(self).index.arena_bytes(), name@)
                ==> final(self).index.name_arena@ == old(self).index.name_arena@ + name@,
            r is Ok ==> interned(name_span_set(final(self).name_spans), final(self).index.arena_bytes(), name@),
            r is Ok ==> final(self).index.arena_bytes().len() <= old(self).index.arena_bytes().len() + byte_len(name@),
    {
        let name_bytes = byte_length(name);
        let arena_len = byte_length(self.index.name_arena.as_str());
        if self.index.nodes.len() >= 0xffff_fffe || name_bytes > 0xffff || arena_len > usize::MAX - name_bytes {
            return Err(Error::IndexFull);
        }
        let name_len = name_bytes as u16;
        let ghost old_index = self.index;
        proof {
            assert forall|j: int| 0 <= j < old_index.len() implies #[trigger] old_index.span_wf(j) by {
                assert(old_index.node_wf(j));
            }
        }
        let ghost a = self.index.name_arena@;
        let ghost set0 = name_span_set(self.name_spans);
        proof { reveal(interned); }
        let hash = fx_hash(name);
        let found = find_span(&self.name_spans, hash, self.index.name_arena.as_str(), name);
        let name_start = match found {
            Some((start, len)) => {
                proof {
                    crate::text::lemma_span_roundtrip(a, start as int, start + len);
                    let set = name_span_set(self.name_spans);
                    let h = choose|h: u64| #[trigger] set.count((start, len, h)) > 0;
                    assert(set.count((start, len, h)) > 0);
                }
                start
            },
            None => {
                self.index.name_arena.push_str(name);
                proof {
                    lemma_append_keeps_spans(a, name@);
                    crate::text::lemma_encode_concat(a, name@);
                    crate::text::lemma_middle_slice(a, name@, Seq::<char>::empty());
                    assert(a + name@ + Seq::<char>::empty() =~= a + name@);
                    encode_utf8_decode_utf8(name@);
                    let set = name_span_set(self.name_spans);
                    let arena = self.index.arena_bytes();
                    assert forall|e: (usize, u16, u64)| #[trigger] set.count(e) > 0 implies span_valid(arena, e.0 as int, e.1 as int)
                        && fx_hash64(span_text(arena, e.0 as int, e.1 as int)) == e.2 by {
                        assert(span_valid(encode_utf8(a), e.0 as int, e.1 as int));
                    }
                    assert(span_text(arena, arena_len as int, name_len as int) == name@);
                    assert(!interned(set, encode_utf8(a), name@)) by {
                        if interned(set, encode_utf8(a), name@) {
                            let e = choose|e: (usize, u16, u64)| #[trigger] set.count(e) > 0
                                && span_text(encode_utf8(a), e.0 as int, e.1 as int) == name@;
                            assert(fx_hash64(span_text(encode_utf8(a), e.0 as int, e.1 as int)) == e.2);
                        }
                    }
                    assert(!(exists|e: (usize, u16, u64)| #[trigger] set.count(e) > 0 && e.2 == hash
                        && span_text(arena, e.0 as int, e.1 as int) == name@)) by {
                        if exists|e: (usize, u16, u64)| #[trigger] set.count(e) > 0 && e.2 == hash
                            && span_text(arena, e.0 as int, e.1 as int) == name@ {
                            let e = choose|e: (usize, u16, u64)| #[trigger] set.count(e) > 0 && e.2 == hash
                                && span_text(arena, e.0 as int, e.1 as int) == name@;
                            assert(span_valid(encode_utf8(a), e.0 as int, e.1 as int));
                        }
                    }
                }
                insert_span(&mut self.name_spans, hash, (arena_len, name_len), self.index.name_arena.as_str(), name);
                proof {
                    let set = name_span_set(self.name_spans);
                    assert(set.count((arena_len, name_len, hash)) > 0);
                    assert(interned(set, self.index.arena_bytes(), name@));
                }
                arena_len
            },
        };
        proof {
            if let Some((start, len)) = found {
                let h = choose|h: u64| #[trigger] set0.count((start, len, h)) > 0;
                assert(set0.count((start, len, h)) > 0);
                assert(interned(set0, self.index.arena_bytes(), name@));
            }
            crate::text::lemma_encode_concat(a, name@);
        }
        proof {
            let arena = self.index.arena_bytes();
            assert forall|j: int| 0 <= j < old_index.len() && old_index.span_wf(j) implies
                span_valid(arena, old_index.nodes@[j].name_start as int, old_index.nodes@[j].name_len as int)
                && span_text(arena, old_index.nodes@[j].name_start as int, old_index.nodes@[j].name_len as int)
                    == old_index.node_name(j) by {
                if found is None {
                    assert(span_valid(encode_utf8(a), old_index.nodes@[j].name_start as int, old_index.nodes@[j].name_len as int));
                }
            }
        }
        self.index.nodes.push(EntryNode {
            name_start,
            parent: parent_id,
            child_start: u32::MAX,
            child_end: u32::MAX,
            name_len,
            is_dir,
        });
        push_column(&mut self.index.size, metadata.size);
        push_column(&mut self.index.mode, metadata.mode);
        push_column(&mut self.index.created, metadata.created);
        push_column(&mut self.index.modified, metadata.modified);
        push_column(&mut self.index.accessed, metadata.accessed);
        proof {
            let n = old_index.len() as int;
            let new = self.index;
            assert forall|j: int| 0 <= j < n implies #[trigger] same_at(old_index, new, j) by {
                assert(new.nodes@[j] == old_index.nodes@[j]);
                assert(old_index.span_wf(j));
            }
        }
        Ok(())
    }
}


impl IndexOptions {
    /// The positions chosen by [`IndexOptions::select`] are in range and
    /// name stored entries of the asked kind; without stored entries, none
    /// are chosen.
    pub proof fn lemma_select(&self, s: Seq<DirEntry>, internal: bool)
        requires
            s.len() <= usize::MAX,
        ensures
            forall|k: int| #![trigger self.select(s, internal)[k]] 0 <= k < self.select(s, internal).len() ==> {
                let p = self.select(s, internal)[k] as int;
                &&& p < s.len()
                &&& self.is_visible(s[p])
                &&& self.is_internal(s[p]) == internal
            },
            (forall|j: int| 0 <= j < s.len() ==> !self.is_visible(#[trigger] s[j])) ==> self.select(s, internal).len() == 0,
        decreases s.len(),
    {
        if s.len() > 0 {
            let r = s.drop_last();
            self.lemma_select(r, internal);
            let rest = self.select(r, internal);
            if self.is_visible(s.last()) && self.is_internal(s.last()) == internal {
                assert(self.select(s, internal) == rest.push((s.len() - 1) as usize));
            } else {
                assert(self.select(s, internal) == rest);
            }
            assert forall|k: int| #![trigger self.select(s, internal)[k]] 0 <= k < self.select(s, internal).len() implies {
                let p = self.select(s, internal)[k] as int;
                &&& p < s.len()
                &&& self.is_visible(s[p])
                &&& self.is_internal(s[p]) == internal
            } by {
                if k < rest.len() {
                    assert(self.select(s, internal)[k] == rest[k]);
                    let p = rest[k] as int;
                    assert(r[p] == s[p]);
                }
            }
            if forall|j: int| 0 <= j < s.len() ==> !self.is_visible(#[trigger] s[j]) {
                assert forall|j: int| 0 <= j < r.len() implies !self.is_visible(#[trigger] r[j]) by {
                    assert(r[j] == s[j]);
                }
                assert(!self.is_visible(s[s.len() - 1]));
            }
        }
    }

    /// An entry stored without children of its own has no stored children.
    pub proof fn lemma_leaf_has_no_kids(&self, e: DirEntry)
        requires
            !self.is_internal(e),
        ensures
            self.kid_positions(e).len() == 0,
    {
        if e.is_dir {
            assert(e.children@.len() == e.children.len());
            assert(forall|j: int| 0 <= j < e.children@.len() ==> !self.is_visible(#[trigger] e.children@[j]));
            self.lemma_select(e.children@, true);
            self.lemma_select(e.children@, false);
            assert(self.select(e.children@, true).len() == 0);
            assert(self.select(e.children@, false).len() == 0);
            assert(self.kid_positions(e) =~= self.select(e.children@, true) + self.select(e.children@, false));
        }
    }

    /// Whether the entry has a stored child.
    fn any_visible_child(&self, e: &DirEntry) -> (r: bool)
        ensures
            r == self.has_visible_child(*e),
    {
        let mut j: usize = 0;
        while j < e.children.len()
            invariant
                j <= e.children@.len(),
                forall|i: int| 0 <= i < j ==> !self.is_visible(#[trigger] e.children@[i]),
            decreases e.children@.len() - j,
        {
            if !(self.ignore_hidden && e.children[j].is_hidden) {
                assert(self.is_visible(e.children@[j as int]));
                return true;
            }
            j = j + 1;
        }
        false
    }

    /// The positions of the stored entries of `children`: those with
    /// children of their own, and the others.
    fn classify(&self, children: &Vec<DirEntry>) -> (r: (Vec<usize>, Vec<usize>))
        ensures
            r.0@ == self.select(children@, true),
            r.1@ == self.select(children@, false),
    {
        let mut internal: Vec<usize> = Vec::new();
        let mut leaves: Vec<usize> = Vec::new();
        let mut j: usize = 0;
        while j < children.len()
            invariant
                j <= children@.len(),
                internal@ == self.select(children@.take(j as int), true),
                leaves@ == self.select(children@.take(j as int), false),
            decreases children@.len() - j,
        {
            assert(children@.take(j + 1).drop_last() =~= children@.take(j as int));
            let c = &children[j];
            if !(self.ignore_hidden && c.is_hidden) {
                if c.is_dir && self.any_visible_child(c) {
                    internal.push(j);
                } else {
                    leaves.push(j);
                }
            }
            j = j + 1;
        }
        assert(children@.take(children@.len() as int) =~= children@);
        (internal, leaves)
    }
}

/// The statuses stored for an entry: its metadata, with the number of
/// children as the size of a directory.
fn stored_metadata(e: &DirEntry) -> (m: Metadata)
    ensures
        m.size == stored_size(*e),
        m.mode == e.metadata.mode,
        m.created == e.metadata.created,
        m.modified == e.metadata.modified,
        m.accessed == e.metadata.accessed,
{
    Metadata {
        size: if e.is_dir { e.num_children } else { e.metadata.size },
        mode: e.metadata.mode,
        created: e.metadata.created,
        modified: e.metadata.modified,
        accessed: e.metadata.accessed,
    }
}

/// Setting the block of an entry to the run of its children, pushed last
/// and named apart, when no other entry has it for a parent, puts every
/// entry in its parent's block and keeps every block's names apart.
proof fn lemma_set_block_keeps_tidy(old: Index, new: Index, p: int, cs: int, ce: int)
    requires
        old.inv(),
        new.inv(),
        0 <= p < cs <= ce,
        ce == old.len(),
        new.len() == old.len(),
        forall|j: int| 0 <= j < new.len() && j != p ==> #[trigger] same_at(old, new, j),
        same_data_at(old, new, p),
        new.child_start(p) == cs,
        new.child_end(p) == ce,
        old.child_start(p) == old.child_end(p),
        forall|c: int| cs <= c < ce ==> #[trigger] old.parent(c) == p,
        forall|c: int| 0 <= c < cs && c != p ==> #[trigger] old.parent(c) != p,
        forall|c: int| 0 <= c < cs ==> #[trigger] in_parent_block(old, c),
        forall|i: int| 0 <= i < old.len() ==> #[trigger] block_names_distinct(old, i),
        forall|x: int, y: int| cs <= x < ce && cs <= y < ce && x != y ==> #[trigger] old.node_name(x) != #[trigger] old.node_name(y),
    ensures
        tidy(new),
{
    assert forall|c: int| 0 <= c < new.len() implies #[trigger] in_parent_block(new, c) by {
        if c < cs {
            assert(in_parent_block(old, c));
            assert(old.node_wf(c));
            if c != p {
                assert(same_at(old, new, c));
            }
            let q = old.parent(c);
            if q != c {
                assert(q != p);
                assert(same_at(old, new, q));
            }
        } else {
            assert(same_at(old, new, c));
        }
    }
    assert forall|i: int| 0 <= i < new.len() implies #[trigger] block_names_distinct(new, i) by {
        if i != p {
            assert(block_names_distinct(old, i));
            assert(old.node_wf(i));
            assert(same_at(old, new, i));
            assert forall|x: int, y: int| new.child_start(i) <= x < new.child_end(i) && new.child_start(i) <= y < new.child_end(i)
                && x != y implies #[trigger] new.node_name(x) != #[trigger] new.node_name(y) by {
                if x != p { assert(same_at(old, new, x)); }
                if y != p { assert(same_at(old, new, y)); }
            }
        } else {
            assert forall|x: int, y: int| new.child_start(i) <= x < new.child_end(i) && new.child_start(i) <= y < new.child_end(i)
                && x != y implies #[trigger] new.node_name(x) != #[trigger] new.node_name(y) by {
                assert(same_at(old, new, x));
                assert(same_at(old, new, y));
                assert(old.node_name(x) != old.node_name(y));
            }
        }
    }
}

/// Setting the children block of an entry whose block was empty to a run
/// of entries below it keeps the index well formed.
proof fn lemma_set_block_keeps_inv(old: Index, new: Index, p: int, cs: int, ce: int)
    requires
        old.inv(),
        0 <= p < old.len(),
        p < cs <= ce <= old.len(),
        old.child_start(p) == old.child_end(p),
        forall|c: int| cs <= c < ce ==> #[trigger] old.parent(c) == p,
        new.nodes@ == old.nodes@.update(p, EntryNode {
            child_start: cs as u32,
            child_end: ce as u32,
            ..old.nodes@[p]
        }),
        new.name_arena == old.name_arena,
        new.root_paths == old.root_paths,
        new.separator == old.separator,
        new.size == old.size,
        new.mode == old.mode,
        new.created == old.created,
        new.modified == old.modified,
        new.accessed == old.accessed,
    ensures
        new.inv(),
        forall|j: int| 0 <= j < new.len() && j != p ==> #[trigger] same_at(old, new, j),
        same_data_at(old, new, p),
        new.child_start(p) == cs,
        new.child_end(p) == ce,
{
    assert forall|i: int| 0 <= i < new.len() implies #[trigger] new.node_wf(i) by {
        assert(old.node_wf(i));
    }
    let roots = new.root_paths@;
    assert forall|k: int| 0 <= k < roots.len() implies (#[trigger] roots[k]).id < new.len()
        && new.is_root(roots[k].id as int) by {
        assert(old.root_paths@[k] == roots[k]);
    }
    assert forall|i: int| 0 <= i < new.len() && #[trigger] new.is_root(i) implies crate::database::is_root_id(roots, i) by {
        assert(old.is_root(i));
    }
    assert forall|k: int| 0 <= k < roots.len() implies byte_len(new.node_name((#[trigger] roots[k]).id as int))
        <= byte_len(roots[k].path@) by {
        assert(old.root_paths@[k] == roots[k]);
        assert(new.node_name(roots[k].id as int) == old.node_name(roots[k].id as int));
    }
    assert forall|i: int, k: int| #![trigger new.nodes@[i], roots[k]]
        0 <= i < new.len() && 0 <= k < roots.len() && !new.is_root(i)
        implies !(new.nodes@[i].parent < roots[k].id <= i) by {
        assert(old.root_paths@[k] == roots[k]);
        assert(old.nodes@[i].parent == new.nodes@[i].parent);
        assert(old.nodes@[i] == old.nodes@[i] && old.root_paths@[k] == old.root_paths@[k]);
    }
    assert forall|i: int, c: int| #![trigger new.nodes@[i], new.nodes@[c]]
        0 <= i < new.len() && new.nodes@[i].child_start <= c < new.nodes@[i].child_end
        implies new.nodes@[c].parent == i by {
        assert(new.node_wf(i));
        assert(old.parent(c) == new.parent(c));
        if i != p {
            assert(old.nodes@[i] == old.nodes@[i] && old.nodes@[c] == old.nodes@[c]);
        }
    }
    assert forall|j: int| 0 <= j < new.len() && j != p implies #[trigger] same_at(old, new, j) by {
        assert(new.nodes@[j] == old.nodes@[j]);
    }
}

/// Stores the children of the entry `parent_id`, which holds `e`, and
/// everything below them: first the block of children, those with children
/// of their own first, then, in order, what lies below each of those.
/// It succeeds whenever the index has room for all of it (see
/// [`IndexOptions::room_below`]).
#[verifier::spinoff_prover]
#[verifier::rlimit(40)]
fn walk_file_system(ctx: &mut WalkContext, options: &IndexOptions, parent_id: u32, e: &DirEntry) -> (r: Result<(), Error>)
    requires
        old(ctx).index.inv(),
        old(ctx).spans_ok(),
        parent_id < old(ctx).index.len(),
        old(ctx).index.child_start(parent_id as int) == old(ctx).index.child_end(parent_id as int),
        forall|k: int| 0 <= k < old(ctx).index.root_paths@.len() ==> #[trigger] old(ctx).index.root_paths@[k].id <= parent_id,
    ensures
        r is Err ==> r matches Err(Error::IndexFull),
        r is Ok ==> {
            let a = old(ctx).index;
            let b = final(ctx).index;
            &&& b.inv()
            &&& final(ctx).spans_ok()
            &&& b.len() >= a.len()
            &&& forall|j: int| 0 <= j < a.len() && j != parent_id ==> #[trigger] same_at(a, b, j)
            &&& same_data_at(a, b, parent_id as int)
            &&& options.stored_below(b, parent_id as int, *e, a.len() as int, b.len() as int)
            &&& b.root_paths == a.root_paths
            &&& b.separator == a.separator
            &&& same_column_kinds(a, b)
            &&& b.len() == a.len() + options.below_count(*e)
            &&& b.arena_bytes().len() <= a.arena_bytes().len() + options.below_bytes(*e)
            &&& options.names_fit(*e)
            &&& forall|j: int| a.len() <= j < b.len() ==> #[trigger] b.parent(j) == parent_id || a.len() <= b.parent(j)
            &&& (tidy(a) && childless(a, parent_id as int) && options.names_apart(*e) ==> tidy(b))
        },
        options.room_below(old(ctx).index.len() as int, old(ctx).index.arena_bytes().len() as int, *e) ==> r is Ok,
    decreases e,
{
    let ghost idx0 = ctx.index;
    let ghost a0 = idx0.arena_bytes().len() as int;
    let ghost room = options.room_below(idx0.len() as int, a0, *e);
    let ghost pre = tidy(idx0) && childless(idx0, parent_id as int) && options.names_apart(*e);
    if !e.is_dir {
        proof {
            assert forall|j: int| 0 <= j < idx0.len() && j != parent_id implies #[trigger] same_at(idx0, idx0, j) by {}
        }
        return Ok(());
    }
    let (internal, leaves) = options.classify(&e.children);
    let n_internal = internal.len();
    let mut order = internal;
    let mut rest = leaves;
    order.append(&mut rest);
    let ghost ks = options.kid_positions(*e);
    proof {
        assert(e.children@.len() == e.children.len());
        options.lemma_select(e.children@, true);
        options.lemma_select(e.children@, false);
        assert(order@ == ks);
        assert forall|k: int| 0 <= k < ks.len() implies #[trigger] ks[k] < e.children@.len()
            && options.is_visible(e.children@[ks[k] as int])
            && (options.is_internal(e.children@[ks[k] as int]) <==> k < n_internal) by {
            if k < n_internal {
                assert(ks[k] == options.select(e.children@, true)[k]);
            } else {
                assert(ks[k] == options.select(e.children@, false)[k - n_internal]);
            }
        }
    }
    let n0 = ctx.index.nodes.len();
    // The block of children.
    let mut k: usize = 0;
    while k < order.len()
        invariant
            order@ == ks,
            ks == options.kid_positions(*e),
            e.is_dir,
            forall|k: int| 0 <= k < ks.len() ==> #[trigger] ks[k] < e.children@.len(),
            n0 == idx0.len(),
            parent_id < n0,
            idx0.child_start(parent_id as int) == idx0.child_end(parent_id as int),
            forall|k: int| 0 <= k < idx0.root_paths@.len() ==> #[trigger] idx0.root_paths@[k].id <= parent_id,
            k <= order@.len(),
            ctx.index.inv(),
            ctx.spans_ok(),
            ctx.index.len() == n0 + k,
            forall|j: int| 0 <= j < n0 ==> #[trigger] ctx.index.nodes@[j] == idx0.nodes@[j],
            forall|j: int| 0 <= j < n0 ==> #[trigger] same_at(idx0, ctx.index, j),
            forall|i: int| 0 <= i < k ==> {
                &&& options.stored_at(ctx.index, n0 + i, #[trigger] e.children@[ks[i] as int])
                &&& ctx.index.parent(n0 + i) == parent_id
                &&& ctx.index.child_start(n0 + i) == u32::MAX
                &&& ctx.index.child_end(n0 + i) == u32::MAX
            },
            ctx.index.root_paths == idx0.root_paths,
            ctx.index.separator == idx0.separator,
            same_column_kinds(idx0, ctx.index),
            a0 == idx0.arena_bytes().len(),
            idx0 == old(ctx).index,
            room == options.room_below(idx0.len() as int, a0, *e),
            ctx.index.arena_bytes().len() + options.kid_names_bytes_from(*e, k as int)
                <= a0 + options.kid_names_bytes_from(*e, 0),
            forall|i: int| 0 <= i < k ==> byte_len((#[trigger] e.children@[ks[i] as int]).name@) <= u16::MAX,
            pre == (tidy(idx0) && childless(idx0, parent_id as int) && options.names_apart(*e)),
            forall|j: int| n0 <= j < ctx.index.len() ==> #[trigger] ctx.index.parent(j) == parent_id,
            pre ==> forall|c: int| 0 <= c < n0 ==> #[trigger] in_parent_block(ctx.index, c),
            pre ==> forall|i: int| 0 <= i < ctx.index.len() ==> #[trigger] block_names_distinct(ctx.index, i),
        decreases order@.len() - k,
    {
        let c = &e.children[order[k]];
        let md = stored_metadata(c);
        let ghost prev = ctx.index;
        let ghost name_bytes = byte_len(c.name@);
        assert(options.kid_names_bytes_from(*e, k as int) == name_bytes
            + options.kid_names_bytes_from(*e, k + 1)) by {
            assert(c.name@ == e.children@[ks[k as int] as int].name@);
        }
        assert(room ==> prev.len() + 2 <= u32::MAX && name_bytes <= u16::MAX
            && prev.arena_bytes().len() + name_bytes <= usize::MAX) by {
            if room {
                assert(options.below_count(*e) >= ks.len());
                assert(options.below_bytes(*e) >= options.kid_names_bytes_from(*e, 0));
                assert(c.name@ == e.children@[ks[k as int] as int].name@);
            }
        }
        let pushed_ok = ctx.push_entry(c.name.as_str(), &md, c.is_dir, parent_id);
        if pushed_ok.is_err() {
            return pushed_ok;
        }
        proof {
            lemma_push_keeps_inv(prev, ctx.index, c.name@, md, c.is_dir, parent_id);
            let cur = ctx.index;
            assert forall|j: int| 0 <= j < n0 implies #[trigger] cur.nodes@[j] == idx0.nodes@[j] by {
                assert(cur.nodes@[j] == prev.nodes@[j]);
            }
            assert forall|j: int| 0 <= j < n0 implies #[trigger] same_at(idx0, cur, j) by {
                assert(same_at(prev, cur, j));
                assert(same_at(idx0, prev, j));
            }
            assert forall|i: int| 0 <= i < k + 1 implies {
                &&& options.stored_at(cur, n0 + i, #[trigger] e.children@[ks[i] as int])
                &&& cur.parent(n0 + i) == parent_id
                &&& cur.child_start(n0 + i) == u32::MAX
                &&& cur.child_end(n0 + i) == u32::MAX
            } by {
                if i < k {
                    assert(same_at(prev, cur, n0 + i));
                    assert(options.stored_at(prev, n0 + i, e.children@[ks[i] as int]));
                }
            }
            assert forall|j: int| n0 <= j < cur.len() implies #[trigger] cur.parent(j) == parent_id by {
                if j < prev.len() {
                    assert(same_at(prev, cur, j));
                }
            }
            if pre {
                lemma_push_keeps_tidy(prev, cur, c.name@, md, c.is_dir, parent_id, n0 as int);
            }
        }
        k = k + 1;
    }
    // The entry's block.
    let ce = n0 + order.len();
    let ghost before_set = ctx.index;
    proof {
        assert(options.kid_names_bytes_from(*e, ks.len() as int) == 0);
        assert forall|k: int| 0 <= k < n_internal implies #[trigger] ks[k] == options.select(e.children@, true)[k] by {}
        assert(before_set.nodes@[parent_id as int] == idx0.nodes@[parent_id as int]);
        assert(same_at(idx0, before_set, parent_id as int));
        assert forall|c: int| n0 <= c < ce implies #[trigger] before_set.parent(c) == parent_id by {
            let i = c - n0;
            assert(options.stored_at(before_set, n0 + i, e.children@[ks[i] as int]));
        }
    }
    let node = ctx.index.nodes[parent_id as usize];
    let new_node = EntryNode { child_start: n0 as u32, child_end: ce as u32, ..node };
    ctx.index.nodes.set(parent_id as usize, new_node);
    proof {
        lemma_set_block_keeps_inv(before_set, ctx.index, parent_id as int, n0 as int, ce as int);
        let cur = ctx.index;
        assert forall|j: int| 0 <= j < n0 && j != parent_id implies #[trigger] same_at(idx0, cur, j) by {
            assert(same_at(idx0, before_set, j));
            assert(same_at(before_set, cur, j));
        }
        assert forall|i: int| 0 <= i < ks.len() implies {
            &&& options.stored_at(cur, n0 + i, #[trigger] e.children@[ks[i] as int])
            &&& cur.parent(n0 + i) == parent_id
        } by {
            assert(options.stored_at(before_set, n0 + i, e.children@[ks[i] as int]));
            assert(same_at(before_set, cur, n0 + i));
        }
        assert forall|j: int| n0 <= j < ce implies #[trigger] block_unset(cur, j) by {
            let i = j - n0;
            assert(options.stored_at(before_set, n0 + i, e.children@[ks[i] as int]));
            assert(same_at(before_set, cur, j));
        }
        if pre {
            assert forall|c: int| 0 <= c < n0 && c != parent_id implies #[trigger] before_set.parent(c) != parent_id by {
                assert(same_at(idx0, before_set, c));
                assert(idx0.parent(c) != parent_id);
            }
            assert forall|x: int, y: int| n0 <= x < ce && n0 <= y < ce && x != y
                implies #[trigger] before_set.node_name(x) != #[trigger] before_set.node_name(y) by {
                let i1 = x - n0;
                let i2 = y - n0;
                assert(options.stored_at(before_set, n0 + i1, e.children@[ks[i1] as int]));
                assert(options.stored_at(before_set, n0 + i2, e.children@[ks[i2] as int]));
                assert(e.children@[ks[i1] as int].name@ != e.children@[ks[i2] as int].name@);
            }
            lemma_set_block_keeps_tidy(before_set, cur, parent_id as int, n0 as int, ce as int);
        }
        assert forall|j: int| n0 <= j < ce implies #[trigger] cur.parent(j) == parent_id by {
            assert(same_at(before_set, cur, j));
        }
    }
    let ghost after_set = ctx.index;
    // What lies below the children that have children of their own.
    let mut k: usize = 0;
    while k < n_internal
        invariant
            ks == options.kid_positions(*e),
            order@ == ks,
            e.is_dir,
            n_internal <= ks.len(),
            forall|k: int| 0 <= k < ks.len() ==> #[trigger] ks[k] < e.children@.len()
                && options.is_visible(e.children@[ks[k] as int])
                && (options.is_internal(e.children@[ks[k] as int]) <==> k < n_internal),
            n0 == idx0.len(),
            ce == n0 + ks.len(),
            parent_id < n0,
            forall|k: int| 0 <= k < idx0.root_paths@.len() ==> #[trigger] idx0.root_paths@[k].id <= parent_id,
            k <= n_internal,
            ctx.index.inv(),
            ctx.spans_ok(),
            ctx.index.len() >= ce,
            forall|j: int| 0 <= j < n0 && j != parent_id ==> #[trigger] same_at(idx0, ctx.index, j),
            same_data_at(idx0, ctx.index, parent_id as int),
            ctx.index.child_start(parent_id as int) == n0,
            ctx.index.child_end(parent_id as int) == ce,
            forall|i: int| 0 <= i < ks.len() ==> {
                &&& options.stored_at(ctx.index, n0 + i, #[trigger] e.children@[ks[i] as int])
                &&& ctx.index.parent(n0 + i) == parent_id
            },
            forall|j: int| n0 + k <= j < ce ==> #[trigger] block_unset(ctx.index, j),
            forall|i: int| 0 <= i < k ==> options.stored_below(ctx.index, n0 + i,
                #[trigger] e.children@[ks[i] as int], ce as int, ctx.index.len() as int),
            ctx.index.root_paths == idx0.root_paths,
            ctx.index.separator == idx0.separator,
            same_column_kinds(idx0, ctx.index),
            n_internal == options.select(e.children@, true).len(),
            forall|k: int| 0 <= k < n_internal ==> #[trigger] ks[k] == options.select(e.children@, true)[k],
            a0 == idx0.arena_bytes().len(),
            idx0 == old(ctx).index,
            room == options.room_below(idx0.len() as int, a0, *e),
            ctx.index.len() + options.internal_count_from(*e, k as int) == n0 + options.below_count(*e),
            ctx.index.arena_bytes().len() + options.internal_bytes_from(*e, k as int) <= a0 + options.below_bytes(*e),
            forall|i: int| 0 <= i < ks.len() ==> byte_len((#[trigger] e.children@[ks[i] as int]).name@) <= u16::MAX,
            forall|i: int| 0 <= i < k ==> options.names_fit(#[trigger] e.children@[ks[i] as int]),
            pre == (tidy(idx0) && childless(idx0, parent_id as int) && options.names_apart(*e)),
            forall|j: int| n0 <= j < ce ==> #[trigger] ctx.index.parent(j) == parent_id,
            forall|j: int| ce <= j < ctx.index.len() ==> n0 <= #[trigger] ctx.index.parent(j)
                && (ctx.index.parent(j) >= ce || ctx.index.parent(j) < n0 + k),
            pre ==> tidy(ctx.index),
        decreases n_internal - k,
    {
        let c = &e.children[order[k]];
        let ghost prev = ctx.index;
        let id = (n0 + k) as u32;
        proof {
            assert(block_unset(prev, n0 + k));
            assert(id == n0 + k);
            assert(ks[k as int] == options.select(e.children@, true)[k as int]);
            assert(options.internal_count_from(*e, k as int) == options.below_count(*c)
                + options.internal_count_from(*e, k + 1));
            assert(options.internal_bytes_from(*e, k as int) == options.below_bytes(*c)
                + options.internal_bytes_from(*e, k + 1));
            if room {
                assert(options.names_fit(*c));
                assert(options.room_below(prev.len() as int, prev.arena_bytes().len() as int, *c));
            }
            if pre {
                assert forall|x: int| 0 <= x < prev.len() && x != id implies #[trigger] prev.parent(x) != id by {
                    assert(prev.node_wf(x));
                }
                assert(options.names_apart(*c));
            }
        }
        let walked = walk_file_system(ctx, options, id, c);
        if walked.is_err() {
            return walked;
        }
        proof {
            let cur = ctx.index;
            assert forall|j: int| n0 <= j < ce implies #[trigger] cur.parent(j) == parent_id by {
                if j != id {
                    assert(same_at(prev, cur, j));
                } else {
                    assert(same_data_at(prev, cur, j));
                }
            }
            assert forall|j: int| ce <= j < cur.len() implies n0 <= #[trigger] cur.parent(j)
                && (cur.parent(j) >= ce || cur.parent(j) < n0 + k + 1) by {
                if j < prev.len() {
                    assert(same_at(prev, cur, j));
                    assert(n0 <= prev.parent(j));
                }
            }
            assert forall|j: int| 0 <= j < n0 && j != parent_id implies #[trigger] same_at(idx0, cur, j) by {
                assert(same_at(idx0, prev, j));
                assert(same_at(prev, cur, j));
            }
            assert(same_at(prev, cur, parent_id as int));
            assert forall|i: int| 0 <= i < ks.len() implies {
                &&& options.stored_at(cur, n0 + i, #[trigger] e.children@[ks[i] as int])
                &&& cur.parent(n0 + i) == parent_id
            } by {
                assert(options.stored_at(prev, n0 + i, e.children@[ks[i] as int]));
                if i != k {
                    assert(same_at(prev, cur, n0 + i));
                }
            }
            assert forall|j: int| n0 + k + 1 <= j < ce implies #[trigger] block_unset(cur, j) by {
                assert(block_unset(prev, j));
                assert(same_at(prev, cur, j));
            }
            assert forall|j: int| ce <= j < prev.len() implies #[trigger] same_at(prev, cur, j) by {}
            assert forall|i: int| 0 <= i < k + 1 implies options.stored_below(cur, n0 + i,
                #[trigger] e.children@[ks[i] as int], ce as int, cur.len() as int) by {
                let ci = e.children@[ks[i] as int];
                if i < k {
                    assert(options.stored_below(prev, n0 + i, ci, ce as int, prev.len() as int));
                    assert(same_at(prev, cur, n0 + i));
                    options.lemma_stored_frame(prev, cur, n0 + i, ci, ce as int, prev.len() as int,
                        ce as int, cur.len() as int);
                } else {
                    options.lemma_stored_frame(cur, cur, n0 + i, ci, prev.len() as int, cur.len() as int,
                        ce as int, cur.len() as int);
                }
            }
        }
        k = k + 1;
    }
    proof {
        let fin = ctx.index;
        assert(options.internal_count_from(*e, n_internal as int) == 0);
        assert(options.internal_bytes_from(*e, n_internal as int) == 0);
        assert forall|i: int| 0 <= i < ks.len() implies options.names_fit(#[trigger] e.children@[ks[i] as int]) by {
            if i >= n_internal {
                options.lemma_leaf_has_no_kids(e.children@[ks[i] as int]);
            }
        }
        assert forall|i: int| 0 <= i < ks.len() implies options.stored_below(fin, n0 + i,
            #[trigger] e.children@[ks[i] as int], n0 as int, fin.len() as int) by {
            let ci = e.children@[ks[i] as int];
            if i < n_internal {
                options.lemma_stored_frame(fin, fin, n0 + i, ci, ce as int, fin.len() as int,
                    n0 as int, fin.len() as int);
            } else {
                options.lemma_leaf_has_no_kids(ci);
                assert(block_unset(fin, n0 + i));
            }
        }
        assert forall|k: int| 0 <= k < ks.len() && ks[k] < e.children@.len() implies {
            &&& options.stored_at(fin, n0 + k, #[trigger] e.children@[ks[k] as int])
            &&& options.stored_below(fin, n0 + k, e.children@[ks[k] as int], n0 as int, fin.len() as int)
        } by {}
    }
    Ok(())
}


/// The final component of a path under `camino::Utf8Path::file_name`, a
/// function of the path alone under the path syntax of the target the
/// crate is built for.
pub uninterp spec fn utf8_file_name(path: Seq<char>) -> Option<Seq<char>>;

/// `camino::Utf8Path::file_name`; its result is named [`utf8_file_name`].
#[verifier::external_body]
fn file_name(path: &str) -> (r: Option<&str>)
    ensures
        match r {
            Some(n) => utf8_file_name(path@) == Some(n@),
            None => utf8_file_name(path@) is None,
        },
{
    camino::Utf8Path::new(path).file_name()
}

/// The name of a path's last component, or the whole path when it has none
/// (as for `/`).
pub open spec fn spec_basename(path: Seq<char>) -> Seq<char> {
    match utf8_file_name(path) {
        Some(n) => n,
        None => path,
    }
}

/// The name of a path's last component, or the whole path when it has none.
pub fn get_basename(path: &str) -> (r: &str)
    ensures
        r@ == spec_basename(path@),
{
    match file_name(path) {
        Some(n) => n,
        None => path,
    }
}

/// The name stored for a root: its basename, or its whole path should the
/// basename ever be longer.
pub open spec fn root_name(path: Seq<char>) -> Seq<char> {
    if byte_len(spec_basename(path)) <= byte_len(path) { spec_basename(path) } else { path }
}

/// Registering a root entry just pushed keeps the index well formed.
proof fn lemma_push_root_keeps_inv(old: Index, mid: Index, new: Index, name: Seq<char>, md: Metadata,
    is_dir: bool, path: String)
    requires
        old.inv(),
        pushed(old, mid, name, md, is_dir, old.len() as u32),
        old.len() + 2 <= u32::MAX,
        byte_len(name) <= byte_len(path@),
        new == (Index { root_paths: new.root_paths, ..mid }),
        new.root_paths@ == mid.root_paths@.push(RootPath { id: old.len() as u32, path }),
    ensures
        new.inv(),
        forall|j: int| 0 <= j < old.len() ==> #[trigger] same_at(old, new, j),
{
    let n = old.len() as int;
    assert forall|j: int| 0 <= j < n implies #[trigger] same_at(old, new, j) by {
        assert(same_at(old, mid, j));
    }
    assert forall|i: int| 0 <= i < new.len() implies #[trigger] new.node_wf(i) by {
        if i < n {
            assert(old.node_wf(i));
            assert(mid.span_wf(i));
            assert(new.nodes@[i] == old.nodes@[i]);
        } else {
            assert(mid.span_wf(n));
        }
    }
    let roots = new.root_paths@;
    let olds = old.root_paths@;
    assert forall|k: int| 0 <= k < roots.len() implies (#[trigger] roots[k]).id < new.len()
        && new.is_root(roots[k].id as int) by {
        if k < olds.len() {
            assert(olds[k] == roots[k]);
            assert(new.nodes@[roots[k].id as int] == old.nodes@[roots[k].id as int]);
        }
    }
    assert forall|k: int, l: int| 0 <= k < l < roots.len() implies (#[trigger] roots[k]).id < (#[trigger] roots[l]).id by {
        assert(roots[k] == olds[k]);
        if l < olds.len() {
            assert(roots[l] == olds[l]);
        }
    }
    assert forall|i: int| 0 <= i < new.len() && #[trigger] new.is_root(i) implies crate::database::is_root_id(roots, i) by {
        if i < n {
            assert(new.nodes@[i] == old.nodes@[i]);
            assert(old.is_root(i));
            let k = choose|k: int| 0 <= k < olds.len() && (#[trigger] olds[k]).id == i;
            assert(roots[k] == olds[k]);
        } else {
            assert(roots[roots.len() - 1].id == i);
        }
    }
    assert forall|k: int| 0 <= k < roots.len() implies byte_len(new.node_name((#[trigger] roots[k]).id as int))
        <= byte_len(roots[k].path@) by {
        if k < olds.len() {
            assert(olds[k] == roots[k]);
            assert(same_at(old, new, roots[k].id as int));
        }
    }
    assert forall|i: int, k: int| #![trigger new.nodes@[i], roots[k]]
        0 <= i < new.len() && 0 <= k < roots.len() && !new.is_root(i)
        implies !(new.nodes@[i].parent < roots[k].id <= i) by {
        assert(i < n);
        assert(new.nodes@[i] == old.nodes@[i]);
        if k < olds.len() {
            assert(olds[k] == roots[k]);
            assert(old.nodes@[i] == old.nodes@[i] && olds[k] == olds[k]);
        }
    }
    assert forall|i: int, c: int| #![trigger new.nodes@[i], new.nodes@[c]]
        0 <= i < new.len() && new.nodes@[i].child_start <= c < new.nodes@[i].child_end
        implies new.nodes@[c].parent == i by {
        if i < n {
            assert(new.nodes@[i] == old.nodes@[i]);
            assert(old.node_wf(i));
            assert(new.nodes@[c] == old.nodes@[c]);
            assert(old.nodes@[i] == old.nodes@[i] && old.nodes@[c] == old.nodes@[c]);
        }
    }
}

/// Builds an index root by root.
pub struct Indexer<'a> {
    pub(crate) options: &'a IndexOptions,
    pub(crate) ctx: WalkContext,
}

/// Whether the index stores exactly the statuses the options ask for.
pub open(crate) spec fn columns_follow(idx: Index, options: IndexOptions) -> bool {
    &&& (idx.size is Some <==> options.index_flags.size)
    &&& (idx.mode is Some <==> options.index_flags.mode)
    &&& (idx.created is Some <==> options.index_flags.created)
    &&& (idx.modified is Some <==> options.index_flags.modified)
    &&& (idx.accessed is Some <==> options.index_flags.accessed)
}

impl<'a> Indexer<'a> {
    #[verifier::type_invariant]
    closed spec fn wf(&self) -> bool {
        &&& self.ctx.index.inv()
        &&& self.ctx.spans_ok()
        &&& columns_follow(self.ctx.index, *self.options)
    }

    /// The index built so far.
    pub open(crate) spec fn spec_index(&self) -> Index {
        self.ctx.index
    }

    /// The options the indexer was made with.
    pub open(crate) spec fn spec_options(&self) -> IndexOptions {
        *self.options
    }

    /// An indexer with an empty index that stores the statuses `options`
    /// asks for.
    pub fn new(options: &'a IndexOptions) -> (ix: Indexer<'a>)
        ensures
            ix.spec_options() == *options,
            ix.spec_index().inv(),
            ix.spec_index().len() == 0,
            ix.spec_index().num_roots() == 0,
            ix.spec_index().arena_bytes().len() == 0,
            columns_follow(ix.spec_index(), *options),
    {
        let flags = &options.index_flags;
        let index = Index {
            name_arena: String::new(),
            nodes: Vec::new(),
            root_paths: Vec::new(),
            separator: crate::text::main_separator(),
            size: if flags.size { Some(Vec::new()) } else { None },
            mode: if flags.mode { Some(Vec::new()) } else { None },
            created: if flags.created { Some(Vec::new()) } else { None },
            modified: if flags.modified { Some(Vec::new()) } else { None },
            accessed: if flags.accessed { Some(Vec::new()) } else { None },
        };
        assert(index.name_arena@ =~= Seq::<char>::empty());
        Indexer { options, ctx: WalkContext::new(index) }
    }

    /// Adds the tree scanned at `path` as a new root, whose id is the
    /// number of entries so far. The root is named after the last component
    /// of `path`; `root.name` is not used. Below it, every visible entry of
    /// the tree is stored (see [`IndexOptions::stored_below`]). Fails only
    /// when the index is full, and never while it has room for the root
    /// (see [`IndexOptions::room_for_root`]); when it succeeds, the ids and
    /// the names had room (only the arena's bound is not exact, as a name
    /// that recurs is stored once).
    pub fn index(self, path: String, root: DirEntry) -> (r: Result<Indexer<'a>, Error>)
        ensures
            r is Err ==> r matches Err(Error::IndexFull),
            r matches Ok(ix) ==> {
                let a = self.spec_index();
                let b = ix.spec_index();
                let n = a.len() as int;
                let opts = self.spec_options();
                &&& ix.spec_options() == opts
                &&& b.inv()
                &&& b.len() > n
                &&& forall|j: int| 0 <= j < n ==> #[trigger] same_at(a, b, j)
                &&& b.num_roots() == a.num_roots() + 1
                &&& forall|k: int| 0 <= k < a.num_roots() ==> #[trigger] b.root_id(k) == a.root_id(k)
                    && b.root_path_at(k) == a.root_path_at(k)
                &&& b.root_id(a.num_roots() as int) == n
                &&& b.root_path_at(a.num_roots() as int) == path@
                &&& b.is_root(n)
                &&& b.node_name(n) == root_name(path@)
                &&& opts.data_at(b, n, root)
                &&& opts.stored_below(b, n, root, n + 1, b.len() as int)
                &&& b.len() == n + 1 + opts.below_count(root)
                &&& b.arena_bytes().len() <= a.arena_bytes().len() + byte_len(root_name(path@)) + opts.below_bytes(root)
                &&& n + opts.below_count(root) + 2 <= u32::MAX
                &&& byte_len(root_name(path@)) <= u16::MAX
                &&& opts.names_fit(root)
                &&& (tidy(a) && opts.names_apart(root) ==> tidy(b))
            },
            self.spec_options().room_for_root(self.spec_index().len() as int,
                self.spec_index().arena_bytes().len() as int, path@, root) ==> r is Ok,
    {
        proof { use_type_invariant(&self); }
        let Indexer { options, mut ctx } = self;
        let ghost a = ctx.index;
        let n = ctx.index.nodes.len();
        let base = get_basename(path.as_str());
        let name = if byte_length(base) <= byte_length(path.as_str()) { base } else { path.as_str() };
        let md = stored_metadata(&root);
        let ghost room = options.room_for_root(n as int, a.arena_bytes().len() as int, path@, root);
        assert(name@ == root_name(path@));
        let pushed_ok = ctx.push_entry(name, &md, root.is_dir, n as u32);
        if pushed_ok.is_err() {
            return Err(Error::IndexFull);
        }
        let ghost mid = ctx.index;
        let ghost name_view = name@;
        ctx.index.root_paths.push(RootPath { id: n as u32, path });
        proof {
            lemma_push_root_keeps_inv(a, mid, ctx.index, name_view, md, root.is_dir, ctx.index.root_paths@.last().path);
            if tidy(a) {
                lemma_push_keeps_tidy(a, mid, name_view, md, root.is_dir, n as u32, n as int);
                let ar = ctx.index;
                assert forall|c: int| 0 <= c < ar.len() implies #[trigger] in_parent_block(ar, c) by {
                    assert(in_parent_block(mid, c) || c == n);
                }
                assert forall|x: int| 0 <= x < ar.len() implies #[trigger] ar.node_name(x) == mid.node_name(x) by {
                    assert(ar.nodes@[x] == mid.nodes@[x]);
                }
                assert forall|i: int| 0 <= i < ar.len() implies #[trigger] block_names_distinct(ar, i) by {
                    assert(block_names_distinct(mid, i));
                    assert(ar.node_wf(i));
                    assert(ar.nodes@[i] == mid.nodes@[i]);
                    assert forall|x: int, y: int| ar.child_start(i) <= x < ar.child_end(i) && ar.child_start(i) <= y < ar.child_end(i)
                        && x != y implies #[trigger] ar.node_name(x) != #[trigger] ar.node_name(y) by {
                        assert(ar.node_name(x) == mid.node_name(x));
                        assert(ar.node_name(y) == mid.node_name(y));
                    }
                }
                assert forall|c: int| 0 <= c < ar.len() && c != n implies #[trigger] ar.parent(c) != n by {
                    assert(a.node_wf(c));
                    assert(same_at(a, mid, c));
                }
            }
        }
        let ghost after_root = ctx.index;
        if root.is_dir && options.any_visible_child(&root) {
            assert(room ==> options.room_below(after_root.len() as int, after_root.arena_bytes().len() as int, root));
            let walked = walk_file_system(&mut ctx, options, n as u32, &root);
            if walked.is_err() {
                return Err(Error::IndexFull);
            }
        } else {
            proof {
                options.lemma_leaf_has_no_kids(root);
                if root.is_dir {
                    assert(options.kid_positions(root) =~= options.select(root.children@, true)
                        + options.select(root.children@, false));
                    assert(options.select(root.children@, true).len() == 0);
                }
            }
        }
        proof {
            let b = ctx.index;
            assert forall|j: int| 0 <= j < n implies #[trigger] same_at(a, b, j) by {
                assert(same_at(a, after_root, j));
                if b != after_root {
                    assert(same_at(after_root, b, j));
                }
            }
        }
        Ok(Indexer { options, ctx })
    }

    /// The database of everything indexed, with no presorted orders.
    #[verifier::spinoff_prover]
    pub fn finish(self) -> (db: crate::database::Database)
        ensures
            db.idx() == self.spec_index(),
            columns_follow(db.idx(), self.spec_options()),
            forall|kind: crate::database::StatusKind| !(#[trigger] db.spec_is_fast_sortable(kind)),
    {
        proof { use_type_invariant(&self); }
        let Indexer { options: _, ctx } = self;
        let mut sorted_ids: Vec<Option<Vec<u32>>> = Vec::new();
        let mut k: usize = 0;
        while k < crate::database::NUM_STATUS_KINDS
            invariant
                k <= crate::database::NUM_STATUS_KINDS,
                sorted_ids@.len() == k,
                forall|j: int| 0 <= j < k ==> (#[trigger] sorted_ids@[j]) is None,
            decreases crate::database::NUM_STATUS_KINDS - k,
        {
            sorted_ids.push(None);
            k = k + 1;
        }
        crate::database::Database { index: ctx.index, sorted_ids }
    }
}

} // verus!
