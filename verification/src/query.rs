//! Queries: how a search pattern is turned into a regex and how it matches
//! entries.

pub mod pattern;
pub mod regex_helper;

use vstd::prelude::*;
use vstd::string::StringSliceAdditionalSpecFns;
use crate::database::{Entry, StatusKind};
use crate::query::pattern::{
    compile_regex, escape, find_ranges, is_match, parse_pattern, parsed_pattern, regex_compiles,
    regex_escape, regex_find_ranges, regex_is_match, CompiledRegex, contains_text,
};
use crate::query::regex_helper::{
    HirNode, hir_has_path_separator, hir_has_uppercase_char, hir_is_literal, spec_has_path_separator,
    spec_has_uppercase_char, spec_is_literal,
};
use crate::text::{byte_length, main_separator};
use crate::Error;

verus! {

/// When a query matches full paths rather than basenames.
#[derive(Copy, Clone, Debug, PartialEq, Eq)]
pub enum MatchPathMode {
    Always,
    Never,
    /// Only when the pattern mentions the path separator.
    Auto,
}

/// How letter case is treated.
#[derive(Copy, Clone, Debug, PartialEq, Eq)]
pub enum CaseSensitivity {
    Sensitive,
    Insensitive,
    /// Case-sensitive exactly when the pattern mentions an uppercase character.
    Smart,
}

/// Order of search results.
#[derive(Copy, Clone, Debug, PartialEq, Eq)]
pub enum SortOrder {
    Ascending,
    Descending,
}

/// Whether to match full paths, given the mode and whether the pattern
/// mentions the path separator.
pub open spec fn spec_should_match_path(mode: MatchPathMode, has_path_separator: bool) -> bool {
    match mode {
        MatchPathMode::Always => true,
        MatchPathMode::Never => false,
        MatchPathMode::Auto => has_path_separator,
    }
}

/// Whether to match case-sensitively, given the setting and whether the
/// pattern mentions an uppercase character.
pub open spec fn spec_should_be_case_sensitive(cs: CaseSensitivity, has_uppercase_char: bool) -> bool {
    match cs {
        CaseSensitivity::Sensitive => true,
        CaseSensitivity::Insensitive => false,
        CaseSensitivity::Smart => has_uppercase_char,
    }
}

/// The case and path settings: case-sensitive always, never, or (smart
/// case) exactly when the pattern mentions an uppercase character; full
/// paths matched always, never, or (auto) exactly when the pattern mentions
/// the path separator.
pub proof fn law_case_and_path_settings(upper: bool, sep: bool)
    ensures
        spec_should_be_case_sensitive(CaseSensitivity::Sensitive, upper),
        !spec_should_be_case_sensitive(CaseSensitivity::Insensitive, upper),
        spec_should_be_case_sensitive(CaseSensitivity::Smart, upper) == upper,
        spec_should_match_path(MatchPathMode::Always, sep),
        !spec_should_match_path(MatchPathMode::Never, sep),
        spec_should_match_path(MatchPathMode::Auto, sep) == sep,
{
}

/// Whether to match full paths (see [`spec_should_match_path`]).
pub fn should_match_path(match_path_mode: MatchPathMode, has_path_separator: bool) -> (r: bool)
    ensures
        r == spec_should_match_path(match_path_mode, has_path_separator),
{
    match match_path_mode {
        MatchPathMode::Always => true,
        MatchPathMode::Never => false,
        MatchPathMode::Auto => has_path_separator,
    }
}

/// Whether to match case-sensitively (see [`spec_should_be_case_sensitive`]).
pub fn should_be_case_sensitive(case_sensitivity: CaseSensitivity, has_uppercase_char: bool) -> (r: bool)
    ensures
        r == spec_should_be_case_sensitive(case_sensitivity, has_uppercase_char),
{
    match case_sensitivity {
        CaseSensitivity::Sensitive => true,
        CaseSensitivity::Insensitive => false,
        CaseSensitivity::Smart => has_uppercase_char,
    }
}

/// A compiled query.
pub struct Query {
    pub(crate) regex: CompiledRegex,
    pub(crate) match_path: bool,
    pub(crate) sort_by: StatusKind,
    pub(crate) sort_order: SortOrder,
    pub(crate) sort_dirs_before_files: bool,
    pub(crate) is_literal: bool,
    pub(crate) has_path_separator: bool,
    /// The path separator the pattern was examined for.
    pub(crate) separator: char,
}

impl Clone for Query {
    fn clone(&self) -> (r: Self)
        ensures
            r.spec_pattern() == self.spec_pattern(),
            r.spec_case_insensitive() == self.spec_case_insensitive(),
            r.spec_match_path() == self.spec_match_path(),
            r.spec_sort_by() == self.spec_sort_by(),
            r.spec_sort_order() == self.spec_sort_order(),
            r.spec_sort_dirs_before_files() == self.spec_sort_dirs_before_files(),
            r.spec_is_literal() == self.spec_is_literal(),
            r.spec_has_path_separator() == self.spec_has_path_separator(),
    {
        Query {
            regex: self.regex.clone(),
            match_path: self.match_path,
            sort_by: self.sort_by,
            sort_order: self.sort_order,
            sort_dirs_before_files: self.sort_dirs_before_files,
            is_literal: self.is_literal,
            has_path_separator: self.has_path_separator,
            separator: self.separator,
        }
    }
}

/// The ranges of the matches in a path that overlap the basename at its
/// end, moved into the basename's coordinates and clipped to it.
pub open spec fn basename_ranges_in_path(ms: Seq<(usize, usize)>, path_len: int, base_len: int) -> Seq<(usize, usize)>
    decreases ms.len(),
{
    if ms.len() == 0 {
        Seq::empty()
    } else {
        let rest = basename_ranges_in_path(ms.drop_last(), path_len, base_len);
        let m = ms.last();
        if path_len - m.1 < base_len {
            let start = if base_len - (path_len - m.0) > 0 { base_len - (path_len - m.0) } else { 0 };
            rest.push((start as usize, (base_len - (path_len - m.1)) as usize))
        } else {
            rest
        }
    }
}

/// Whether the range `m`, moved right by `off`, holds the byte `q`.
pub open spec fn covers_at(m: (usize, usize), off: int, q: int) -> bool {
    m.0 + off <= q < m.1 + off
}

/// Highlighting a basename keeps exactly the bytes of it that matches in
/// the whole path cover: every byte of the basename (the last `base_len` of
/// `path_len` bytes) inside a match of the path lies in a returned range,
/// every returned range lies within the basename, and every byte of a
/// returned range lies inside a match of the path. Ranges are in the
/// basename's coordinates, so they are moved right by `path_len - base_len`
/// to compare with the path.
pub proof fn law_basename_ranges_are_the_matched_bytes(ms: Seq<(usize, usize)>, path_len: int, base_len: int)
    requires
        0 <= base_len <= path_len <= usize::MAX,
        forall|j: int| 0 <= j < ms.len() ==> (#[trigger] ms[j]).0 <= ms[j].1 <= path_len,
    ensures
        ({
            let r = basename_ranges_in_path(ms, path_len, base_len);
            let off = path_len - base_len;
            &&& forall|j: int, q: int| 0 <= j < ms.len() && #[trigger] covers_at(ms[j], 0, q) && off <= q
                ==> exists|i: int| 0 <= i < r.len() && #[trigger] covers_at(r[i], off, q)
            &&& forall|i: int| 0 <= i < r.len() ==> (#[trigger] r[i]).0 <= r[i].1 <= base_len
            &&& forall|i: int, q: int| 0 <= i < r.len() && #[trigger] covers_at(r[i], off, q)
                ==> exists|j: int| 0 <= j < ms.len() && #[trigger] covers_at(ms[j], 0, q)
        }),
    decreases ms.len(),
{
    if ms.len() > 0 {
        let pre = ms.drop_last();
        law_basename_ranges_are_the_matched_bytes(pre, path_len, base_len);
        let r0 = basename_ranges_in_path(pre, path_len, base_len);
        let r = basename_ranges_in_path(ms, path_len, base_len);
        let off = path_len - base_len;
        let m = ms.last();
        assert(m == ms[ms.len() - 1]);
        assert forall|i: int| 0 <= i < r0.len() implies r[i] == r0[i] by {}
        assert forall|j: int, q: int| 0 <= j < ms.len() && #[trigger] covers_at(ms[j], 0, q) && off <= q
            implies exists|i: int| 0 <= i < r.len() && #[trigger] covers_at(r[i], off, q) by {
            if j < ms.len() - 1 {
                assert(pre[j] == ms[j]);
                assert(covers_at(pre[j], 0, q));
                let i = choose|i: int| 0 <= i < r0.len() && #[trigger] covers_at(r0[i], off, q);
                assert(r[i] == r0[i]);
            } else {
                assert(r[r.len() - 1] == r.last());
                assert(covers_at(r[r0.len() as int], off, q));
            }
        }
        assert forall|i: int| 0 <= i < r.len() implies (#[trigger] r[i]).0 <= r[i].1 <= base_len by {
            if i < r0.len() {
                assert(r[i] == r0[i]);
            }
        }
        assert forall|i: int, q: int| 0 <= i < r.len() && #[trigger] covers_at(r[i], off, q)
            implies exists|j: int| 0 <= j < ms.len() && #[trigger] covers_at(ms[j], 0, q) by {
            if i < r0.len() {
                assert(r[i] == r0[i]);
                assert(covers_at(r0[i], off, q));
                let j = choose|j: int| 0 <= j < pre.len() && #[trigger] covers_at(pre[j], 0, q);
                assert(ms[j] == pre[j]);
            } else {
                assert(covers_at(ms[ms.len() - 1], 0, q));
            }
        }
    }
}

/// The ranges shifted right by `offset`.
pub open spec fn shifted_ranges(ms: Seq<(usize, usize)>, offset: int) -> Seq<(usize, usize)> {
    Seq::new(ms.len(), |i: int| ((ms[i].0 + offset) as usize, (ms[i].1 + offset) as usize))
}

impl Query {
    pub open(crate) spec fn spec_pattern(&self) -> Seq<char> {
        self.regex.spec_pattern()
    }

    pub open(crate) spec fn spec_case_insensitive(&self) -> bool {
        self.regex.spec_case_insensitive()
    }

    pub open(crate) spec fn spec_match_path(&self) -> bool {
        self.match_path
    }

    pub open(crate) spec fn spec_sort_by(&self) -> StatusKind {
        self.sort_by
    }

    pub open(crate) spec fn spec_sort_order(&self) -> SortOrder {
        self.sort_order
    }

    pub open(crate) spec fn spec_sort_dirs_before_files(&self) -> bool {
        self.sort_dirs_before_files
    }

    pub open(crate) spec fn spec_is_literal(&self) -> bool {
        self.is_literal
    }

    pub open(crate) spec fn spec_has_path_separator(&self) -> bool {
        self.has_path_separator
    }

    pub open(crate) spec fn spec_separator(&self) -> char {
        self.separator
    }

    /// Whether the query's regex matches a text.
    pub open(crate) spec fn matches(&self, text: Seq<char>) -> bool {
        regex_is_match(self.spec_pattern(), self.spec_case_insensitive(), text)
    }

    /// The regex.
    pub fn regex(&self) -> (r: &CompiledRegex)
        ensures
            r.spec_pattern() == self.spec_pattern(),
            r.spec_case_insensitive() == self.spec_case_insensitive(),
    {
        &self.regex
    }

    /// Whether the query matches full paths rather than basenames.
    pub fn match_path(&self) -> (r: bool)
        ensures
            r == self.spec_match_path(),
    {
        self.match_path
    }

    /// The status to sort results by.
    pub fn sort_by(&self) -> (r: StatusKind)
        ensures
            r == self.spec_sort_by(),
    {
        self.sort_by
    }

    /// The order of results.
    pub fn sort_order(&self) -> (r: SortOrder)
        ensures
            r == self.spec_sort_order(),
    {
        self.sort_order
    }

    /// Whether directories are listed before files.
    pub fn sort_dirs_before_files(&self) -> (r: bool)
        ensures
            r == self.spec_sort_dirs_before_files(),
    {
        self.sort_dirs_before_files
    }

    /// Whether the pattern is empty.
    pub fn is_empty(&self) -> (r: bool)
        ensures
            r == (self.spec_pattern().len() == 0),
    {
        self.regex.as_str().is_empty()
    }

    /// Whether the pattern is a plain literal.
    pub fn is_literal(&self) -> (r: bool)
        ensures
            r == self.spec_is_literal(),
    {
        self.is_literal
    }

    /// Whether the pattern mentions the path separator.
    pub fn has_path_separator(&self) -> (r: bool)
        ensures
            r == self.spec_has_path_separator(),
    {
        self.has_path_separator
    }

    /// Whether the entry matches: its full path when the query matches
    /// paths, else its basename. A literal (escaped) pattern matched with
    /// case matches where the text occurs.
    pub fn is_match(&self, entry: &Entry) -> (r: bool)
        ensures
            r == if self.spec_match_path() { self.matches(entry.spec_path()) } else { self.matches(entry.spec_basename()) },
            forall|p: Seq<char>| self.spec_pattern() == #[trigger] regex_escape(p) && !self.spec_case_insensitive()
                ==> (r <==> contains_text(if self.spec_match_path() { entry.spec_path() } else { entry.spec_basename() }, p)),
    {
        if self.match_path {
            let path = entry.path();
            is_match(&self.regex, path.as_str())
        } else {
            is_match(&self.regex, entry.basename())
        }
    }

    /// The byte ranges of the basename to highlight. When the query matches
    /// paths, these are the matches in the full path that reach into the
    /// basename, clipped to it; otherwise the matches in the basename.
    pub fn basename_matches(&self, entry: &Entry) -> (r: Vec<(usize, usize)>)
        ensures
            self.spec_pattern().len() == 0 ==> r@.len() == 0,
            self.spec_pattern().len() != 0 && self.spec_match_path() ==> r@ == basename_ranges_in_path(
                regex_find_ranges(self.spec_pattern(), self.spec_case_insensitive(), entry.spec_path()),
                crate::text::byte_len(entry.spec_path()) as int,
                crate::text::byte_len(entry.spec_basename()) as int,
            ),
            self.spec_pattern().len() != 0 && !self.spec_match_path() ==> r@ == regex_find_ranges(
                self.spec_pattern(), self.spec_case_insensitive(), entry.spec_basename()),
    {
        if self.is_empty() {
            return Vec::new();
        }
        let basename = entry.basename();
        if self.match_path {
            let path = entry.path();
            let path_str = path.as_str();
            let ms = find_ranges(&self.regex, path_str);
            clip_to_basename(&ms, byte_length(path_str), byte_length(basename))
        } else {
            find_ranges(&self.regex, basename)
        }
    }

    /// The byte ranges of the full path to highlight. When the query matches
    /// paths, these are the matches in the path; otherwise the matches in the
    /// basename, moved to where the basename ends the path.
    pub fn path_matches(&self, entry: &Entry) -> (r: Vec<(usize, usize)>)
        ensures
            self.spec_pattern().len() == 0 ==> r@.len() == 0,
            self.spec_pattern().len() != 0 && self.spec_match_path() ==> r@ == regex_find_ranges(
                self.spec_pattern(), self.spec_case_insensitive(), entry.spec_path()),
            self.spec_pattern().len() != 0 && !self.spec_match_path() ==> r@ == shifted_ranges(
                regex_find_ranges(self.spec_pattern(), self.spec_case_insensitive(), entry.spec_basename()),
                crate::text::byte_len(entry.spec_path()) - crate::text::byte_len(entry.spec_basename()),
            ),
    {
        if self.is_empty() {
            return Vec::new();
        }
        let path = entry.path();
        let path_str = path.as_str();
        if self.match_path {
            find_ranges(&self.regex, path_str)
        } else {
            let basename = entry.basename();
            entry.lemma_path_ends_with_name();
            let offset = byte_length(path_str) - byte_length(basename);
            let ms = find_ranges(&self.regex, basename);
            shift_ranges(&ms, offset)
        }
    }
}

/// The ranges of matches in a path of `path_len` bytes that reach into its
/// last `base_len` bytes (the basename), in the basename's coordinates and
/// clipped to it (see [`basename_ranges_in_path`]).
pub fn clip_to_basename(ms: &Vec<(usize, usize)>, path_len: usize, base_len: usize) -> (r: Vec<(usize, usize)>)
    requires
        forall|j: int| 0 <= j < ms@.len() ==> (#[trigger] ms@[j]).0 <= ms@[j].1 <= path_len,
    ensures
        r@ == basename_ranges_in_path(ms@, path_len as int, base_len as int),
{
    let mut out: Vec<(usize, usize)> = Vec::new();
    let mut i: usize = 0;
    while i < ms.len()
        invariant
            i <= ms@.len(),
            forall|j: int| 0 <= j < ms@.len() ==> (#[trigger] ms@[j]).0 <= ms@[j].1 <= path_len,
            out@ == basename_ranges_in_path(ms@.take(i as int), path_len as int, base_len as int),
        decreases ms@.len() - i,
    {
        let (s, e) = ms[i];
        assert(ms@.take(i + 1).drop_last() =~= ms@.take(i as int));
        if path_len - e < base_len {
            out.push((base_len.saturating_sub(path_len - s), base_len - (path_len - e)));
        }
        i = i + 1;
    }
    assert(ms@.take(ms@.len() as int) =~= ms@);
    out
}

/// The ranges moved right by `offset` (see [`shifted_ranges`]).
pub fn shift_ranges(ms: &Vec<(usize, usize)>, offset: usize) -> (r: Vec<(usize, usize)>)
    requires
        forall|j: int| 0 <= j < ms@.len() ==> (#[trigger] ms@[j]).0 <= ms@[j].1 && offset + ms@[j].1 <= usize::MAX,
    ensures
        r@ == shifted_ranges(ms@, offset as int),
{
    let mut out: Vec<(usize, usize)> = Vec::new();
    let mut i: usize = 0;
    while i < ms.len()
        invariant
            i <= ms@.len(),
            forall|j: int| 0 <= j < ms@.len() ==> (#[trigger] ms@[j]).0 <= ms@[j].1 && offset + ms@[j].1 <= usize::MAX,
            out@ =~= shifted_ranges(ms@.take(i as int), offset as int),
        decreases ms@.len() - i,
    {
        let (s, e) = ms[i];
        out.push((offset + s, offset + e));
        i = i + 1;
    }
    assert(ms@.take(ms@.len() as int) =~= ms@);
    out
}

/// The syntax tree of a query pattern: the pattern itself in regex mode,
/// else the pattern with every meta-character escaped, as parsed; the
/// parser's message when it is rejected.
pub fn parse_query_pattern(pattern: &str, is_regex_enabled: bool) -> (r: Result<HirNode, Error>)
    ensures
        ({
            let src = if is_regex_enabled { pattern@ } else { regex_escape(pattern@) };
            &&& (r is Err <==> parsed_pattern(src) is None)
            &&& (r matches Ok(h) ==> parsed_pattern(src) == Some(h))
            &&& (r is Err ==> r matches Err(Error::RegexSyntax(_)))
        }),
{
    let src = if is_regex_enabled { pattern.to_owned() } else { escape(pattern) };
    match parse_pattern(src.as_str()) {
        Ok(h) => Ok(h),
        Err(msg) => Err(Error::RegexSyntax(msg)),
    }
}

/// A builder of queries.
pub struct QueryBuilder {
    pub(crate) pattern: String,
    pub(crate) match_path_mode: MatchPathMode,
    pub(crate) case_sensitivity: CaseSensitivity,
    pub(crate) is_regex_enabled: bool,
    pub(crate) sort_by: StatusKind,
    pub(crate) sort_order: SortOrder,
    pub(crate) sort_dirs_before_files: bool,
}

impl QueryBuilder {
    pub open(crate) spec fn spec_pattern(&self) -> Seq<char> { self.pattern@ }
    pub open(crate) spec fn spec_match_path_mode(&self) -> MatchPathMode { self.match_path_mode }
    pub open(crate) spec fn spec_case_sensitivity(&self) -> CaseSensitivity { self.case_sensitivity }
    pub open(crate) spec fn spec_is_regex_enabled(&self) -> bool { self.is_regex_enabled }
    pub open(crate) spec fn spec_sort_by(&self) -> StatusKind { self.sort_by }
    pub open(crate) spec fn spec_sort_order(&self) -> SortOrder { self.sort_order }
    pub open(crate) spec fn spec_sort_dirs_before_files(&self) -> bool { self.sort_dirs_before_files }

    pub open(crate) spec fn with_match_path_mode(self, v: MatchPathMode) -> Self {
        QueryBuilder { match_path_mode: v, ..self }
    }

    pub open(crate) spec fn with_case_sensitivity(self, v: CaseSensitivity) -> Self {
        QueryBuilder { case_sensitivity: v, ..self }
    }

    pub open(crate) spec fn with_is_regex_enabled(self, v: bool) -> Self {
        QueryBuilder { is_regex_enabled: v, ..self }
    }

    pub open(crate) spec fn with_sort_by(self, v: StatusKind) -> Self {
        QueryBuilder { sort_by: v, ..self }
    }

    pub open(crate) spec fn with_sort_order(self, v: SortOrder) -> Self {
        QueryBuilder { sort_order: v, ..self }
    }

    pub open(crate) spec fn with_sort_dirs_before_files(self, v: bool) -> Self {
        QueryBuilder { sort_dirs_before_files: v, ..self }
    }

    /// A builder for the pattern with the defaults: never match paths, smart
    /// case, no regex, sort by basename ascending, directories not first.
    pub fn new(pattern: &str) -> (b: Self)
        ensures
            b.spec_pattern() == pattern@,
            b.spec_match_path_mode() == MatchPathMode::Never,
            b.spec_case_sensitivity() == CaseSensitivity::Smart,
            !b.spec_is_regex_enabled(),
            b.spec_sort_by() == StatusKind::Basename,
            b.spec_sort_order() == SortOrder::Ascending,
            !b.spec_sort_dirs_before_files(),
    {
        QueryBuilder {
            pattern: pattern.to_owned(),
            match_path_mode: MatchPathMode::Never,
            case_sensitivity: CaseSensitivity::Smart,
            is_regex_enabled: false,
            sort_by: StatusKind::Basename,
            sort_order: SortOrder::Ascending,
            sort_dirs_before_files: false,
        }
    }

    /// Sets when to match paths.
    pub fn match_path_mode(&mut self, match_path_mode: MatchPathMode) -> (r: &mut Self)
        ensures
            *r == old(self).with_match_path_mode(match_path_mode),
            *final(self) == *final(r),
    {
        self.match_path_mode = match_path_mode;
        self
    }

    /// Sets how letter case is treated.
    pub fn case_sensitivity(&mut self, case_sensitivity: CaseSensitivity) -> (r: &mut Self)
        ensures
            *r == old(self).with_case_sensitivity(case_sensitivity),
            *final(self) == *final(r),
    {
        self.case_sensitivity = case_sensitivity;
        self
    }

    /// Sets whether the pattern is a regex (else it is matched literally).
    pub fn regex(&mut self, yes: bool) -> (r: &mut Self)
        ensures
            *r == old(self).with_is_regex_enabled(yes),
            *final(self) == *final(r),
    {
        self.is_regex_enabled = yes;
        self
    }

    /// Sets the status to sort by.
    pub fn sort_by(&mut self, kind: StatusKind) -> (r: &mut Self)
        ensures
            *r == old(self).with_sort_by(kind),
            *final(self) == *final(r),
    {
        self.sort_by = kind;
        self
    }

    /// Sets the order of results.
    pub fn sort_order(&mut self, order: SortOrder) -> (r: &mut Self)
        ensures
            *r == old(self).with_sort_order(order),
            *final(self) == *final(r),
    {
        self.sort_order = order;
        self
    }

    /// Sets whether directories come before files.
    pub fn sort_dirs_before_files(&mut self, yes: bool) -> (r: &mut Self)
        ensures
            *r == old(self).with_sort_dirs_before_files(yes),
            *final(self) == *final(r),
    {
        self.sort_dirs_before_files = yes;
        self
    }

    /// The regex source: the pattern itself when regex is enabled, else the
    /// pattern with all meta-characters escaped.
    pub open(crate) spec fn spec_escaped_pattern(&self) -> Seq<char> {
        if self.is_regex_enabled { self.pattern@ } else { regex_escape(self.pattern@) }
    }

    /// Compiles the query. The regex source (see
    /// [`QueryBuilder::spec_escaped_pattern`]) is parsed; the parse decides
    /// smart case and whether paths are matched in auto mode; then the regex
    /// is compiled with the resulting case setting.
    pub fn build(&self) -> (r: Result<Query, Error>)
        ensures
            ({
                let src = self.spec_escaped_pattern();
                match parsed_pattern(src) {
                    None => r matches Err(Error::RegexSyntax(_)),
                    Some(h) => {
                        let cs = spec_should_be_case_sensitive(self.spec_case_sensitivity(), spec_has_uppercase_char(h));
                        &&& (r is Ok <==> regex_compiles(src, !cs))
                        &&& (r is Err ==> r matches Err(Error::Regex(_)))
                        &&& (r matches Ok(q) ==> {
                            &&& q.spec_pattern() == src
                            &&& q.spec_case_insensitive() == !cs
                            &&& (q.spec_separator() == '/' || q.spec_separator() == '\\')
                            &&& q.spec_has_path_separator() == spec_has_path_separator(h, q.spec_separator())
                            &&& q.spec_match_path() == spec_should_match_path(self.spec_match_path_mode(), q.spec_has_path_separator())
                            &&& q.spec_is_literal() == spec_is_literal(h)
                            &&& q.spec_sort_by() == self.spec_sort_by()
                            &&& q.spec_sort_order() == self.spec_sort_order()
                            &&& q.spec_sort_dirs_before_files() == self.spec_sort_dirs_before_files()
                        })
                    },
                }
            }),
    {
        let escaped_pattern = if self.is_regex_enabled {
            self.pattern.clone()
        } else {
            escape(self.pattern.as_str())
        };

        let hir = match parse_pattern(escaped_pattern.as_str()) {
            Ok(hir) => hir,
            Err(msg) => return Err(Error::RegexSyntax(msg)),
        };

        let has_uppercase_char = hir_has_uppercase_char(&hir);
        let case_sensitive = should_be_case_sensitive(self.case_sensitivity, has_uppercase_char);

        let regex = match compile_regex(escaped_pattern.as_str(), !case_sensitive) {
            Ok(regex) => regex,
            Err(msg) => return Err(Error::Regex(msg)),
        };

        let separator = main_separator();
        let has_path_separator = hir_has_path_separator(&hir, separator);
        let match_path = should_match_path(self.match_path_mode, has_path_separator);

        Ok(Query {
            regex,
            match_path,
            sort_by: self.sort_by,
            sort_order: self.sort_order,
            sort_dirs_before_files: self.sort_dirs_before_files,
            is_literal: hir_is_literal(&hir),
            has_path_separator,
            separator,
        })
    }
}

} // verus!
