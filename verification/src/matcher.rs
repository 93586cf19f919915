//! The plain matcher: a pattern compiled into a regex that is tried on the
//! basename of an entry or, when asked or when the pattern names a
//! directory, on its full path.

use vstd::prelude::*;
use crate::database::Entry;
use crate::query::pattern::{
    compile_regex, escape, find_ranges, is_match, regex_compiles, regex_escape,
    regex_find_ranges, regex_is_match, CompiledRegex,
};
use crate::query::{basename_ranges_in_path, clip_to_basename, shift_ranges, shifted_ranges};
use crate::text::{byte_len, byte_length, chars_of, main_separator};
use crate::Error;

verus! {

/// Whether the text holds the character.
pub open spec fn has_char(s: Seq<char>, c: char) -> bool {
    exists|i: int| 0 <= i < s.len() && s[i] == c
}

/// Whether the text holds the character twice in a row.
pub open spec fn has_doubled_char(s: Seq<char>, c: char) -> bool {
    exists|i: int| 0 <= i && i + 1 < s.len() && #[trigger] s[i] == c && s[i + 1] == c
}

/// When a pattern is tried on full paths: when asked to; otherwise, with
/// automatic detection, when the pattern holds the path separator (written
/// as a doubled backslash in a regex where the separator is a backslash).
pub open spec fn spec_should_search_match_path(
    match_path: bool,
    auto_match_path: bool,
    regex: bool,
    query: Seq<char>,
    separator: char,
) -> bool {
    if match_path {
        true
    } else if !auto_match_path {
        false
    } else if regex && separator == '\\' {
        has_doubled_char(query, '\\')
    } else {
        has_char(query, separator)
    }
}

/// Whether the text holds the character.
fn contains_char(s: &str, c: char) -> (r: bool)
    ensures
        r == has_char(s@, c),
{
    let cs = chars_of(s);
    let mut i: usize = 0;
    while i < cs.len()
        invariant
            i <= cs@.len(),
            cs@ == s@,
            forall|j: int| 0 <= j < i ==> cs@[j] != c,
        decreases cs@.len() - i,
    {
        if cs[i] == c {
            return true;
        }
        i = i + 1;
    }
    false
}

/// Whether the text holds the character twice in a row.
fn contains_doubled_char(s: &str, c: char) -> (r: bool)
    ensures
        r == has_doubled_char(s@, c),
{
    let cs = chars_of(s);
    let mut i: usize = 0;
    while i < cs.len() && cs.len() - i > 1
        invariant
            i <= cs@.len(),
            cs@ == s@,
            forall|j: int| 0 <= j < i && j + 1 < cs@.len() ==> !(#[trigger] cs@[j] == c && cs@[j + 1] == c),
        decreases cs@.len() - i,
    {
        if cs[i] == c && cs[i + 1] == c {
            return true;
        }
        i = i + 1;
    }
    false
}

/// Decides whether a pattern is tried on full paths (see
/// [`spec_should_search_match_path`]), for the platform's separator.
pub fn should_search_match_path(match_path: bool, auto_match_path: bool, regex: bool, query: &str) -> (r: bool)
    ensures
        match_path ==> r,
        !match_path && !auto_match_path ==> !r,
        exists|sep: char| (sep == '/' || sep == '\\')
            && r == spec_should_search_match_path(match_path, auto_match_path, regex, query@, sep),
{
    let sep = main_separator();
    let r = if match_path {
        true
    } else if !auto_match_path {
        false
    } else if regex && sep == '\\' {
        contains_doubled_char(query, '\\')
    } else {
        contains_char(query, sep)
    };
    assert(r == spec_should_search_match_path(match_path, auto_match_path, regex, query@, sep));
    r
}

/// A compiled pattern together with where it is tried.
pub struct Matcher {
    pub(crate) query: CompiledRegex,
    pub(crate) match_path: bool,
}

impl Clone for Matcher {
    fn clone(&self) -> (r: Self)
        ensures
            r.spec_pattern() == self.spec_pattern(),
            r.spec_case_insensitive() == self.spec_case_insensitive(),
            r.spec_match_path() == self.spec_match_path(),
    {
        Matcher { query: self.query.clone(), match_path: self.match_path }
    }
}

impl Matcher {
    pub open(crate) spec fn spec_pattern(&self) -> Seq<char> {
        self.query.spec_pattern()
    }

    pub open(crate) spec fn spec_case_insensitive(&self) -> bool {
        self.query.spec_case_insensitive()
    }

    pub open(crate) spec fn spec_match_path(&self) -> bool {
        self.match_path
    }

    /// Whether the pattern is empty.
    pub fn query_is_empty(&self) -> (r: bool)
        ensures
            r == (self.spec_pattern().len() == 0),
    {
        self.query.as_str().is_empty()
    }

    /// Whether full paths are searched.
    pub fn match_path(&self) -> (r: bool)
        ensures
            r == self.spec_match_path(),
    {
        self.match_path
    }

    /// Whether the entry matches: its full path when paths are searched,
    /// else its basename.
    pub fn is_match(&self, entry: &Entry) -> (r: bool)
        ensures
            r == regex_is_match(
                self.spec_pattern(),
                self.spec_case_insensitive(),
                if self.spec_match_path() { entry.spec_path() } else { entry.spec_basename() },
            ),
    {
        if self.match_path {
            let path = entry.path();
            is_match(&self.query, path.as_str())
        } else {
            is_match(&self.query, entry.basename())
        }
    }

    /// The texts of an entry that matches are highlighted from.
    pub fn match_detail(&self, entry: &Entry) -> (r: MatchDetail)
        ensures
            r.spec_pattern() == self.spec_pattern(),
            r.spec_case_insensitive() == self.spec_case_insensitive(),
            r.spec_match_path() == self.spec_match_path(),
            r.spec_basename() == entry.spec_basename(),
            r.spec_path() == entry.spec_path(),
    {
        entry.lemma_path_ends_with_name();
        let basename = entry.basename().to_string();
        MatchDetail {
            query: self.query.clone(),
            match_path: self.match_path,
            basename,
            path_str: entry.path(),
        }
    }
}

/// A matcher applied to one entry: its basename and its full path.
pub struct MatchDetail {
    query: CompiledRegex,
    match_path: bool,
    basename: String,
    path_str: String,
}

impl MatchDetail {
    #[verifier::type_invariant]
    spec fn basename_fits(&self) -> bool {
        byte_len(self.basename@) <= byte_len(self.path_str@)
    }

    pub closed spec fn spec_pattern(&self) -> Seq<char> {
        self.query.spec_pattern()
    }

    pub closed spec fn spec_case_insensitive(&self) -> bool {
        self.query.spec_case_insensitive()
    }

    pub closed spec fn spec_match_path(&self) -> bool {
        self.match_path
    }

    pub closed spec fn spec_basename(&self) -> Seq<char> {
        self.basename@
    }

    pub closed spec fn spec_path(&self) -> Seq<char> {
        self.path_str@
    }

    /// The full path.
    pub fn path_str(&self) -> (r: &str)
        ensures
            r@ == self.spec_path(),
    {
        self.path_str.as_str()
    }

    /// The byte ranges of the basename to highlight: when paths are
    /// searched, the matches in the path that reach into the basename,
    /// clipped to it; otherwise the matches in the basename.
    pub fn basename_matches(&self) -> (r: Vec<(usize, usize)>)
        ensures
            self.spec_match_path() ==> r@ == basename_ranges_in_path(
                regex_find_ranges(self.spec_pattern(), self.spec_case_insensitive(), self.spec_path()),
                byte_len(self.spec_path()) as int,
                byte_len(self.spec_basename()) as int,
            ),
            !self.spec_match_path() ==> r@ == regex_find_ranges(
                self.spec_pattern(), self.spec_case_insensitive(), self.spec_basename()),
    {
        if self.match_path {
            let ms = find_ranges(&self.query, self.path_str.as_str());
            clip_to_basename(&ms, byte_length(self.path_str.as_str()), byte_length(self.basename.as_str()))
        } else {
            find_ranges(&self.query, self.basename.as_str())
        }
    }

    /// The byte ranges of the full path to highlight: when paths are
    /// searched, the matches in the path; otherwise the matches in the
    /// basename, moved to where the basename ends the path.
    pub fn path_matches(&self) -> (r: Vec<(usize, usize)>)
        ensures
            self.spec_match_path() ==> r@ == regex_find_ranges(
                self.spec_pattern(), self.spec_case_insensitive(), self.spec_path()),
            !self.spec_match_path() ==> r@ == shifted_ranges(
                regex_find_ranges(self.spec_pattern(), self.spec_case_insensitive(), self.spec_basename()),
                byte_len(self.spec_path()) - byte_len(self.spec_basename()),
            ),
    {
        proof { use_type_invariant(self); }
        if self.match_path {
            find_ranges(&self.query, self.path_str.as_str())
        } else {
            let offset = byte_length(self.path_str.as_str()) - byte_length(self.basename.as_str());
            let ms = find_ranges(&self.query, self.basename.as_str());
            shift_ranges(&ms, offset)
        }
    }
}

/// A builder of matchers.
pub struct MatcherBuilder {
    query_str: String,
    match_path: bool,
    auto_match_path: bool,
    case_insensitive: bool,
    regex: bool,
}

impl MatcherBuilder {
    pub closed spec fn spec_query(&self) -> Seq<char> {
        self.query_str@
    }

    pub closed spec fn spec_match_path(&self) -> bool {
        self.match_path
    }

    pub closed spec fn spec_auto_match_path(&self) -> bool {
        self.auto_match_path
    }

    pub closed spec fn spec_case_insensitive(&self) -> bool {
        self.case_insensitive
    }

    pub closed spec fn spec_regex(&self) -> bool {
        self.regex
    }

    /// A builder for the pattern, with every option off.
    pub fn new(query_str: &str) -> (b: Self)
        ensures
            b.spec_query() == query_str@,
            !b.spec_match_path(),
            !b.spec_auto_match_path(),
            !b.spec_case_insensitive(),
            !b.spec_regex(),
    {
        MatcherBuilder {
            query_str: query_str.to_string(),
            match_path: false,
            auto_match_path: false,
            case_insensitive: false,
            regex: false,
        }
    }

    /// Searches full paths always.
    pub fn match_path(&mut self, yes: bool) -> (r: &mut Self)
        ensures
            r.spec_match_path() == yes,
            r.spec_query() == old(self).spec_query(),
            r.spec_auto_match_path() == old(self).spec_auto_match_path(),
            r.spec_case_insensitive() == old(self).spec_case_insensitive(),
            r.spec_regex() == old(self).spec_regex(),
            *final(self) == *final(r),
    {
        self.match_path = yes;
        self
    }

    /// Searches full paths when the pattern holds a path separator.
    pub fn auto_match_path(&mut self, yes: bool) -> (r: &mut Self)
        ensures
            r.spec_auto_match_path() == yes,
            r.spec_query() == old(self).spec_query(),
            r.spec_match_path() == old(self).spec_match_path(),
            r.spec_case_insensitive() == old(self).spec_case_insensitive(),
            r.spec_regex() == old(self).spec_regex(),
            *final(self) == *final(r),
    {
        self.auto_match_path = yes;
        self
    }

    /// Ignores letter case.
    pub fn case_insensitive(&mut self, yes: bool) -> (r: &mut Self)
        ensures
            r.spec_case_insensitive() == yes,
            r.spec_query() == old(self).spec_query(),
            r.spec_match_path() == old(self).spec_match_path(),
            r.spec_auto_match_path() == old(self).spec_auto_match_path(),
            r.spec_regex() == old(self).spec_regex(),
            *final(self) == *final(r),
    {
        self.case_insensitive = yes;
        self
    }

    /// Reads the pattern as a regex rather than as literal text.
    pub fn regex(&mut self, yes: bool) -> (r: &mut Self)
        ensures
            r.spec_regex() == yes,
            r.spec_query() == old(self).spec_query(),
            r.spec_match_path() == old(self).spec_match_path(),
            r.spec_auto_match_path() == old(self).spec_auto_match_path(),
            r.spec_case_insensitive() == old(self).spec_case_insensitive(),
            *final(self) == *final(r),
    {
        self.regex = yes;
        self
    }

    /// The regex source: the pattern itself in regex mode, else the pattern
    /// with every meta-character escaped.
    pub closed spec fn spec_source(&self) -> Seq<char> {
        if self.regex { self.query_str@ } else { regex_escape(self.query_str@) }
    }

    /// Compiles the matcher; fails with the regex error when the source does
    /// not compile.
    pub fn build(&self) -> (r: Result<Matcher, Error>)
        ensures
            r is Ok <==> regex_compiles(self.spec_source(), self.spec_case_insensitive()),
            r is Err ==> r matches Err(Error::Regex(_)),
            r matches Ok(m) ==> {
                &&& m.spec_pattern() == self.spec_source()
                &&& m.spec_case_insensitive() == self.spec_case_insensitive()
                &&& (self.spec_match_path() ==> m.spec_match_path())
                &&& (!self.spec_match_path() && !self.spec_auto_match_path() ==> !m.spec_match_path())
                &&& exists|sep: char| (sep == '/' || sep == '\\') && m.spec_match_path()
                    == spec_should_search_match_path(
                        self.spec_match_path(), self.spec_auto_match_path(), self.spec_regex(), self.spec_query(), sep)
            },
    {
        let source = if self.regex { self.query_str.clone() } else { escape(self.query_str.as_str()) };
        let query = match compile_regex(source.as_str(), self.case_insensitive) {
            Ok(re) => re,
            Err(msg) => return Err(Error::Regex(msg)),
        };
        let match_path = should_search_match_path(
            self.match_path,
            self.auto_match_path,
            self.regex,
            self.query_str.as_str(),
        );
        let m = Matcher { query, match_path };
        proof {
            let sep = choose|sep: char| (sep == '/' || sep == '\\')
                && match_path == spec_should_search_match_path(
                    self.match_path, self.auto_match_path, self.regex, self.query_str@, sep);
            assert(m.spec_match_path() == spec_should_search_match_path(
                self.spec_match_path(), self.spec_auto_match_path(), self.spec_regex(), self.spec_query(), sep));
        }
        Ok(m)
    }
}

} // verus!
