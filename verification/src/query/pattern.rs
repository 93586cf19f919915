//! The regular-expression engine as the query logic sees it: escaping,
//! parsing into a syntax tree, compiling, and matching. Every function here
//! hands the real work to the `regex` / `regex-syntax` crates.

use vstd::prelude::*;
use vstd::string::StringSliceAdditionalSpecFns;
use crate::query::regex_helper::HirNode;
use regex_syntax::hir::{Class, HirKind, Literal};
use ::regex::Regex as RegexEngine;

verus! {

/// The compiled regex engine of the `regex` crate.
#[verifier::external_type_specification]
#[verifier::external_body]
pub struct ExRegex(RegexEngine);

/// The syntax tree type of `regex-syntax`.
#[verifier::external_type_specification]
#[verifier::external_body]
pub struct ExHir(regex_syntax::hir::Hir);

/// A literal of a `regex-syntax` tree.
#[verifier::external_type_specification]
#[verifier::external_body]
pub struct ExLiteral(regex_syntax::hir::Literal);

/// A character class of a `regex-syntax` tree.
#[verifier::external_type_specification]
#[verifier::external_body]
pub struct ExClass(regex_syntax::hir::Class);

/// `Regex::clone` copies the compiled engine; nothing is claimed of the copy
/// beyond its type, since the engine is opaque.
pub assume_specification[ <RegexEngine as Clone>::clone ](re: &RegexEngine) -> RegexEngine;

/// A compiled regex together with the pattern and the case flag it was
/// compiled from. Values are only made by [`compile_regex`], so the engine
/// inside always corresponds to `pattern` and `case_insensitive`.
pub struct CompiledRegex {
    engine: RegexEngine,
    pattern: String,
    case_insensitive: bool,
}

impl Clone for CompiledRegex {
    fn clone(&self) -> (r: Self)
        ensures
            r.spec_pattern() == self.spec_pattern(),
            r.spec_case_insensitive() == self.spec_case_insensitive(),
    {
        CompiledRegex {
            engine: self.engine.clone(),
            pattern: self.pattern.clone(),
            case_insensitive: self.case_insensitive,
        }
    }
}

impl CompiledRegex {
    pub closed spec fn spec_pattern(&self) -> Seq<char> {
        self.pattern@
    }

    pub closed spec fn spec_case_insensitive(&self) -> bool {
        self.case_insensitive
    }

    /// The pattern source, as `Regex::as_str` returns it.
    pub fn as_str(&self) -> (s: &str)
        ensures
            s@ == self.spec_pattern(),
    {
        self.pattern.as_str()
    }

    /// Whether the regex was compiled case-insensitively.
    pub fn is_case_insensitive(&self) -> (b: bool)
        ensures
            b == self.spec_case_insensitive(),
    {
        self.case_insensitive
    }
}

/// Whether a character has a meaning in a regex (`regex_syntax::is_meta_character`).
pub open spec fn is_regex_meta(c: char) -> bool {
    c == '\\' || c == '.' || c == '+' || c == '*' || c == '?' || c == '(' || c == ')' || c == '|'
        || c == '[' || c == ']' || c == '{' || c == '}' || c == '^' || c == '$' || c == '#'
        || c == '&' || c == '-' || c == '~'
}

/// The pattern with a backslash before every regex meta-character, so that
/// it matches itself literally.
pub open spec fn regex_escape(s: Seq<char>) -> Seq<char>
    decreases s.len(),
{
    if s.len() == 0 {
        s
    } else {
        let c = s.last();
        regex_escape(s.drop_last()) + if is_regex_meta(c) { seq!['\\', c] } else { seq![c] }
    }
}

/// The syntax tree that `regex_syntax::ParserBuilder` (with invalid UTF-8
/// allowed) builds for a pattern, or `None` where it rejects the pattern.
pub uninterp spec fn parsed_pattern(pattern: Seq<char>) -> Option<HirNode>;

/// Whether `regex::RegexBuilder` accepts the pattern with the given case flag.
pub uninterp spec fn regex_compiles(pattern: Seq<char>, case_insensitive: bool) -> bool;

/// Whether `Regex::is_match` finds a match of the regex in the haystack.
pub uninterp spec fn regex_is_match(pattern: Seq<char>, case_insensitive: bool, haystack: Seq<char>) -> bool;

/// The byte ranges of the successive non-overlapping leftmost-first matches
/// that `Regex::find_iter` yields on the haystack.
pub uninterp spec fn regex_find_ranges(pattern: Seq<char>, case_insensitive: bool, haystack: Seq<char>) -> Seq<(usize, usize)>;

/// `regex::escape`, which puts a backslash before each meta-character
/// (see [`regex_escape`]).
#[verifier::external_body]
pub(crate) fn escape(s: &str) -> (r: String)
    ensures
        r@ == regex_escape(s@),
{
    regex::escape(s)
}

/// Converts a `regex_syntax` tree node by node into the library's model.
#[verifier::external_body]
fn hir_to_node(h: &regex_syntax::hir::Hir) -> HirNode {
    match h.kind() {
        HirKind::Literal(l) => literal_to_node(l),
        HirKind::Class(c) => class_to_node(c),
        HirKind::Group(g) => HirNode::Group(Box::new(hir_to_node(&g.hir))),
        HirKind::Repetition(r) => HirNode::Repetition(Box::new(hir_to_node(&r.hir))),
        HirKind::Concat(hs) => HirNode::Concat(hs.iter().map(hir_to_node).collect()),
        HirKind::Alternation(hs) => HirNode::Alternation(hs.iter().map(hir_to_node).collect()),
        _ => HirNode::Other,
    }
}

/// Converts a `regex_syntax` literal into the library's model.
#[verifier::external_body]
fn literal_to_node(l: &Literal) -> HirNode {
    match l {
        Literal::Unicode(c) => HirNode::Literal(*c),
        Literal::Byte(b) => HirNode::ByteLiteral(*b),
    }
}

/// Converts a `regex_syntax` class into the library's model: its ranges.
#[verifier::external_body]
fn class_to_node(c: &Class) -> HirNode {
    match c {
        Class::Unicode(cls) => HirNode::Class(cls.iter().map(|r| (r.start(), r.end())).collect()),
        Class::Bytes(cls) => HirNode::ByteClass(cls.iter().map(|r| (r.start(), r.end())).collect()),
    }
}

/// Parses a pattern with `regex_syntax::ParserBuilder` (invalid UTF-8
/// allowed) and returns its syntax tree; on rejection the parser's error
/// message. Its result is named [`parsed_pattern`]; nothing is said of the
/// error message text.
#[verifier::external_body]
pub(crate) fn parse_pattern(pattern: &str) -> (r: Result<HirNode, String>)
    ensures
        r matches Ok(h) ==> parsed_pattern(pattern@) == Some(h),
        r is Err ==> parsed_pattern(pattern@) is None,
{
    let mut parser = regex_syntax::ParserBuilder::new().allow_invalid_utf8(true).build();
    match parser.parse(pattern) {
        Ok(hir) => Ok(hir_to_node(&hir)),
        Err(e) => Err(e.to_string()),
    }
}

/// Compiles a pattern with `regex::RegexBuilder` and the given case flag;
/// on rejection the builder's error message. Whether it succeeds is named
/// [`regex_compiles`]; nothing is said of the error message text.
#[verifier::external_body]
pub(crate) fn compile_regex(pattern: &str, case_insensitive: bool) -> (r: Result<CompiledRegex, String>)
    ensures
        r is Ok <==> regex_compiles(pattern@, case_insensitive),
        r matches Ok(re) ==> re.spec_pattern() == pattern@ && re.spec_case_insensitive() == case_insensitive,
{
    match regex::RegexBuilder::new(pattern).case_insensitive(case_insensitive).build() {
        Ok(engine) => Ok(CompiledRegex { engine, pattern: pattern.to_string(), case_insensitive }),
        Err(e) => Err(e.to_string()),
    }
}

/// Whether the text `p` occurs in `h`.
pub open spec fn contains_text(h: Seq<char>, p: Seq<char>) -> bool {
    exists|i: int| 0 <= i && i + p.len() <= h.len() && #[trigger] h.subrange(i, i + p.len()) == p
}

/// Calls `Regex::is_match`; its result is named [`regex_is_match`]. As
/// `regex::escape` documents, an escaped text is a literal: compiled
/// without the case flag, it matches where that text occurs.
#[verifier::external_body]
pub(crate) fn is_match(re: &CompiledRegex, haystack: &str) -> (b: bool)
    ensures
        b == regex_is_match(re.spec_pattern(), re.spec_case_insensitive(), haystack@),
        forall|p: Seq<char>| re.spec_pattern() == #[trigger] regex_escape(p) && !re.spec_case_insensitive()
            ==> (b <==> contains_text(haystack@, p)),
{
    re.engine.is_match(haystack)
}

/// Collects the byte ranges of `Regex::find_iter`; the result is named
/// [`regex_find_ranges`]. As the `regex` documentation states, every range
/// lies within the haystack, and the matches come in order without overlap.
#[verifier::external_body]
pub(crate) fn find_ranges(re: &CompiledRegex, haystack: &str) -> (r: Vec<(usize, usize)>)
    ensures
        r@ == regex_find_ranges(re.spec_pattern(), re.spec_case_insensitive(), haystack@),
        forall|i: int| 0 <= i < r@.len() ==> (#[trigger] r@[i]).0 <= r@[i].1 <= haystack.spec_bytes().len(),
        forall|i: int| 0 < i < r@.len() ==> r@[i - 1].1 <= r@[i].0,
{
    re.engine.find_iter(haystack).map(|m| (m.start(), m.end())).collect()
}

} // verus!
