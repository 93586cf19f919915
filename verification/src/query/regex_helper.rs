//! Structural questions about a parsed pattern: does it mention the path
//! separator, does it mention an uppercase character, is it a plain literal.

use vstd::prelude::*;

verus! {

/// The library's model of a `regex_syntax` syntax tree: the node kinds that
/// the questions below look at, with everything else collapsed to `Other`.
#[derive(Debug)]
pub enum HirNode {
    /// A Unicode literal character.
    Literal(char),
    /// A literal byte.
    ByteLiteral(u8),
    /// A Unicode class as inclusive ranges of characters.
    Class(Vec<(char, char)>),
    /// A byte class as inclusive ranges of bytes.
    ByteClass(Vec<(u8, u8)>),
    /// A (possibly capturing) group around a sub-expression.
    Group(Box<HirNode>),
    /// A repetition of a sub-expression.
    Repetition(Box<HirNode>),
    /// A concatenation of sub-expressions.
    Concat(Vec<HirNode>),
    /// An alternation of sub-expressions.
    Alternation(Vec<HirNode>),
    /// The empty expression, anchors and word boundaries.
    Other,
}

/// `char::from(u8)`: the character with the byte's value as code point.
pub open spec fn byte_char(b: u8) -> char {
    b as char
}

/// Whether some range of the class contains `c`.
pub open spec fn ranges_contain(ranges: Seq<(char, char)>, c: char) -> bool {
    exists|i: int| 0 <= i < ranges.len() && (#[trigger] ranges[i]).0 <= c && c <= ranges[i].1
}

/// Whether some range of the byte class contains `c` (bytes read as characters).
pub open spec fn byte_ranges_contain(ranges: Seq<(u8, u8)>, c: char) -> bool {
    exists|i: int| 0 <= i < ranges.len() && byte_char((#[trigger] ranges[i]).0) <= c && c <= byte_char(ranges[i].1)
}

/// Whether the expression mentions the separator `sep` in a literal or a class.
pub open spec fn spec_has_path_separator(h: HirNode, sep: char) -> bool
    decreases h,
{
    match h {
        HirNode::Literal(c) => c == sep,
        HirNode::ByteLiteral(b) => byte_char(b) == sep,
        HirNode::Class(r) => ranges_contain(r@, sep),
        HirNode::ByteClass(r) => byte_ranges_contain(r@, sep),
        HirNode::Group(g) => spec_has_path_separator(*g, sep),
        HirNode::Repetition(g) => spec_has_path_separator(*g, sep),
        HirNode::Concat(v) => spec_any_has_path_separator(v@, sep),
        HirNode::Alternation(v) => spec_any_has_path_separator(v@, sep),
        HirNode::Other => false,
    }
}

/// Whether some expression of the sequence mentions the separator.
pub open spec fn spec_any_has_path_separator(v: Seq<HirNode>, sep: char) -> bool
    decreases v,
{
    if v.len() == 0 {
        false
    } else {
        spec_any_has_path_separator(v.drop_last(), sep) || spec_has_path_separator(v.last(), sep)
    }
}

/// What `char::is_uppercase` returns: whether the character has the Unicode
/// `Uppercase` property.
pub uninterp spec fn char_is_uppercase(c: char) -> bool;

/// Calls `char::is_uppercase`; its result is named [`char_is_uppercase`].
#[verifier::external_body]
pub(crate) fn is_uppercase(c: char) -> (b: bool)
    ensures
        b == char_is_uppercase(c),
{
    c.is_uppercase()
}

/// Whether some range of the class starts or ends at an uppercase character.
pub open spec fn ranges_have_uppercase(ranges: Seq<(char, char)>) -> bool {
    exists|i: int| 0 <= i < ranges.len() && (char_is_uppercase((#[trigger] ranges[i]).0) || char_is_uppercase(ranges[i].1))
}

/// The same for a byte class, bytes read as characters.
pub open spec fn byte_ranges_have_uppercase(ranges: Seq<(u8, u8)>) -> bool {
    exists|i: int| 0 <= i < ranges.len()
        && (char_is_uppercase(byte_char((#[trigger] ranges[i]).0)) || char_is_uppercase(byte_char(ranges[i].1)))
}

/// Whether the expression mentions an uppercase character in a literal or at
/// an end of a class range.
pub open spec fn spec_has_uppercase_char(h: HirNode) -> bool
    decreases h,
{
    match h {
        HirNode::Literal(c) => char_is_uppercase(c),
        HirNode::ByteLiteral(b) => char_is_uppercase(byte_char(b)),
        HirNode::Class(r) => ranges_have_uppercase(r@),
        HirNode::ByteClass(r) => byte_ranges_have_uppercase(r@),
        HirNode::Group(g) => spec_has_uppercase_char(*g),
        HirNode::Repetition(g) => spec_has_uppercase_char(*g),
        HirNode::Concat(v) => spec_any_has_uppercase_char(v@),
        HirNode::Alternation(v) => spec_any_has_uppercase_char(v@),
        HirNode::Other => false,
    }
}

/// Whether some expression of the sequence mentions an uppercase character.
pub open spec fn spec_any_has_uppercase_char(v: Seq<HirNode>) -> bool
    decreases v,
{
    if v.len() == 0 {
        false
    } else {
        spec_any_has_uppercase_char(v.drop_last()) || spec_has_uppercase_char(v.last())
    }
}

/// `Hir::is_literal`, as `regex_syntax` documents it: a literal, or a
/// concatenation of only literals.
pub open spec fn spec_is_literal(h: HirNode) -> bool
    decreases h,
{
    match h {
        HirNode::Literal(_) => true,
        HirNode::ByteLiteral(_) => true,
        HirNode::Concat(v) => spec_all_literal(v@),
        _ => false,
    }
}

/// Whether every expression of the sequence is a literal.
pub open spec fn spec_all_literal(v: Seq<HirNode>) -> bool
    decreases v,
{
    if v.len() == 0 {
        true
    } else {
        spec_all_literal(v.drop_last()) && spec_is_literal(v.last())
    }
}

fn char_from_byte(b: u8) -> (c: char)
    ensures
        c == byte_char(b),
{
    b as char
}

/// Whether the expression mentions `sep` (the platform's path separator).
#[verifier::loop_isolation(false)]
pub fn hir_has_path_separator(hir: &HirNode, sep: char) -> (r: bool)
    ensures
        r == spec_has_path_separator(*hir, sep),
    decreases hir,
{
    match hir {
        HirNode::Literal(c) => *c == sep,
        HirNode::ByteLiteral(b) => char_from_byte(*b) == sep,
        HirNode::Class(ranges) => {
            let mut i: usize = 0;
            while i < ranges.len()
                invariant
                    i <= ranges@.len(),
                    forall|j: int| 0 <= j < i ==> !(ranges@[j].0 <= sep && sep <= ranges@[j].1),
                decreases ranges@.len() - i,
            {
                if ranges[i].0 <= sep && sep <= ranges[i].1 {
                    assert(ranges_contain(ranges@, sep)) by { let w = ranges@[i as int]; }
                    return true;
                }
                i = i + 1;
            }
            false
        },
        HirNode::ByteClass(ranges) => {
            let mut i: usize = 0;
            while i < ranges.len()
                invariant
                    i <= ranges@.len(),
                    forall|j: int| 0 <= j < i ==> !(byte_char(ranges@[j].0) <= sep && sep <= byte_char(ranges@[j].1)),
                decreases ranges@.len() - i,
            {
                if char_from_byte(ranges[i].0) <= sep && sep <= char_from_byte(ranges[i].1) {
                    assert(byte_ranges_contain(ranges@, sep)) by { let w = ranges@[i as int]; }
                    return true;
                }
                i = i + 1;
            }
            false
        },
        HirNode::Group(g) => hir_has_path_separator(g, sep),
        HirNode::Repetition(g) => hir_has_path_separator(g, sep),
        HirNode::Concat(hs) => any_has_path_separator(hs, sep),
        HirNode::Alternation(hs) => any_has_path_separator(hs, sep),
        HirNode::Other => false,
    }
}

fn any_has_path_separator(hs: &Vec<HirNode>, sep: char) -> (r: bool)
    ensures
        r == spec_any_has_path_separator(hs@, sep),
    decreases hs,
{
    let mut i: usize = 0;
    while i < hs.len()
        invariant
            i <= hs@.len(),
            !spec_any_has_path_separator(hs@.take(i as int), sep),
        decreases hs@.len() - i,
    {
        assert(hs@.take(i + 1).drop_last() =~= hs@.take(i as int));
        if hir_has_path_separator(&hs[i], sep) {
            proof { lemma_any_sep_prefix(hs@, sep, i + 1); }
            return true;
        }
        i = i + 1;
    }
    assert(hs@.take(i as int) =~= hs@);
    false
}

proof fn lemma_any_sep_prefix(v: Seq<HirNode>, sep: char, k: int)
    requires
        0 <= k <= v.len(),
        spec_any_has_path_separator(v.take(k), sep),
    ensures
        spec_any_has_path_separator(v, sep),
    decreases v.len() - k,
{
    if k < v.len() {
        assert(v.take(k + 1).drop_last() =~= v.take(k));
        lemma_any_sep_prefix(v, sep, k + 1);
    } else {
        assert(v.take(k) =~= v);
    }
}

/// Whether the expression mentions an uppercase character.
#[verifier::loop_isolation(false)]
pub fn hir_has_uppercase_char(hir: &HirNode) -> (r: bool)
    ensures
        r == spec_has_uppercase_char(*hir),
    decreases hir,
{
    match hir {
        HirNode::Literal(c) => is_uppercase(*c),
        HirNode::ByteLiteral(b) => is_uppercase(char_from_byte(*b)),
        HirNode::Class(ranges) => {
            let mut i: usize = 0;
            while i < ranges.len()
                invariant
                    i <= ranges@.len(),
                    forall|j: int| 0 <= j < i ==> !(char_is_uppercase(ranges@[j].0) || char_is_uppercase(ranges@[j].1)),
                decreases ranges@.len() - i,
            {
                if is_uppercase(ranges[i].0) || is_uppercase(ranges[i].1) {
                    assert(ranges_have_uppercase(ranges@)) by { let w = ranges@[i as int]; }
                    return true;
                }
                i = i + 1;
            }
            false
        },
        HirNode::ByteClass(ranges) => {
            let mut i: usize = 0;
            while i < ranges.len()
                invariant
                    i <= ranges@.len(),
                    forall|j: int| 0 <= j < i ==> !(char_is_uppercase(byte_char(ranges@[j].0))
                        || char_is_uppercase(byte_char(ranges@[j].1))),
                decreases ranges@.len() - i,
            {
                if is_uppercase(char_from_byte(ranges[i].0)) || is_uppercase(char_from_byte(ranges[i].1)) {
                    assert(byte_ranges_have_uppercase(ranges@)) by { let w = ranges@[i as int]; }
                    return true;
                }
                i = i + 1;
            }
            false
        },
        HirNode::Group(g) => hir_has_uppercase_char(g),
        HirNode::Repetition(g) => hir_has_uppercase_char(g),
        HirNode::Concat(hs) => any_has_uppercase_char(hs),
        HirNode::Alternation(hs) => any_has_uppercase_char(hs),
        HirNode::Other => false,
    }
}

fn any_has_uppercase_char(hs: &Vec<HirNode>) -> (r: bool)
    ensures
        r == spec_any_has_uppercase_char(hs@),
    decreases hs,
{
    let mut i: usize = 0;
    while i < hs.len()
        invariant
            i <= hs@.len(),
            !spec_any_has_uppercase_char(hs@.take(i as int)),
        decreases hs@.len() - i,
    {
        assert(hs@.take(i + 1).drop_last() =~= hs@.take(i as int));
        if hir_has_uppercase_char(&hs[i]) {
            proof { lemma_any_upper_prefix(hs@, i + 1); }
            return true;
        }
        i = i + 1;
    }
    assert(hs@.take(i as int) =~= hs@);
    false
}

proof fn lemma_any_upper_prefix(v: Seq<HirNode>, k: int)
    requires
        0 <= k <= v.len(),
        spec_any_has_uppercase_char(v.take(k)),
    ensures
        spec_any_has_uppercase_char(v),
    decreases v.len() - k,
{
    if k < v.len() {
        assert(v.take(k + 1).drop_last() =~= v.take(k));
        lemma_any_upper_prefix(v, k + 1);
    } else {
        assert(v.take(k) =~= v);
    }
}

/// Whether the expression is a plain literal (see [`spec_is_literal`]).
pub fn hir_is_literal(hir: &HirNode) -> (r: bool)
    ensures
        r == spec_is_literal(*hir),
    decreases hir,
{
    match hir {
        HirNode::Literal(_) => true,
        HirNode::ByteLiteral(_) => true,
        HirNode::Concat(hs) => all_literal(hs),
        _ => false,
    }
}

fn all_literal(hs: &Vec<HirNode>) -> (r: bool)
    ensures
        r == spec_all_literal(hs@),
    decreases hs,
{
    let mut i: usize = 0;
    while i < hs.len()
        invariant
            i <= hs@.len(),
            spec_all_literal(hs@.take(i as int)),
        decreases hs@.len() - i,
    {
        assert(hs@.take(i + 1).drop_last() =~= hs@.take(i as int));
        if !hir_is_literal(&hs[i]) {
            proof { lemma_all_literal_prefix(hs@, i + 1); }
            return false;
        }
        i = i + 1;
    }
    assert(hs@.take(i as int) =~= hs@);
    true
}

proof fn lemma_all_literal_prefix(v: Seq<HirNode>, k: int)
    requires
        0 <= k <= v.len(),
        !spec_all_literal(v.take(k)),
    ensures
        !spec_all_literal(v),
    decreases v.len() - k,
{
    if k < v.len() {
        assert(v.take(k + 1).drop_last() =~= v.take(k));
        lemma_all_literal_prefix(v, k + 1);
    } else {
        assert(v.take(k) =~= v);
    }
}

proof fn lemma_any_upper_is_some(v: Seq<HirNode>)
    ensures
        spec_any_has_uppercase_char(v) <==> exists|i: int| 0 <= i < v.len() && spec_has_uppercase_char(#[trigger] v[i]),
    decreases v.len(),
{
    if v.len() > 0 {
        lemma_any_upper_is_some(v.drop_last());
        if exists|i: int| 0 <= i < v.len() && spec_has_uppercase_char(#[trigger] v[i]) {
            let i = choose|i: int| 0 <= i < v.len() && spec_has_uppercase_char(#[trigger] v[i]);
            if i < v.len() - 1 {
                assert(v.drop_last()[i] == v[i]);
            }
        }
        if spec_any_has_uppercase_char(v.drop_last()) {
            let i = choose|i: int| 0 <= i < v.drop_last().len() && spec_has_uppercase_char(#[trigger] v.drop_last()[i]);
            assert(v[i] == v.drop_last()[i]);
        }
    }
}

proof fn lemma_any_sep_is_some(v: Seq<HirNode>, sep: char)
    ensures
        spec_any_has_path_separator(v, sep) <==> exists|i: int| 0 <= i < v.len() && spec_has_path_separator(#[trigger] v[i], sep),
    decreases v.len(),
{
    if v.len() > 0 {
        lemma_any_sep_is_some(v.drop_last(), sep);
        if exists|i: int| 0 <= i < v.len() && spec_has_path_separator(#[trigger] v[i], sep) {
            let i = choose|i: int| 0 <= i < v.len() && spec_has_path_separator(#[trigger] v[i], sep);
            if i < v.len() - 1 {
                assert(v.drop_last()[i] == v[i]);
            }
        }
        if spec_any_has_path_separator(v.drop_last(), sep) {
            let i = choose|i: int| 0 <= i < v.drop_last().len() && spec_has_path_separator(#[trigger] v.drop_last()[i], sep);
            assert(v[i] == v.drop_last()[i]);
        }
    }
}

proof fn lemma_all_literal_is_every(v: Seq<HirNode>)
    ensures
        spec_all_literal(v) <==> forall|i: int| 0 <= i < v.len() ==> spec_is_literal(#[trigger] v[i]),
    decreases v.len(),
{
    if v.len() > 0 {
        lemma_all_literal_is_every(v.drop_last());
        if forall|i: int| 0 <= i < v.len() ==> spec_is_literal(#[trigger] v[i]) {
            assert forall|i: int| 0 <= i < v.drop_last().len() implies spec_is_literal(#[trigger] v.drop_last()[i]) by {
                assert(v[i] == v.drop_last()[i]);
            }
            assert(spec_is_literal(v[v.len() - 1]));
        }
        if spec_all_literal(v) {
            assert forall|i: int| 0 <= i < v.len() implies spec_is_literal(#[trigger] v[i]) by {
                if i < v.len() - 1 {
                    assert(v[i] == v.drop_last()[i]);
                }
            }
        }
    }
}

/// A concatenation or an alternation mentions an uppercase character, or
/// the separator, exactly when one of its members does, however many there
/// are and wherever that member stands; a concatenation is a plain literal
/// exactly when every member is one. A group or a repetition asks its
/// inner expression, and a literal character or byte mentions an uppercase
/// character exactly when it is one.
pub proof fn law_expressions_ask_their_members(h: HirNode, sep: char)
    ensures
        h matches HirNode::Concat(v) ==> (spec_has_uppercase_char(h)
            <==> exists|i: int| 0 <= i < v@.len() && spec_has_uppercase_char(#[trigger] v@[i])),
        h matches HirNode::Alternation(v) ==> (spec_has_uppercase_char(h)
            <==> exists|i: int| 0 <= i < v@.len() && spec_has_uppercase_char(#[trigger] v@[i])),
        h matches HirNode::Concat(v) ==> (spec_has_path_separator(h, sep)
            <==> exists|i: int| 0 <= i < v@.len() && spec_has_path_separator(#[trigger] v@[i], sep)),
        h matches HirNode::Alternation(v) ==> (spec_has_path_separator(h, sep)
            <==> exists|i: int| 0 <= i < v@.len() && spec_has_path_separator(#[trigger] v@[i], sep)),
        h matches HirNode::Concat(v) ==> (spec_is_literal(h)
            <==> forall|i: int| 0 <= i < v@.len() ==> spec_is_literal(#[trigger] v@[i])),
        h matches HirNode::Group(g) ==> spec_has_uppercase_char(h) == spec_has_uppercase_char(*g)
            && spec_has_path_separator(h, sep) == spec_has_path_separator(*g, sep),
        h matches HirNode::Repetition(g) ==> spec_has_uppercase_char(h) == spec_has_uppercase_char(*g)
            && spec_has_path_separator(h, sep) == spec_has_path_separator(*g, sep),
        h matches HirNode::Literal(c) ==> spec_has_uppercase_char(h) == char_is_uppercase(c)
            && spec_has_path_separator(h, sep) == (c == sep) && spec_is_literal(h),
{
    match h {
        HirNode::Concat(v) => {
            lemma_any_upper_is_some(v@);
            lemma_any_sep_is_some(v@, sep);
            lemma_all_literal_is_every(v@);
        },
        HirNode::Alternation(v) => {
            lemma_any_upper_is_some(v@);
            lemma_any_sep_is_some(v@, sep);
        },
        _ => {},
    }
}

} // verus!
