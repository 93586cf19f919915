//! String helpers: UTF-8 facts about `str` byte offsets, and the few `str`
//! operations of `std` that the library relies on.

use vstd::prelude::*;
use vstd::string::StringSliceAdditionalSpecFns;
use vstd::utf8::*;
use std::cmp::Ordering;

verus! {

/// `String::push` appends one character.
pub assume_specification[ String::push ](s: &mut String, ch: char)
    ensures
        final(s)@ == old(s)@.push(ch),
;

/// `String::push_str` appends a string slice.
pub assume_specification[ String::push_str ](s: &mut String, other: &str)
    ensures
        final(s)@ == old(s)@ + other@,
;

/// The UTF-8 length in bytes of a character sequence.
pub open spec fn byte_len(s: Seq<char>) -> nat {
    encode_utf8(s).len()
}

/// Encoding distributes over concatenation.
pub proof fn lemma_encode_concat(a: Seq<char>, b: Seq<char>)
    ensures
        encode_utf8(a + b) == encode_utf8(a) + encode_utf8(b),
    decreases a.len(),
{
    if a.len() == 0 {
        assert(a + b =~= b);
        assert(encode_utf8(a) =~= Seq::<u8>::empty());
        assert(encode_utf8(a) + encode_utf8(b) =~= encode_utf8(b));
    } else {
        assert((a + b).drop_first() =~= a.drop_first() + b);
        assert((a + b)[0] == a[0]);
        lemma_encode_concat(a.drop_first(), b);
        assert(encode_utf8(a + b) =~= encode_utf8(a) + encode_utf8(b));
    }
}

/// The byte offset of any character position is a character boundary.
pub proof fn lemma_prefix_is_boundary(c: Seq<char>, k: int)
    requires
        0 <= k <= c.len(),
    ensures
        is_char_boundary(encode_utf8(c), byte_len(c.take(k)) as int),
    decreases c.len(),
{
    broadcast use encode_utf8_valid_utf8;
    if k == 0 {
        assert(c.take(0) =~= Seq::<char>::empty());
    } else {
        let bytes = encode_utf8(c);
        encode_utf8_first_scalar(c);
        assert(pop_first_scalar(bytes) =~= encode_utf8(c.drop_first()));
        lemma_prefix_is_boundary(c.drop_first(), k - 1);
        assert(c.take(k) =~= seq![c[0]] + c.drop_first().take(k - 1));
        lemma_encode_concat(seq![c[0]], c.drop_first().take(k - 1));
        let s1 = seq![c[0]];
        assert(s1.drop_first() =~= Seq::<char>::empty());
        assert(encode_utf8(s1.drop_first()) =~= Seq::<u8>::empty());
        assert(encode_utf8(s1) =~= encode_scalar(s1[0] as u32) + encode_utf8(s1.drop_first()));
    }
}

/// Every character boundary of an encoding is the byte offset of some
/// character position.
pub proof fn lemma_boundary_is_prefix(c: Seq<char>, off: int)
    requires
        is_char_boundary(encode_utf8(c), off),
    ensures
        exists|k: int| 0 <= k <= c.len() && #[trigger] byte_len(c.take(k)) == off,
    decreases c.len(),
{
    broadcast use encode_utf8_valid_utf8;
    let bytes = encode_utf8(c);
    if off == 0 {
        assert(c.take(0) =~= Seq::<char>::empty());
        assert(byte_len(c.take(0)) == 0);
    } else {
        assert(0 < off <= bytes.len());
        assert(c.len() > 0);
        encode_utf8_first_scalar(c);
        let rest = c.drop_first();
        assert(pop_first_scalar(bytes) =~= encode_utf8(rest));
        let w = encode_scalar(c[0] as u32).len() as int;
        assert(is_char_boundary(encode_utf8(rest), off - w));
        lemma_boundary_is_prefix(rest, off - w);
        let k1 = choose|k: int| 0 <= k <= rest.len() && #[trigger] byte_len(rest.take(k)) == off - w;
        assert(c.take(k1 + 1) =~= seq![c[0]] + rest.take(k1));
        lemma_encode_concat(seq![c[0]], rest.take(k1));
        let s1 = seq![c[0]];
        assert(s1.drop_first() =~= Seq::<char>::empty());
        assert(encode_utf8(s1.drop_first()) =~= Seq::<u8>::empty());
        assert(encode_utf8(s1) =~= encode_scalar(s1[0] as u32) + encode_utf8(s1.drop_first()));
        assert(byte_len(c.take(k1 + 1)) == off);
    }
}

/// Appending text keeps every character boundary of the encoding, and the
/// bytes before it.
pub proof fn lemma_boundary_append(a: Seq<char>, b: Seq<char>, off: int)
    requires
        is_char_boundary(encode_utf8(a), off),
    ensures
        is_char_boundary(encode_utf8(a + b), off),
        off <= encode_utf8(a).len(),
{
    lemma_boundary_is_prefix(a, off);
    let k = choose|k: int| 0 <= k <= a.len() && #[trigger] byte_len(a.take(k)) == off;
    assert((a + b).take(k) =~= a.take(k));
    lemma_prefix_is_boundary(a + b, k);
    lemma_encode_concat(a.take(k), a.skip(k));
    assert(a =~= a.take(k) + a.skip(k));
}

/// Splitting the encoding of `a + b + d` at the two inner offsets gives back
/// the encoding of `b`, and both offsets are character boundaries.
pub proof fn lemma_middle_slice(a: Seq<char>, b: Seq<char>, d: Seq<char>)
    ensures
        ({
            let all = encode_utf8(a + b + d);
            let s = byte_len(a) as int;
            let e = s + byte_len(b);
            &&& e <= all.len()
            &&& is_char_boundary(all, s)
            &&& is_char_boundary(all, e)
            &&& all.subrange(s, e) == encode_utf8(b)
        }),
{
    let c = a + b + d;
    lemma_encode_concat(a + b, d);
    lemma_encode_concat(a, b);
    assert(c.take(a.len() as int) =~= a);
    assert(c.take((a.len() + b.len()) as int) =~= a + b);
    lemma_prefix_is_boundary(c, a.len() as int);
    lemma_prefix_is_boundary(c, (a.len() + b.len()) as int);
    let all = encode_utf8(c);
    assert(all.subrange(byte_len(a) as int, (byte_len(a) + byte_len(b)) as int) =~= encode_utf8(b));
}

/// Each character takes at least one byte.
pub proof fn lemma_byte_len_ge_len(c: Seq<char>)
    ensures
        byte_len(c) >= c.len(),
    decreases c.len(),
{
    if c.len() > 0 {
        lemma_byte_len_ge_len(c.drop_first());
    }
}

/// The bytes between two character boundaries of an encoding are the
/// encoding of the characters between them.
pub proof fn lemma_span_roundtrip(c: Seq<char>, s: int, e: int)
    requires
        s <= e,
        is_char_boundary(encode_utf8(c), s),
        is_char_boundary(encode_utf8(c), e),
    ensures
        encode_utf8(decode_utf8(encode_utf8(c).subrange(s, e))) == encode_utf8(c).subrange(s, e),
{
    lemma_boundary_is_prefix(c, s);
    let k1 = choose|k: int| 0 <= k <= c.len() && #[trigger] byte_len(c.take(k)) == s;
    lemma_boundary_is_prefix(c, e);
    let k2 = choose|k: int| 0 <= k <= c.len() && #[trigger] byte_len(c.take(k)) == e;
    if k2 < k1 {
        assert(c.take(k1) =~= c.take(k2) + c.subrange(k2, k1));
        lemma_encode_concat(c.take(k2), c.subrange(k2, k1));
        lemma_byte_len_ge_len(c.subrange(k2, k1));
        assert(false);
    }
    let mid = c.subrange(k1, k2);
    assert(c =~= c.take(k1) + mid + c.skip(k2));
    assert(c.take(k2) =~= c.take(k1) + mid);
    lemma_encode_concat(c.take(k1), mid);
    lemma_middle_slice(c.take(k1), mid, c.skip(k2));
    encode_utf8_decode_utf8(mid);
}

/// `&s[start..end]` on a `str`: the bytes between two character boundaries.
#[verifier::external_body]
pub(crate) fn str_slice(s: &str, start: usize, end: usize) -> (r: &str)
    requires
        start <= end <= s.spec_bytes().len(),
        is_char_boundary(s.spec_bytes(), start as int),
        is_char_boundary(s.spec_bytes(), end as int),
    ensures
        r.spec_bytes() == s.spec_bytes().subrange(start as int, end as int),
{
    &s[start..end]
}

/// A character sequence is determined by its encoding.
pub proof fn lemma_encode_injective(a: Seq<char>, b: Seq<char>)
    requires
        encode_utf8(a) == encode_utf8(b),
    ensures
        a == b,
{
    encode_utf8_decode_utf8(a);
    encode_utf8_decode_utf8(b);
}

/// `str::rsplit_once` with a character pattern: the text before and after
/// the last occurrence of `c`, or `None` when `c` does not occur.
#[verifier::external_body]
pub(crate) fn rsplit_once_char(s: &str, c: char) -> (r: Option<(&str, &str)>)
    ensures
        r matches Some((a, b)) ==> s@ == a@ + seq![c] + b@ && !b@.contains(c),
        r is None ==> !s@.contains(c),
{
    s.rsplit_once(c)
}

/// Lexicographic order of byte sequences, as `Ord` for `str` and `[u8]` is
/// documented: the first differing byte decides, and a proper prefix is less.
pub open spec fn bytes_order(a: Seq<u8>, b: Seq<u8>) -> Ordering
    decreases a.len(),
{
    if a.len() == 0 && b.len() == 0 {
        Ordering::Equal
    } else if a.len() == 0 {
        Ordering::Less
    } else if b.len() == 0 {
        Ordering::Greater
    } else if a[0] < b[0] {
        Ordering::Less
    } else if a[0] > b[0] {
        Ordering::Greater
    } else {
        bytes_order(a.drop_first(), b.drop_first())
    }
}

/// The order of two strings under `Ord for str`: byte-wise lexicographic.
pub open spec fn str_order(a: Seq<char>, b: Seq<char>) -> Ordering {
    bytes_order(encode_utf8(a), encode_utf8(b))
}

/// `Ord::cmp` on `str`, which compares the UTF-8 bytes lexicographically.
#[verifier::external_body]
pub(crate) fn str_cmp(a: &str, b: &str) -> (r: Ordering)
    ensures
        r == str_order(a@, b@),
{
    a.cmp(b)
}

/// Whether two strings are equal, decided by their byte order.
pub fn str_eq(a: &str, b: &str) -> (r: bool)
    ensures
        r == (a@ == b@),
{
    let o = str_cmp(a, b);
    proof {
        lemma_bytes_order_equal(encode_utf8(a@), encode_utf8(b@));
        if encode_utf8(a@) == encode_utf8(b@) {
            lemma_encode_injective(a@, b@);
        }
    }
    match o {
        Ordering::Equal => true,
        _ => false,
    }
}

/// The mirror of an ordering.
pub open spec fn reversed(o: Ordering) -> Ordering {
    match o {
        Ordering::Less => Ordering::Greater,
        Ordering::Equal => Ordering::Equal,
        Ordering::Greater => Ordering::Less,
    }
}

/// Swapping the arguments of the byte order mirrors the result.
pub proof fn lemma_bytes_order_antisymmetric(a: Seq<u8>, b: Seq<u8>)
    ensures
        bytes_order(b, a) == reversed(bytes_order(a, b)),
    decreases a.len(),
{
    if a.len() > 0 && b.len() > 0 && a[0] == b[0] {
        lemma_bytes_order_antisymmetric(a.drop_first(), b.drop_first());
    }
}

/// The byte order says `Equal` exactly on equal sequences.
pub proof fn lemma_bytes_order_equal(a: Seq<u8>, b: Seq<u8>)
    ensures
        (bytes_order(a, b) == Ordering::Equal) <==> a == b,
    decreases a.len(),
{
    if a.len() > 0 && b.len() > 0 && a[0] == b[0] {
        lemma_bytes_order_equal(a.drop_first(), b.drop_first());
        if a.drop_first() == b.drop_first() {
            assert(a =~= seq![a[0]] + a.drop_first());
            assert(b =~= seq![b[0]] + b.drop_first());
        }
        if a == b {
            assert(a.drop_first() == b.drop_first());
        }
    } else if a.len() > 0 && b.len() > 0 {
        assert(a[0] != b[0]);
        if a == b {
            assert(a[0] == b[0]);
        }
    } else if a.len() == 0 && b.len() == 0 {
        assert(a =~= b);
    } else {
        assert(a.len() != b.len());
    }
}

/// The byte order is transitive.
pub proof fn lemma_bytes_order_transitive(a: Seq<u8>, b: Seq<u8>, c: Seq<u8>, o: Ordering)
    requires
        o != Ordering::Equal,
        bytes_order(a, b) == o,
        bytes_order(b, c) == o,
    ensures
        bytes_order(a, c) == o,
    decreases a.len(),
{
    if a.len() > 0 && b.len() > 0 && c.len() > 0 && a[0] == b[0] && b[0] == c[0] {
        lemma_bytes_order_transitive(a.drop_first(), b.drop_first(), c.drop_first(), o);
    }
}

} // verus!

verus! {

/// `str::ends_with` with a character pattern.
#[verifier::external_body]
pub(crate) fn ends_with_char(s: &str, c: char) -> (r: bool)
    ensures
        r == (s@.len() > 0 && s@.last() == c),
{
    s.ends_with(c)
}

/// The characters of a text (`str::chars`, collected).
#[verifier::external_body]
pub(crate) fn chars_of(s: &str) -> (v: Vec<char>)
    ensures
        v@ == s@,
{
    s.chars().collect()
}

/// `std::path::MAIN_SEPARATOR`: `/` on Unix, `\` on Windows.
#[verifier::external_body]
pub(crate) fn main_separator() -> (c: char)
    ensures
        c == '/' || c == '\\',
{
    std::path::MAIN_SEPARATOR
}

/// Appending a path component as `PathBuf::push` does for a relative name
/// without a prefix: a separator goes in between unless the base is empty or
/// already ends with one.
pub open spec fn spec_join(base: Seq<char>, name: Seq<char>, sep: char) -> Seq<char> {
    if base.len() == 0 || base.last() == sep {
        base + name
    } else {
        base.push(sep) + name
    }
}

/// Appends a component to a path (see [`spec_join`]).
pub fn join_path(base: String, name: &str, sep: char) -> (r: String)
    ensures
        r@ == spec_join(base@, name@, sep),
{
    let mut b = base;
    if !(b.as_str().is_empty() || ends_with_char(b.as_str(), sep)) {
        b.push(sep);
    }
    b.push_str(name);
    b
}

} // verus!

verus! {

/// The UTF-8 length of a string in bytes (`str::len`), with the fact that
/// it fits in `usize`.
pub fn byte_length(s: &str) -> (n: usize)
    ensures
        n == s.spec_bytes().len(),
{
    let b = s.as_bytes();
    b.len()
}

} // verus!

verus! {

/// The decimal digits of a number, without leading zeros (`0` for zero).
pub open spec fn spec_decimal(n: nat) -> Seq<char>
    decreases n,
{
    if n < 10 {
        seq![digit_char((n % 10) as u8)]
    } else {
        spec_decimal(n / 10).push(digit_char((n % 10) as u8))
    }
}

/// The character of a decimal digit.
pub open spec fn digit_char(d: u8) -> char {
    if d == 0 { '0' } else if d == 1 { '1' } else if d == 2 { '2' } else if d == 3 { '3' }
    else if d == 4 { '4' } else if d == 5 { '5' } else if d == 6 { '6' } else if d == 7 { '7' }
    else if d == 8 { '8' } else { '9' }
}

/// The character of a decimal digit.
fn digit(d: u8) -> (c: char)
    ensures
        c == digit_char(d),
{
    if d == 0 { '0' } else if d == 1 { '1' } else if d == 2 { '2' } else if d == 3 { '3' }
    else if d == 4 { '4' } else if d == 5 { '5' } else if d == 6 { '6' } else if d == 7 { '7' }
    else if d == 8 { '8' } else { '9' }
}

/// Appends the decimal digits of `n` (see [`spec_decimal`]).
pub fn push_decimal(s: &mut String, n: u64)
    ensures
        final(s)@ == old(s)@ + spec_decimal(n as nat),
    decreases n,
{
    if n >= 10 {
        push_decimal(s, n / 10);
    }
    s.push(digit((n % 10) as u8));
    proof {
        if n >= 10 {
            assert(spec_decimal(n as nat) == spec_decimal((n / 10) as nat).push(digit_char((n % 10) as u8)));
        }
    }
}

/// The decimal text of a number (`to_string` on an integer).
pub fn decimal(n: u64) -> (s: String)
    ensures
        s@ == spec_decimal(n as nat),
{
    let mut s = String::new();
    push_decimal(&mut s, n);
    s
}

/// Whether a character has the Unicode White_Space property, which is what
/// `char::is_whitespace` tests: tab to carriage return, space, next line,
/// no-break space, ogham space mark, the spaces from en quad to hair space,
/// line and paragraph separators, narrow no-break space, medium
/// mathematical space and ideographic space.
pub open spec fn is_white_space(c: char) -> bool {
    ||| '\u{9}' <= c <= '\u{d}'
    ||| c == ' '
    ||| c == '\u{85}'
    ||| c == '\u{a0}'
    ||| c == '\u{1680}'
    ||| '\u{2000}' <= c <= '\u{200a}'
    ||| c == '\u{2028}'
    ||| c == '\u{2029}'
    ||| c == '\u{202f}'
    ||| c == '\u{205f}'
    ||| c == '\u{3000}'
}

/// The text without its leading white space.
pub open spec fn trim_start_ws(s: Seq<char>) -> Seq<char>
    decreases s.len(),
{
    if s.len() > 0 && is_white_space(s[0]) { trim_start_ws(s.drop_first()) } else { s }
}

/// The text without its trailing white space.
pub open spec fn trim_end_ws(s: Seq<char>) -> Seq<char>
    decreases s.len(),
{
    if s.len() > 0 && is_white_space(s.last()) { trim_end_ws(s.drop_last()) } else { s }
}

/// The text without leading and trailing white space.
pub open spec fn trim_ws(s: Seq<char>) -> Seq<char> {
    trim_end_ws(trim_start_ws(s))
}

/// `str::trim`: the text without leading and trailing Unicode white space.
#[verifier::external_body]
pub(crate) fn str_trim(s: &str) -> (r: &str)
    ensures
        r@ == trim_ws(s@),
        r@.len() > 0 ==> !is_white_space(r@[0]) && !is_white_space(r@.last()),
{
    s.trim()
}

/// The lowercase form of a text under `str::to_lowercase` (Unicode case
/// mapping), a function of the text.
pub uninterp spec fn lowercase(s: Seq<char>) -> Seq<char>;

/// `str::to_lowercase`; its result is named [`lowercase`].
#[verifier::external_body]
pub(crate) fn to_lowercase(s: &str) -> (r: String)
    ensures
        r@ == lowercase(s@),
{
    s.to_lowercase()
}

/// The uppercase form of a character under `char::to_uppercase`, one or
/// more characters.
pub uninterp spec fn uppercase(c: char) -> Seq<char>;

/// `char::to_uppercase`, collected; its result is named [`uppercase`].
#[verifier::external_body]
pub(crate) fn char_to_uppercase(c: char) -> (r: String)
    ensures
        r@ == uppercase(c),
{
    c.to_uppercase().collect::<String>()
}

/// The first character of a text and the rest (`chars().next()` and
/// `as_str()`), or `None` for the empty text.
#[verifier::external_body]
pub(crate) fn split_first_char(s: &str) -> (r: Option<(char, &str)>)
    ensures
        match r {
            Some((c, rest)) => s@.len() > 0 && c == s@[0] && rest@ == s@.drop_first(),
            None => s@.len() == 0,
        },
{
    let mut chars = s.chars();
    match chars.next() {
        Some(c) => Some((c, chars.as_str())),
        None => None,
    }
}

} // verus!
