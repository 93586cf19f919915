//! File modes (Unix permission bits or Windows file attributes) and their
//! textual renderings.

use vstd::prelude::*;
use vstd::std_specs::convert::FromSpecImpl;

verus! {

/// A raw file mode: Unix `st_mode` bits or Windows file attribute bits.
#[derive(Clone, Copy, PartialEq, Eq, PartialOrd, Ord, Debug)]
pub struct Mode(pub u32);

/// Whether every bit of `flag` is set in `value`.
pub open spec fn spec_has_flag(value: u32, flag: u32) -> bool {
    value & flag == flag
}

/// Whether every bit of `flag` is set in `value`.
pub fn has_flag(value: u32, flag: u32) -> (r: bool)
    ensures
        r == spec_has_flag(value, flag),
{
    value & flag == flag
}

impl Default for Mode {
    fn default() -> (m: Self)
        ensures
            m.0 == 0,
    {
        Mode(0)
    }
}

impl From<u32> for Mode {
    fn from(value: u32) -> (m: Self) {
        Mode(value)
    }
}

impl FromSpecImpl<u32> for Mode {
    open spec fn obeys_from_spec() -> bool {
        true
    }

    open spec fn from_spec(v: u32) -> Mode {
        Mode(v)
    }
}

// ---------------------------------------------------------------------------
// Unix

pub const S_IFMT: u32 = 0xf000;
pub const S_IFIFO: u32 = 0x1000;
pub const S_IFCHR: u32 = 0x2000;
pub const S_IFDIR: u32 = 0x4000;
pub const S_IFBLK: u32 = 0x6000;
pub const S_IFREG: u32 = 0x8000;
pub const S_IFLNK: u32 = 0xa000;
pub const S_IFSOCK: u32 = 0xc000;

pub const S_ISUID: u32 = 0o4000;
pub const S_ISGID: u32 = 0o2000;
pub const S_ISVTX: u32 = 0o1000;

pub const S_IRUSR: u32 = 0o0400;
pub const S_IWUSR: u32 = 0o0200;
pub const S_IXUSR: u32 = 0o0100;

pub const S_IRGRP: u32 = 0o0040;
pub const S_IWGRP: u32 = 0o0020;
pub const S_IXGRP: u32 = 0o0010;

pub const S_IROTH: u32 = 0o0004;
pub const S_IWOTH: u32 = 0o0002;
pub const S_IXOTH: u32 = 0o0001;

/// The octal digit for `d < 8`.
pub open spec fn spec_octal_digit(d: u32) -> char {
    if d == 0 { '0' } else if d == 1 { '1' } else if d == 2 { '2' } else if d == 3 { '3' }
    else if d == 4 { '4' } else if d == 5 { '5' } else if d == 6 { '6' } else { '7' }
}

/// `format!("{:04o}", m & 0o7777)`: the permission bits as four octal digits.
pub open spec fn spec_display_octal(m: u32) -> Seq<char> {
    let v = m & 0o7777;
    seq![
        spec_octal_digit((v / 512) % 8),
        spec_octal_digit((v / 64) % 8),
        spec_octal_digit((v / 8) % 8),
        spec_octal_digit(v % 8),
    ]
}

/// The character for the file type held in the `S_IFMT` bits.
pub open spec fn spec_file_type_char(m: u32) -> char {
    let t = m & S_IFMT;
    if t == S_IFIFO { 'p' }
    else if t == S_IFCHR { 'c' }
    else if t == S_IFDIR { 'd' }
    else if t == S_IFBLK { 'b' }
    else if t == S_IFLNK { 'l' }
    else if t == S_IFSOCK { 's' }
    else { '-' }
}

/// A read or write permission character.
pub open spec fn spec_perm_char(m: u32, flag: u32, c: char) -> char {
    if spec_has_flag(m, flag) { c } else { '-' }
}

/// An execute permission character combined with a special bit
/// (setuid, setgid or sticky): `x`, `-`, or `lower` / `upper` when the special bit is set.
pub open spec fn spec_exec_char(m: u32, exec: u32, special: u32, lower: char, upper: char) -> char {
    match (spec_has_flag(m, exec), spec_has_flag(m, special)) {
        (false, false) => '-',
        (true, false) => 'x',
        (false, true) => upper,
        (true, true) => lower,
    }
}

/// The `ls -l` style rendering, such as `drwxr-xr-x`.
pub open spec fn spec_display_symbolic(m: u32) -> Seq<char> {
    seq![
        spec_file_type_char(m),
        spec_perm_char(m, S_IRUSR, 'r'),
        spec_perm_char(m, S_IWUSR, 'w'),
        spec_exec_char(m, S_IXUSR, S_ISUID, 's', 'S'),
        spec_perm_char(m, S_IRGRP, 'r'),
        spec_perm_char(m, S_IWGRP, 'w'),
        spec_exec_char(m, S_IXGRP, S_ISGID, 's', 'S'),
        spec_perm_char(m, S_IROTH, 'r'),
        spec_perm_char(m, S_IWOTH, 'w'),
        spec_exec_char(m, S_IXOTH, S_ISVTX, 't', 'T'),
    ]
}

fn octal_digit(d: u32) -> (c: char)
    requires
        d < 8,
    ensures
        c == spec_octal_digit(d),
{
    if d == 0 { '0' } else if d == 1 { '1' } else if d == 2 { '2' } else if d == 3 { '3' }
    else if d == 4 { '4' } else if d == 5 { '5' } else if d == 6 { '6' } else { '7' }
}

fn perm_char(m: u32, flag: u32, c: char) -> (r: char)
    ensures
        r == spec_perm_char(m, flag, c),
{
    if has_flag(m, flag) { c } else { '-' }
}

fn exec_char(m: u32, exec: u32, special: u32, lower: char, upper: char) -> (r: char)
    ensures
        r == spec_exec_char(m, exec, special, lower, upper),
{
    match (has_flag(m, exec), has_flag(m, special)) {
        (false, false) => '-',
        (true, false) => 'x',
        (false, true) => upper,
        (true, true) => lower,
    }
}

/// Renders a Unix mode in octal, as `ls` prints permission bits.
pub struct DisplayOctal(pub u32);

impl DisplayOctal {
    /// The rendering, such as `0755`.
    pub fn to_string(&self) -> (s: String)
        ensures
            s@ == spec_display_octal(self.0),
    {
        let v = self.0 & 0o7777;
        let mut s = String::new();
        s.push(octal_digit((v / 512) % 8));
        s.push(octal_digit((v / 64) % 8));
        s.push(octal_digit((v / 8) % 8));
        s.push(octal_digit(v % 8));
        s
    }
}

/// Renders a Unix mode symbolically, as `ls -l` does.
pub struct DisplaySymbolic(pub u32);

impl DisplaySymbolic {
    /// The rendering, such as `drwxr-xr-x`.
    pub fn to_string(&self) -> (s: String)
        ensures
            s@ == spec_display_symbolic(self.0),
    {
        let m = self.0;
        let t = m & S_IFMT;
        let ty = if t == S_IFIFO { 'p' }
            else if t == S_IFCHR { 'c' }
            else if t == S_IFDIR { 'd' }
            else if t == S_IFBLK { 'b' }
            else if t == S_IFLNK { 'l' }
            else if t == S_IFSOCK { 's' }
            else { '-' };
        let mut s = String::new();
        s.push(ty);
        s.push(perm_char(m, S_IRUSR, 'r'));
        s.push(perm_char(m, S_IWUSR, 'w'));
        s.push(exec_char(m, S_IXUSR, S_ISUID, 's', 'S'));
        s.push(perm_char(m, S_IRGRP, 'r'));
        s.push(perm_char(m, S_IWGRP, 'w'));
        s.push(exec_char(m, S_IXGRP, S_ISGID, 's', 'S'));
        s.push(perm_char(m, S_IROTH, 'r'));
        s.push(perm_char(m, S_IWOTH, 'w'));
        s.push(exec_char(m, S_IXOTH, S_ISVTX, 't', 'T'));
        assert(s@ =~= spec_display_symbolic(m));
        s
    }
}

// ---------------------------------------------------------------------------
// Windows

pub const FILE_ATTRIBUTE_READONLY: u32 = 0x00000001;
pub const FILE_ATTRIBUTE_HIDDEN: u32 = 0x00000002;
pub const FILE_ATTRIBUTE_SYSTEM: u32 = 0x00000004;
pub const FILE_ATTRIBUTE_DIRECTORY: u32 = 0x00000010;
pub const FILE_ATTRIBUTE_ARCHIVE: u32 = 0x00000020;
pub const FILE_ATTRIBUTE_REPARSE_POINT: u32 = 0x00000400;

/// The number of attribute bits with a traditional letter slot.
pub const NUM_ATTRIBUTE_CHARS: u32 = 21;

/// The traditional letter of attribute bit `i` (`'\0'` for bits without one).
pub open spec fn spec_attribute_char(i: u32) -> char {
    if i == 0 { 'R' } else if i == 1 { 'H' } else if i == 2 { 'S' } else if i == 3 { 'V' }
    else if i == 4 { 'D' } else if i == 5 { 'A' } else if i == 6 { 'X' } else if i == 7 { 'N' }
    else if i == 8 { 'T' } else if i == 9 { 'P' } else if i == 10 { 'L' } else if i == 11 { 'C' }
    else if i == 12 { 'O' } else if i == 13 { 'I' } else if i == 14 { 'E' } else if i == 15 { 'V' }
    else if i == 16 { '\0' } else if i == 17 { 'X' } else if i == 18 { '\0' } else if i == 19 { 'P' }
    else { 'U' }
}

fn attribute_char(i: u32) -> (c: char)
    ensures
        c == spec_attribute_char(i),
{
    if i == 0 { 'R' } else if i == 1 { 'H' } else if i == 2 { 'S' } else if i == 3 { 'V' }
    else if i == 4 { 'D' } else if i == 5 { 'A' } else if i == 6 { 'X' } else if i == 7 { 'N' }
    else if i == 8 { 'T' } else if i == 9 { 'P' } else if i == 10 { 'L' } else if i == 11 { 'C' }
    else if i == 12 { 'O' } else if i == 13 { 'I' } else if i == 14 { 'E' } else if i == 15 { 'V' }
    else if i == 16 { '\0' } else if i == 17 { 'X' } else if i == 18 { '\0' } else if i == 19 { 'P' }
    else { 'U' }
}

/// The letters of the set attribute bits among the first `n` slots, in bit order.
pub open spec fn spec_traditional_prefix(m: u32, n: nat) -> Seq<char>
    decreases n,
{
    if n == 0 {
        Seq::empty()
    } else {
        let i = (n - 1) as u32;
        let c = spec_attribute_char(i);
        let rest = spec_traditional_prefix(m, (n - 1) as nat);
        if c != '\0' && spec_has_flag(m, 1u32 << i) {
            rest.push(c)
        } else {
            rest
        }
    }
}

/// The `attrib`-style rendering, such as `RHA`.
pub open spec fn spec_display_traditional(m: u32) -> Seq<char> {
    spec_traditional_prefix(m, NUM_ATTRIBUTE_CHARS as nat)
}

/// The PowerShell `Mode` column rendering, such as `-a-h-`.
pub open spec fn spec_display_powershell(m: u32) -> Seq<char> {
    seq![
        if spec_has_flag(m, FILE_ATTRIBUTE_REPARSE_POINT) { 'l' }
        else if spec_has_flag(m, FILE_ATTRIBUTE_DIRECTORY) { 'd' }
        else { '-' },
        spec_perm_char(m, FILE_ATTRIBUTE_ARCHIVE, 'a'),
        spec_perm_char(m, FILE_ATTRIBUTE_READONLY, 'r'),
        spec_perm_char(m, FILE_ATTRIBUTE_HIDDEN, 'h'),
        spec_perm_char(m, FILE_ATTRIBUTE_SYSTEM, 's'),
    ]
}

/// Renders Windows file attributes as `attrib` does.
pub struct DisplayTraditional(pub u32);

impl DisplayTraditional {
    /// The rendering, such as `RHA`.
    pub fn to_string(&self) -> (s: String)
        ensures
            s@ == spec_display_traditional(self.0),
    {
        let m = self.0;
        let mut s = String::new();
        let mut i: u32 = 0;
        while i < NUM_ATTRIBUTE_CHARS
            invariant
                i <= NUM_ATTRIBUTE_CHARS,
                s@ == spec_traditional_prefix(m, i as nat),
            decreases NUM_ATTRIBUTE_CHARS - i,
        {
            let c = attribute_char(i);
            if c != '\0' && has_flag(m, 1u32 << i) {
                s.push(c);
            }
            i = i + 1;
        }
        s
    }
}

/// Renders Windows file attributes as PowerShell's `Mode` column does.
pub struct DisplayPowerShell(pub u32);

impl DisplayPowerShell {
    /// The rendering, such as `d----`.
    pub fn to_string(&self) -> (s: String)
        ensures
            s@ == spec_display_powershell(self.0),
    {
        let m = self.0;
        let mut s = String::new();
        s.push(
            if has_flag(m, FILE_ATTRIBUTE_REPARSE_POINT) { 'l' }
            else if has_flag(m, FILE_ATTRIBUTE_DIRECTORY) { 'd' }
            else { '-' },
        );
        s.push(perm_char(m, FILE_ATTRIBUTE_ARCHIVE, 'a'));
        s.push(perm_char(m, FILE_ATTRIBUTE_READONLY, 'r'));
        s.push(perm_char(m, FILE_ATTRIBUTE_HIDDEN, 'h'));
        s.push(perm_char(m, FILE_ATTRIBUTE_SYSTEM, 's'));
        assert(s@ =~= spec_display_powershell(m));
        s
    }
}

/// The value of an octal digit.
pub open spec fn octal_value(c: char) -> u32 {
    if c == '1' { 1 } else if c == '2' { 2 } else if c == '3' { 3 } else if c == '4' { 4 }
    else if c == '5' { 5 } else if c == '6' { 6 } else if c == '7' { 7 } else { 0 }
}

/// The letters of one class (owner, group or others) in the symbolic form
/// that start at `at` agree with the class's octal digit `d`: read, write
/// and execute are shown exactly when bits 4, 2 and 1 of the digit are set.
pub open spec fn class_agrees(sym: Seq<char>, at: int, d: u32) -> bool {
    &&& (sym[at] == 'r') == (d & 4 == 4)
    &&& (sym[at + 1] == 'w') == (d & 2 == 2)
    &&& (sym[at + 2] == 'x' || sym[at + 2] == 's' || sym[at + 2] == 't') == (d & 1 == 1)
}

proof fn lemma_octal_value(d: u32)
    requires
        d < 8,
    ensures
        octal_value(spec_octal_digit(d)) == d,
{
}

proof fn lemma_digit_bits(m: u32)
    by (bit_vector)
    ensures
        ((((m & 0o7777) / 512) % 8) & 4 == 4) == (m & 0o4000 == 0o4000),
        ((((m & 0o7777) / 512) % 8) & 2 == 2) == (m & 0o2000 == 0o2000),
        ((((m & 0o7777) / 512) % 8) & 1 == 1) == (m & 0o1000 == 0o1000),
        ((((m & 0o7777) / 64) % 8) & 4 == 4) == (m & 0o400 == 0o400),
        ((((m & 0o7777) / 64) % 8) & 2 == 2) == (m & 0o200 == 0o200),
        ((((m & 0o7777) / 64) % 8) & 1 == 1) == (m & 0o100 == 0o100),
        ((((m & 0o7777) / 8) % 8) & 4 == 4) == (m & 0o40 == 0o40),
        ((((m & 0o7777) / 8) % 8) & 2 == 2) == (m & 0o20 == 0o20),
        ((((m & 0o7777) / 8) % 8) & 1 == 1) == (m & 0o10 == 0o10),
        (((m & 0o7777) % 8) & 4 == 4) == (m & 0o4 == 0o4),
        (((m & 0o7777) % 8) & 2 == 2) == (m & 0o2 == 0o2),
        (((m & 0o7777) % 8) & 1 == 1) == (m & 0o1 == 0o1),
{
}

/// The octal and the symbolic renderings of a Unix mode agree: in each
/// class (owner, group, others) the symbolic form shows read, write and
/// execute exactly where the class's octal digit has them, and it shows
/// the setuid, setgid and sticky letters (`s`/`S`, `s`/`S`, `t`/`T`)
/// exactly where the first octal digit has bits 4, 2 and 1.
pub proof fn law_octal_agrees_with_symbolic(m: u32)
    ensures
        ({
            let oct = spec_display_octal(m);
            let sym = spec_display_symbolic(m);
            &&& class_agrees(sym, 1, octal_value(oct[1]))
            &&& class_agrees(sym, 4, octal_value(oct[2]))
            &&& class_agrees(sym, 7, octal_value(oct[3]))
            &&& (sym[3] == 's' || sym[3] == 'S') == (octal_value(oct[0]) & 4 == 4)
            &&& (sym[6] == 's' || sym[6] == 'S') == (octal_value(oct[0]) & 2 == 2)
            &&& (sym[9] == 't' || sym[9] == 'T') == (octal_value(oct[0]) & 1 == 1)
        }),
{
    let v = m & 0o7777;
    assert(v / 512 % 8 < 8 && v / 64 % 8 < 8 && v / 8 % 8 < 8 && v % 8 < 8);
    lemma_octal_value(v / 512 % 8);
    lemma_octal_value(v / 64 % 8);
    lemma_octal_value(v / 8 % 8);
    lemma_octal_value(v % 8);
    lemma_digit_bits(m);
}

/// The symbolic rendering is ten characters long, and its first names the
/// file type held in bits 12 to 15 of the mode, as `ls -l` does: `p` for a
/// FIFO (type 1), `c` for a character device (2), `d` for a directory (4),
/// `b` for a block device (6), `l` for a symbolic link (10), `s` for a
/// socket (12), and `-` for a regular file (8) or any other type.
pub proof fn law_symbolic_names_the_file_type(m: u32)
    ensures
        spec_display_symbolic(m).len() == 10,
        ({
            let t = m / 4096 % 16;
            let c = spec_display_symbolic(m)[0];
            &&& (c == 'p') == (t == 1)
            &&& (c == 'c') == (t == 2)
            &&& (c == 'd') == (t == 4)
            &&& (c == 'b') == (t == 6)
            &&& (c == 'l') == (t == 10)
            &&& (c == 's') == (t == 12)
            &&& (c == '-') == !(t == 1 || t == 2 || t == 4 || t == 6 || t == 10 || t == 12)
        }),
{
    assert(m & 0xf000 == (m / 4096 % 16) * 4096) by (bit_vector);
}

proof fn lemma_flag_bits(m: u32)
    by (bit_vector)
    ensures
        (m & 0o4000 == 0o4000) == (m / 2048 % 2 == 1),
        (m & 0o2000 == 0o2000) == (m / 1024 % 2 == 1),
        (m & 0o1000 == 0o1000) == (m / 512 % 2 == 1),
        (m & 0o400 == 0o400) == (m / 256 % 2 == 1),
        (m & 0o200 == 0o200) == (m / 128 % 2 == 1),
        (m & 0o100 == 0o100) == (m / 64 % 2 == 1),
        (m & 0o40 == 0o40) == (m / 32 % 2 == 1),
        (m & 0o20 == 0o20) == (m / 16 % 2 == 1),
        (m & 0o10 == 0o10) == (m / 8 % 2 == 1),
        (m & 0o4 == 0o4) == (m / 4 % 2 == 1),
        (m & 0o2 == 0o2) == (m / 2 % 2 == 1),
        (m & 0o1 == 0o1) == (m % 2 == 1),
        (m & 0o7777) / 512 % 8 == m / 512 % 8,
        (m & 0o7777) / 64 % 8 == m / 64 % 8,
        (m & 0o7777) / 8 % 8 == m / 8 % 8,
        (m & 0o7777) % 8 == m % 8,
{
}

/// Each letter after the type shows one permission bit, as `ls -l` does:
/// for the owner (bits 8, 7, 6), the group (5, 4, 3) and others (2, 1, 0),
/// `r`, `w` and an execute letter where the bit is set and `-` where it is
/// not; the execute letter is `x`, or `s`/`S` (`t`/`T` for others) when the
/// setuid (bit 11), setgid (bit 10) or sticky (bit 9) bit is set, lower case
/// when the execute bit is set too and upper case when it is not.
pub proof fn law_symbolic_shows_the_permission_bits(m: u32)
    ensures
        ({
            let s = spec_display_symbolic(m);
            let bit = |d: u32| m / d % 2 == 1;
            &&& s[1] == (if bit(256) { 'r' } else { '-' })
            &&& s[2] == (if bit(128) { 'w' } else { '-' })
            &&& s[3] == (if bit(2048) { if bit(64) { 's' } else { 'S' } } else if bit(64) { 'x' } else { '-' })
            &&& s[4] == (if bit(32) { 'r' } else { '-' })
            &&& s[5] == (if bit(16) { 'w' } else { '-' })
            &&& s[6] == (if bit(1024) { if bit(8) { 's' } else { 'S' } } else if bit(8) { 'x' } else { '-' })
            &&& s[7] == (if bit(4) { 'r' } else { '-' })
            &&& s[8] == (if bit(2) { 'w' } else { '-' })
            &&& s[9] == (if bit(512) { if bit(1) { 't' } else { 'T' } } else if bit(1) { 'x' } else { '-' })
        }),
{
    lemma_flag_bits(m);
}

/// The PowerShell rendering has five letters: `l` for a reparse point
/// (bit 10), else `d` for a directory (bit 4), else `-`; then `a`
/// (archive, bit 5), `r` (read-only, bit 0), `h` (hidden, bit 1) and `s`
/// (system, bit 2) where the bit is set, `-` where it is not.
pub proof fn law_powershell_shows_the_attribute_bits(m: u32)
    ensures
        ({
            let s = spec_display_powershell(m);
            let bit = |d: u32| m / d % 2 == 1;
            &&& s.len() == 5
            &&& s[0] == (if bit(1024) { 'l' } else if bit(16) { 'd' } else { '-' })
            &&& s[1] == (if bit(32) { 'a' } else { '-' })
            &&& s[2] == (if bit(1) { 'r' } else { '-' })
            &&& s[3] == (if bit(2) { 'h' } else { '-' })
            &&& s[4] == (if bit(4) { 's' } else { '-' })
        }),
{
    lemma_flag_bits(m);
}

proof fn lemma_traditional_contains(m: u32, n: nat, c: char)
    requires
        n <= 21,
    ensures
        spec_traditional_prefix(m, n).contains(c) <==> exists|i: u32| i < n && c != '\0'
            && #[trigger] spec_attribute_char(i) == c && spec_has_flag(m, 1u32 << i),
    decreases n,
{
    if n > 0 {
        let i = (n - 1) as u32;
        lemma_traditional_contains(m, (n - 1) as nat, c);
        let rest = spec_traditional_prefix(m, (n - 1) as nat);
        if spec_attribute_char(i) != '\0' && spec_has_flag(m, 1u32 << i) {
            assert(spec_traditional_prefix(m, n) == rest.push(spec_attribute_char(i)));
            if rest.contains(c) {
                let j = choose|j: int| 0 <= j < rest.len() && rest[j] == c;
                assert(rest.push(spec_attribute_char(i))[j] == c);
            }
            if c == spec_attribute_char(i) {
                assert(rest.push(spec_attribute_char(i))[rest.len() as int] == c);
            }
            if spec_traditional_prefix(m, n).contains(c) {
                let j = choose|j: int| 0 <= j < rest.len() + 1 && rest.push(spec_attribute_char(i))[j] == c;
                if j < rest.len() {
                    assert(rest[j] == c);
                }
            }
        }
    }
}

proof fn lemma_low_flag_bits(m: u32)
    by (bit_vector)
    ensures
        spec_has_flag(m, 1u32 << 0u32) == (m % 2 == 1),
        spec_has_flag(m, 1u32 << 1u32) == (m / 2 % 2 == 1),
        spec_has_flag(m, 1u32 << 2u32) == (m / 4 % 2 == 1),
        spec_has_flag(m, 1u32 << 4u32) == (m / 16 % 2 == 1),
        spec_has_flag(m, 1u32 << 5u32) == (m / 32 % 2 == 1),
        spec_has_flag(m, 1u32 << 7u32) == (m / 128 % 2 == 1),
        spec_has_flag(m, 1u32 << 8u32) == (m / 256 % 2 == 1),
        spec_has_flag(m, 1u32 << 10u32) == (m / 1024 % 2 == 1),
        spec_has_flag(m, 1u32 << 11u32) == (m / 2048 % 2 == 1),
        spec_has_flag(m, 1u32 << 12u32) == (m / 4096 % 2 == 1),
        spec_has_flag(m, 1u32 << 13u32) == (m / 8192 % 2 == 1),
        spec_has_flag(m, 1u32 << 14u32) == (m / 16384 % 2 == 1),
        spec_has_flag(m, 1u32 << 20u32) == (m / 1048576 % 2 == 1),
{
}

/// The `attrib` rendering shows a letter for each set attribute bit that
/// has one: `R` read-only (bit 0), `H` hidden (1), `S` system (2), `D`
/// directory (4), `A` archive (5), `N` normal (7), `T` temporary (8), `L`
/// reparse point (10), `C` compressed (11), `O` offline (12), `I` not
/// content-indexed (13), `E` encrypted (14) and `U` (20), and no letter for
/// a bit that is clear; it never holds more letters than there are slots.
pub proof fn law_traditional_shows_the_attribute_bits(m: u32)
    ensures
        ({
            let s = spec_display_traditional(m);
            let bit = |d: u32| m / d % 2 == 1;
            &&& s.len() <= 21
            &&& s.contains('R') == bit(1)
            &&& s.contains('H') == bit(2)
            &&& s.contains('S') == bit(4)
            &&& s.contains('D') == bit(16)
            &&& s.contains('A') == bit(32)
            &&& s.contains('N') == bit(128)
            &&& s.contains('T') == bit(256)
            &&& s.contains('L') == bit(1024)
            &&& s.contains('C') == bit(2048)
            &&& s.contains('O') == bit(4096)
            &&& s.contains('I') == bit(8192)
            &&& s.contains('E') == bit(16384)
            &&& s.contains('U') == bit(1048576)
        }),
{
    lemma_low_flag_bits(m);
    lemma_traditional_len(m, 21);
    let letters = seq!['R', 'H', 'S', 'D', 'A', 'N', 'T', 'L', 'C', 'O', 'I', 'E', 'U'];
    let slots = seq![0u32, 1, 2, 4, 5, 7, 8, 10, 11, 12, 13, 14, 20];
    assert forall|k: int| 0 <= k < 13 implies (spec_display_traditional(m).contains(#[trigger] letters[k])
        <==> spec_has_flag(m, 1u32 << slots[k])) by {
        lemma_traditional_contains(m, 21, letters[k]);
        if spec_display_traditional(m).contains(letters[k]) {
            let i = choose|i: u32| i < 21 && letters[k] != '\0' && #[trigger] spec_attribute_char(i) == letters[k]
                && spec_has_flag(m, 1u32 << i);
            assert(i == slots[k]);
        } else {
            assert(spec_attribute_char(slots[k]) == letters[k]);
        }
    }
    assert(letters[0] == 'R' && letters[1] == 'H' && letters[2] == 'S' && letters[3] == 'D' && letters[4] == 'A');
    assert(letters[5] == 'N' && letters[6] == 'T' && letters[7] == 'L' && letters[8] == 'C' && letters[9] == 'O');
    assert(letters[10] == 'I' && letters[11] == 'E' && letters[12] == 'U');
}

proof fn lemma_traditional_len(m: u32, n: nat)
    ensures
        spec_traditional_prefix(m, n).len() <= n,
    decreases n,
{
    if n > 0 {
        lemma_traditional_len(m, (n - 1) as nat);
    }
}

/// The octal rendering writes the permission bits (the low twelve) as four
/// octal digits, most significant first.
pub proof fn law_octal_writes_the_permission_bits(m: u32)
    ensures
        spec_display_octal(m).len() == 4,
        octal_value(spec_display_octal(m)[0]) == m / 512 % 8,
        octal_value(spec_display_octal(m)[1]) == m / 64 % 8,
        octal_value(spec_display_octal(m)[2]) == m / 8 % 8,
        octal_value(spec_display_octal(m)[3]) == m % 8,
        forall|i: int| 0 <= i < 4 ==> '0' <= #[trigger] spec_display_octal(m)[i] <= '7',
{
    lemma_flag_bits(m);
    let v = m & 0o7777;
    assert(v / 512 % 8 < 8 && v / 64 % 8 < 8 && v / 8 % 8 < 8 && v % 8 < 8);
    lemma_octal_value(v / 512 % 8);
    lemma_octal_value(v / 64 % 8);
    lemma_octal_value(v / 8 % 8);
    lemma_octal_value(v % 8);
}

impl Mode {
    /// The empty mode (all bits cleared).
    pub fn new() -> (m: Self)
        ensures
            m.0 == 0,
    {
        Mode(0)
    }

    /// The raw bits.
    pub fn bits(&self) -> (r: u32)
        ensures
            r == self.0,
    {
        self.0
    }

    /// Octal rendering of the permission bits.
    pub fn display_octal(&self) -> (d: DisplayOctal)
        ensures
            d.0 == self.0,
    {
        DisplayOctal(self.0)
    }

    /// Symbolic rendering, as `ls -l`.
    pub fn display_symbolic(&self) -> (d: DisplaySymbolic)
        ensures
            d.0 == self.0,
    {
        DisplaySymbolic(self.0)
    }

    /// Whether the Windows hidden attribute is set.
    pub fn is_hidden(&self) -> (r: bool)
        ensures
            r == spec_has_flag(self.0, FILE_ATTRIBUTE_HIDDEN),
    {
        has_flag(self.0, FILE_ATTRIBUTE_HIDDEN)
    }

    /// `attrib`-style rendering of Windows attributes.
    pub fn display_traditional(&self) -> (d: DisplayTraditional)
        ensures
            d.0 == self.0,
    {
        DisplayTraditional(self.0)
    }

    /// PowerShell-style rendering of Windows attributes.
    pub fn display_powershell(&self) -> (d: DisplayPowerShell)
        ensures
            d.0 == self.0,
    {
        DisplayPowerShell(self.0)
    }
}

} // verus!
