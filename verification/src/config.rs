//! The finder's configuration: search flags, what to index, and how the
//! interface looks, with the parsing of colors and of the match-path
//! option.

use vstd::prelude::*;
use crate::database::StatusKind;
use crate::query::{CaseSensitivity, MatchPathMode, SortOrder};
use crate::tui::style::Color;
use crate::text::{chars_of, is_white_space, lowercase, str_trim, to_lowercase, trim_ws, byte_len};

verus! {

/// The number of CPUs available to the process (`num_cpus::get`), at least 1.
#[verifier::external_body]
pub(crate) fn cpu_count() -> (n: usize)
    ensures
        n >= 1,
{
    num_cpus::get()
}

/// The command-line options of the finder.
pub struct Opt {
    /// Initial query.
    pub query: Option<String>,
    /// Search case-sensitively.
    pub case_sensitive: bool,
    /// Search case-insensitively.
    pub ignore_case: bool,
    /// Match path: `Some(None)` when given without a value (meaning always).
    pub match_path: Option<Option<MatchPathMode>>,
    /// Enable regex.
    pub regex: bool,
    /// Update the database and exit.
    pub update: bool,
    /// Number of threads to use.
    pub threads: Option<usize>,
    /// Location of a config file.
    pub config: Option<String>,
}

/// The search flags.
pub struct FlagConfig {
    pub query: Option<String>,
    pub case_sensitive: bool,
    pub ignore_case: bool,
    pub match_path: bool,
    pub auto_match_path: bool,
    pub regex: bool,
    pub threads: usize,
}

/// The default number of threads: one less than the CPUs, but at least 1.
pub open spec fn default_threads(cpus: usize) -> usize {
    if cpus > 2 { (cpus - 1) as usize } else { 1 }
}

impl FlagConfig {
    /// The default flags, for a machine with `cpus` CPUs: smart case, no
    /// path matching, no regex, and one thread less than the CPUs.
    pub fn with_cpus(cpus: usize) -> (f: FlagConfig)
        requires
            cpus >= 1,
        ensures
            f.query is None,
            !f.case_sensitive && !f.ignore_case && !f.match_path && !f.auto_match_path && !f.regex,
            f.threads == default_threads(cpus),
    {
        FlagConfig {
            query: None,
            case_sensitive: false,
            ignore_case: false,
            match_path: false,
            auto_match_path: false,
            regex: false,
            threads: if cpus - 1 > 1 { cpus - 1 } else { 1 },
        }
    }

    /// The default flags for this machine.
    pub fn new() -> (f: FlagConfig)
        ensures
            f.query is None,
            !f.case_sensitive && !f.ignore_case && !f.match_path && !f.auto_match_path && !f.regex,
            f.threads >= 1,
    {
        FlagConfig::with_cpus(cpu_count())
    }

    /// Merges the command-line options into the flags, on a machine with
    /// `cpus` CPUs: a query replaces the configured one; of the configured
    /// case flags, case-sensitive wins; either command-line case flag
    /// replaces both; path matching and regex are switched on by the
    /// options; a thread count is limited to one less than the CPUs and to
    /// at least 1.
    pub fn merge_opt_with_cpus(&mut self, opt: &Opt, cpus: usize)
        requires
            cpus >= 1,
        ensures
            final(self).query == match opt.query { Some(q) => Some(q), None => old(self).query },
            (opt.case_sensitive || opt.ignore_case) ==> final(self).case_sensitive == opt.case_sensitive
                && final(self).ignore_case == opt.ignore_case,
            !(opt.case_sensitive || opt.ignore_case) ==> final(self).case_sensitive == old(self).case_sensitive
                && final(self).ignore_case == (old(self).ignore_case && !old(self).case_sensitive),
            final(self).match_path == (old(self).match_path || opt.match_path == Some(None::<MatchPathMode>)
                || opt.match_path == Some(Some(MatchPathMode::Always))),
            final(self).auto_match_path == (old(self).auto_match_path || opt.match_path == Some(Some(MatchPathMode::Auto))),
            final(self).regex == (old(self).regex || opt.regex),
            final(self).threads == match opt.threads {
                Some(t) => if t < cpus - 1 { if t > 1 { t } else { 1 } } else if cpus - 1 > 1 { (cpus - 1) as usize } else { 1 },
                None => old(self).threads,
            },
    {
        match &opt.query {
            Some(q) => self.query = Some(q.clone()),
            None => {},
        }
        if self.case_sensitive && self.ignore_case {
            self.case_sensitive = true;
            self.ignore_case = false;
        }
        if opt.case_sensitive || opt.ignore_case {
            self.case_sensitive = opt.case_sensitive;
            self.ignore_case = opt.ignore_case;
        }
        match opt.match_path {
            Some(None) | Some(Some(MatchPathMode::Always)) => self.match_path = true,
            Some(Some(MatchPathMode::Auto)) => self.auto_match_path = true,
            _ => {},
        }
        self.regex = self.regex || opt.regex;
        match opt.threads {
            Some(t) => {
                let m = if t < cpus - 1 { t } else { cpus - 1 };
                self.threads = if m > 1 { m } else { 1 };
            },
            None => {},
        }
    }

    /// Merges the command-line options into the flags on this machine (see
    /// [`FlagConfig::merge_opt_with_cpus`]).
    pub fn merge_opt(&mut self, opt: &Opt)
        ensures
            final(self).query == match opt.query { Some(q) => Some(q), None => old(self).query },
            (opt.case_sensitive || opt.ignore_case) ==> final(self).case_sensitive == opt.case_sensitive
                && final(self).ignore_case == opt.ignore_case,
            !(opt.case_sensitive || opt.ignore_case) ==> final(self).case_sensitive == old(self).case_sensitive
                && final(self).ignore_case == (old(self).ignore_case && !old(self).case_sensitive),
            final(self).match_path == (old(self).match_path || opt.match_path == Some(None::<MatchPathMode>)
                || opt.match_path == Some(Some(MatchPathMode::Always))),
            final(self).auto_match_path == (old(self).auto_match_path || opt.match_path == Some(Some(MatchPathMode::Auto))),
            final(self).regex == (old(self).regex || opt.regex),
            opt.threads is None ==> final(self).threads == old(self).threads,
            opt.threads matches Some(t) ==> 1 <= final(self).threads && (final(self).threads <= t || final(self).threads == 1),
    {
        let cpus = cpu_count();
        self.merge_opt_with_cpus(opt, cpus);
    }

    /// When to match paths: always when asked, else automatically when
    /// asked, else never.
    pub fn match_path_mode(&self) -> (m: MatchPathMode)
        ensures
            m == if self.match_path {
                MatchPathMode::Always
            } else if self.auto_match_path {
                MatchPathMode::Auto
            } else {
                MatchPathMode::Never
            },
    {
        if self.match_path {
            MatchPathMode::Always
        } else if self.auto_match_path {
            MatchPathMode::Auto
        } else {
            MatchPathMode::Never
        }
    }

    /// How to treat letter case: case-sensitive when asked, else
    /// case-insensitive when asked, else smart case.
    pub fn case_sensitivity(&self) -> (c: CaseSensitivity)
        ensures
            c == if self.case_sensitive {
                CaseSensitivity::Sensitive
            } else if self.ignore_case {
                CaseSensitivity::Insensitive
            } else {
                CaseSensitivity::Smart
            },
    {
        if self.case_sensitive {
            CaseSensitivity::Sensitive
        } else if self.ignore_case {
            CaseSensitivity::Insensitive
        } else {
            CaseSensitivity::Smart
        }
    }
}

/// What to index, and where the database is kept.
pub struct DatabaseConfig {
    pub location: Option<String>,
    pub index: Vec<StatusKind>,
    pub fast_sort: Vec<StatusKind>,
    pub dirs: Vec<String>,
    pub ignore_hidden: bool,
}

/// A path with components appended, joined with `sep`.
pub open spec fn spec_in_dir(dir: Seq<char>, sep: char) -> Seq<char> {
    crate::text::spec_join(crate::text::spec_join(dir, "indexa"@, sep), "database.db"@, sep)
}

impl DatabaseConfig {
    /// The defaults, given the user's data directory and whether the file
    /// system root exists: the database in `indexa/database.db` below the
    /// data directory, and the root as the one directory to index.
    pub fn with_defaults(data_dir: Option<String>, root: &str, root_exists: bool, sep: char) -> (c: DatabaseConfig)
        ensures
            match data_dir {
                Some(d) => c.location matches Some(l) && l@ == spec_in_dir(d@, sep),
                None => c.location is None,
            },
            c.index@.len() == 0,
            c.fast_sort@.len() == 0,
            root_exists ==> c.dirs@.len() == 1 && c.dirs@[0]@ == root@,
            !root_exists ==> c.dirs@.len() == 0,
            !c.ignore_hidden,
    {
        proof {
            reveal_strlit("indexa");
            reveal_strlit("database.db");
        }
        let location = match data_dir {
            Some(d) => {
                let p = crate::text::join_path(d, "indexa", sep);
                Some(crate::text::join_path(p, "database.db", sep))
            },
            None => None,
        };
        let mut dirs: Vec<String> = Vec::new();
        if root_exists {
            dirs.push(root.to_owned());
        }
        DatabaseConfig { location, index: Vec::new(), fast_sort: Vec::new(), dirs, ignore_hidden: false }
    }
}

/// How modes are shown on Unix.
#[derive(Clone, Copy, PartialEq, Eq, Structural, Debug)]
pub enum ModeFormatUnix {
    Octal,
    Symbolic,
}

/// How modes are shown on Windows.
#[derive(Clone, Copy, PartialEq, Eq, Structural, Debug)]
pub enum ModeFormatWindows {
    Traditional,
    PowerShell,
}

/// Settings for Unix.
pub struct UIConfigUnix {
    pub mode_format: ModeFormatUnix,
}

/// Settings for Windows.
pub struct UIConfigWindows {
    pub mode_format: ModeFormatWindows,
}

/// A status that an index can be asked to hold, in the configuration files
/// of the first format.
#[derive(Clone, Copy, Debug, PartialEq, Eq)]
pub enum IndexKind {
    Size,
    Mode,
    Created,
    Modified,
    Accessed,
}

impl IndexKind {
    pub open spec fn spec_status_kind(self) -> StatusKind {
        match self {
            IndexKind::Size => StatusKind::Size,
            IndexKind::Mode => StatusKind::Mode,
            IndexKind::Created => StatusKind::Created,
            IndexKind::Modified => StatusKind::Modified,
            IndexKind::Accessed => StatusKind::Accessed,
        }
    }

    /// The status that this kind asks the index to hold.
    pub fn status_kind(self) -> (k: StatusKind)
        ensures
            k == self.spec_status_kind(),
    {
        match self {
            IndexKind::Size => StatusKind::Size,
            IndexKind::Mode => StatusKind::Mode,
            IndexKind::Created => StatusKind::Created,
            IndexKind::Modified => StatusKind::Modified,
            IndexKind::Accessed => StatusKind::Accessed,
        }
    }
}

/// What a column of the first configuration format shows.
#[derive(Clone, Copy, Debug, PartialEq, Eq)]
pub enum ColumnKind {
    Basename,
    FullPath,
    Extension,
    Size,
    Mode,
    Created,
    Modified,
    Accessed,
}

impl ColumnKind {
    pub open spec fn spec_status_kind(self) -> StatusKind {
        match self {
            ColumnKind::Basename => StatusKind::Basename,
            ColumnKind::FullPath => StatusKind::Path,
            ColumnKind::Extension => StatusKind::Extension,
            ColumnKind::Size => StatusKind::Size,
            ColumnKind::Mode => StatusKind::Mode,
            ColumnKind::Created => StatusKind::Created,
            ColumnKind::Modified => StatusKind::Modified,
            ColumnKind::Accessed => StatusKind::Accessed,
        }
    }

    /// The status the column shows.
    pub fn status_kind(self) -> (k: StatusKind)
        ensures
            k == self.spec_status_kind(),
    {
        match self {
            ColumnKind::Basename => StatusKind::Basename,
            ColumnKind::FullPath => StatusKind::Path,
            ColumnKind::Extension => StatusKind::Extension,
            ColumnKind::Size => StatusKind::Size,
            ColumnKind::Mode => StatusKind::Mode,
            ColumnKind::Created => StatusKind::Created,
            ColumnKind::Modified => StatusKind::Modified,
            ColumnKind::Accessed => StatusKind::Accessed,
        }
    }

    /// The column's title: the status's name, so the full path reads `Path`.
    pub fn to_string(self) -> (s: String)
        ensures
            s@ == self.spec_status_kind().spec_name(),
    {
        self.status_kind().name().to_string()
    }
}

/// A column of the table: the status it shows and, optionally, its width.
#[derive(Clone, Copy, Debug)]
pub struct Column {
    pub status: StatusKind,
    pub width: Option<u16>,
}

/// The colors of the interface.
#[derive(Clone, Copy, Debug)]
pub struct ColorConfig {
    pub selected_fg: Color,
    pub selected_bg: Color,
    pub matched_fg: Color,
    pub matched_bg: Color,
    pub prompt: Color,
    pub error_fg: Color,
    pub error_bg: Color,
}

/// How the interface looks.
pub struct UIConfig {
    pub sort_by: StatusKind,
    pub sort_order: SortOrder,
    pub sort_dirs_before_files: bool,
    pub human_readable_size: bool,
    pub datetime_format: String,
    pub column_spacing: u16,
    pub columns: Vec<Column>,
    pub unix: UIConfigUnix,
    pub windows: UIConfigWindows,
    pub colors: ColorConfig,
}

impl UIConfigUnix {
    /// Symbolic modes.
    pub fn new() -> (c: UIConfigUnix)
        ensures
            c.mode_format == ModeFormatUnix::Symbolic,
    {
        UIConfigUnix { mode_format: ModeFormatUnix::Symbolic }
    }
}

impl UIConfigWindows {
    /// Traditional attributes.
    pub fn new() -> (c: UIConfigWindows)
        ensures
            c.mode_format == ModeFormatWindows::Traditional,
    {
        UIConfigWindows { mode_format: ModeFormatWindows::Traditional }
    }
}

impl ColorConfig {
    /// Light blue selections and matches, with black matched text, a light
    /// blue prompt, and errors in white on red.
    pub fn new() -> (c: ColorConfig)
        ensures
            c.selected_fg == Color::LightBlue,
            c.selected_bg == Color::Reset,
            c.matched_fg == Color::Black,
            c.matched_bg == Color::LightBlue,
            c.prompt == Color::LightBlue,
            c.error_fg == Color::White,
            c.error_bg == Color::Red,
    {
        ColorConfig {
            selected_fg: Color::LightBlue,
            selected_bg: Color::Reset,
            matched_fg: Color::Black,
            matched_bg: Color::LightBlue,
            prompt: Color::LightBlue,
            error_fg: Color::White,
            error_bg: Color::Red,
        }
    }
}

impl UIConfig {
    /// The default look: sorted by name, ascending; human-readable sizes;
    /// dates as `%Y-%m-%d %R`; columns two cells apart: the name, the size
    /// (10 cells), the modification time (16 cells) and the path.
    pub fn new() -> (c: UIConfig)
        ensures
            c.sort_by == StatusKind::Basename,
            c.sort_order == SortOrder::Ascending,
            !c.sort_dirs_before_files,
            c.human_readable_size,
            c.datetime_format@ == "%Y-%m-%d %R"@,
            c.column_spacing == 2,
            c.columns@.len() == 4,
            c.columns@[0].status == StatusKind::Basename && c.columns@[0].width is None,
            c.columns@[1].status == StatusKind::Size && c.columns@[1].width == Some(10u16),
            c.columns@[2].status == StatusKind::Modified && c.columns@[2].width == Some(16u16),
            c.columns@[3].status == StatusKind::Path && c.columns@[3].width is None,
    {
        let mut columns: Vec<Column> = Vec::new();
        columns.push(Column { status: StatusKind::Basename, width: None });
        columns.push(Column { status: StatusKind::Size, width: Some(10) });
        columns.push(Column { status: StatusKind::Modified, width: Some(16) });
        columns.push(Column { status: StatusKind::Path, width: None });
        UIConfig {
            sort_by: StatusKind::Basename,
            sort_order: SortOrder::Ascending,
            sort_dirs_before_files: false,
            human_readable_size: true,
            datetime_format: "%Y-%m-%d %R".to_owned(),
            column_spacing: 2,
            columns,
            unix: UIConfigUnix::new(),
            windows: UIConfigWindows::new(),
            colors: ColorConfig::new(),
        }
    }
}

/// The whole configuration.
pub struct Config {
    pub flags: FlagConfig,
    pub database: DatabaseConfig,
    pub ui: UIConfig,
}

/// The color with this (lowercase) name, if it is one.
pub open spec fn named_color(t: Seq<char>) -> Option<Color> {
    if t == "reset"@ { Some(Color::Reset) }
    else if t == "black"@ { Some(Color::Black) }
    else if t == "red"@ { Some(Color::Red) }
    else if t == "green"@ { Some(Color::Green) }
    else if t == "yellow"@ { Some(Color::Yellow) }
    else if t == "blue"@ { Some(Color::Blue) }
    else if t == "magenta"@ { Some(Color::Magenta) }
    else if t == "cyan"@ { Some(Color::Cyan) }
    else if t == "gray"@ { Some(Color::Gray) }
    else if t == "darkgray"@ { Some(Color::DarkGray) }
    else if t == "lightred"@ { Some(Color::LightRed) }
    else if t == "lightgreen"@ { Some(Color::LightGreen) }
    else if t == "lightyellow"@ { Some(Color::LightYellow) }
    else if t == "lightblue"@ { Some(Color::LightBlue) }
    else if t == "lightmagenta"@ { Some(Color::LightMagenta) }
    else if t == "lightcyan"@ { Some(Color::LightCyan) }
    else if t == "white"@ { Some(Color::White) }
    else { None }
}

/// The value of a hexadecimal digit.
pub open spec fn hex_value(c: char) -> Option<u8> {
    if '0' <= c && c <= '9' {
        Some((c as u32 - '0' as u32) as u8)
    } else if 'a' <= c && c <= 'f' {
        Some((c as u32 - 'a' as u32 + 10) as u8)
    } else if 'A' <= c && c <= 'F' {
        Some((c as u32 - 'A' as u32 + 10) as u8)
    } else {
        None
    }
}

/// The byte that two characters give in base 16, as `u8::from_str_radix`
/// reads them: two hexadecimal digits, or a `+` sign and one digit.
pub open spec fn hex_pair(a: char, b: char) -> Option<u8> {
    if a == '+' {
        hex_value(b)
    } else {
        match (hex_value(a), hex_value(b)) {
            (Some(x), Some(y)) => Some((x * 16 + y) as u8),
            _ => None,
        }
    }
}

/// The value of a run of decimal digits, if they all are.
pub open spec fn digits_value(s: Seq<char>) -> Option<nat>
    decreases s.len(),
{
    if s.len() == 0 {
        Some(0)
    } else if '0' <= s.last() && s.last() <= '9' {
        match digits_value(s.drop_last()) {
            Some(v) => Some(v * 10 + (s.last() as u32 - '0' as u32) as nat),
            None => None,
        }
    } else {
        None
    }
}

/// A byte in decimal as `str::parse::<u8>` reads it: an optional `+`, then
/// at least one digit, worth at most 255.
pub open spec fn parse_u8(s: Seq<char>) -> Option<u8> {
    let d = if s.len() > 0 && s[0] == '+' { s.drop_first() } else { s };
    if d.len() == 0 {
        None
    } else {
        match digits_value(d) {
            Some(v) => if v <= 255 { Some(v as u8) } else { None },
            None => None,
        }
    }
}

/// The pieces of a text between separators, as `str::split` gives them.
pub open spec fn split_on(s: Seq<char>, sep: char) -> Seq<Seq<char>>
    decreases s.len(),
{
    if s.len() == 0 {
        seq![Seq::empty()]
    } else {
        let rest = split_on(s.drop_last(), sep);
        if s.last() == sep {
            rest.push(Seq::empty())
        } else {
            rest.update(rest.len() - 1, rest.last().push(s.last()))
        }
    }
}

/// The color of a (trimmed, lowercase) text: a name; `#` and three
/// hexadecimal digits (each doubled); `#` and three pairs that each read
/// as a byte in base 16 (a pair may be a `+` sign and one digit); or three decimal bytes separated by commas (each
/// trimmed).
pub open spec fn color_of(t: Seq<char>) -> Option<Color> {
    match named_color(t) {
        Some(c) => Some(c),
        None => if t.len() > 0 && t[0] == '#' && byte_len(t) == 4 {
            if t.len() == 4 {
                match (hex_pair(t[1], t[1]), hex_pair(t[2], t[2]), hex_pair(t[3], t[3])) {
                    (Some(r), Some(g), Some(b)) => Some(Color::Rgb(r, g, b)),
                    _ => None,
                }
            } else {
                None
            }
        } else if t.len() > 0 && t[0] == '#' && byte_len(t) == 7 {
            if t.len() == 7 {
                match (hex_pair(t[1], t[2]), hex_pair(t[3], t[4]), hex_pair(t[5], t[6])) {
                    (Some(r), Some(g), Some(b)) => Some(Color::Rgb(r, g, b)),
                    _ => None,
                }
            } else {
                None
            }
        } else {
            let parts = split_on(t, ',');
            if parts.len() == 3 {
                match (parse_u8(trim_ws(parts[0])), parse_u8(trim_ws(parts[1])), parse_u8(trim_ws(parts[2]))) {
                    (Some(r), Some(g), Some(b)) => Some(Color::Rgb(r, g, b)),
                    _ => None,
                }
            } else {
                None
            }
        },
    }
}

/// The bytes of a text of hexadecimal digits after a `#`: one per character.
proof fn lemma_hex_text_bytes(t: Seq<char>)
    requires
        forall|i: int| 0 < i < t.len() ==> #[trigger] hex_value(t[i]) is Some,
        t.len() > 0 && t[0] == '#',
    ensures
        byte_len(t) == t.len(),
    decreases t.len(),
{
    reveal_with_fuel(vstd::utf8::encode_utf8, 2);
    if t.len() > 1 {
        let r = t.drop_first();
        let u = seq!['#'] + r.drop_first();
        assert forall|i: int| 0 < i < u.len() implies #[trigger] hex_value(u[i]) is Some by {
            assert(u[i] == t[i + 1]);
        }
        lemma_hex_text_bytes(u);
        assert(u.drop_first() =~= r.drop_first());
        assert(t.drop_first().drop_first() =~= r.drop_first());
        assert(hex_value(t[1]) is Some);
    }
}

/// No colour name begins with `#`.
proof fn lemma_no_name_starts_with_hash(t: Seq<char>)
    requires
        t.len() > 0 && t[0] == '#',
    ensures
        named_color(t) is None,
{
    reveal_strlit("reset");
    reveal_strlit("black");
    reveal_strlit("red");
    reveal_strlit("green");
    reveal_strlit("yellow");
    reveal_strlit("blue");
    reveal_strlit("magenta");
    reveal_strlit("cyan");
    reveal_strlit("gray");
    reveal_strlit("darkgray");
    reveal_strlit("lightred");
    reveal_strlit("lightgreen");
    reveal_strlit("lightyellow");
    reveal_strlit("lightblue");
    reveal_strlit("lightmagenta");
    reveal_strlit("lightcyan");
    reveal_strlit("white");
}

/// A colour of three hexadecimal digits is the colour of six with each
/// digit doubled, each channel worth its digit times 17.
pub proof fn law_short_hex_doubles_each_digit(a: char, b: char, c: char)
    requires
        hex_value(a) is Some,
        hex_value(b) is Some,
        hex_value(c) is Some,
    ensures
        color_of(seq!['#', a, b, c]) == color_of(seq!['#', a, a, b, b, c, c]),
        color_of(seq!['#', a, b, c]) == Some(Color::Rgb(
            (hex_value(a)->0 * 17) as u8, (hex_value(b)->0 * 17) as u8, (hex_value(c)->0 * 17) as u8)),
{
    let short = seq!['#', a, b, c];
    let long = seq!['#', a, a, b, b, c, c];
    assert forall|i: int| 0 < i < short.len() implies #[trigger] hex_value(short[i]) is Some by {}
    assert forall|i: int| 0 < i < long.len() implies #[trigger] hex_value(long[i]) is Some by {}
    lemma_hex_text_bytes(short);
    lemma_hex_text_bytes(long);
    lemma_no_name_starts_with_hash(short);
    lemma_no_name_starts_with_hash(long);
}

/// A colour of six hexadecimal digits gives each channel the byte its two
/// digits write, the first digit the more significant.
pub proof fn law_long_hex_reads_three_bytes(r1: char, r2: char, g1: char, g2: char, b1: char, b2: char)
    requires
        hex_value(r1) is Some,
        hex_value(r2) is Some,
        hex_value(g1) is Some,
        hex_value(g2) is Some,
        hex_value(b1) is Some,
        hex_value(b2) is Some,
    ensures
        color_of(seq!['#', r1, r2, g1, g2, b1, b2]) == Some(Color::Rgb(
            (hex_value(r1)->0 * 16 + hex_value(r2)->0) as u8,
            (hex_value(g1)->0 * 16 + hex_value(g2)->0) as u8,
            (hex_value(b1)->0 * 16 + hex_value(b2)->0) as u8)),
{
    let t = seq!['#', r1, r2, g1, g2, b1, b2];
    assert forall|i: int| 0 < i < t.len() implies #[trigger] hex_value(t[i]) is Some by {}
    lemma_hex_text_bytes(t);
    lemma_no_name_starts_with_hash(t);
}

/// `char::is_whitespace`, which tests the White_Space property (see
/// [`is_white_space`]).
#[verifier::external_body]
fn char_is_whitespace(c: char) -> (r: bool)
    ensures
        r == is_white_space(c),
{
    c.is_whitespace()
}

/// The value of a hexadecimal digit.
fn hex_digit(c: char) -> (r: Option<u8>)
    ensures
        r == hex_value(c),
{
    if '0' <= c && c <= '9' {
        Some((c as u32 - '0' as u32) as u8)
    } else if 'a' <= c && c <= 'f' {
        Some((c as u32 - 'a' as u32 + 10) as u8)
    } else if 'A' <= c && c <= 'F' {
        Some((c as u32 - 'A' as u32 + 10) as u8)
    } else {
        None
    }
}

/// The byte that two characters give in base 16 (a `+` sign may lead).
fn hex_byte(a: char, b: char) -> (r: Option<u8>)
    ensures
        r == hex_pair(a, b),
{
    if a == '+' {
        return hex_digit(b);
    }
    match (hex_digit(a), hex_digit(b)) {
        (Some(x), Some(y)) => Some(x * 16 + y),
        _ => None,
    }
}

/// Trims white space off both ends of `s[start..end]`.
fn trim_range(s: &Vec<char>, start: usize, end: usize) -> (r: (usize, usize))
    requires
        start <= end <= s@.len(),
    ensures
        start <= r.0 <= r.1 <= end,
        s@.subrange(r.0 as int, r.1 as int) == trim_ws(s@.subrange(start as int, end as int)),
{
    let mut a = start;
    while a < end && char_is_whitespace(s[a])
        invariant
            start <= a <= end <= s@.len(),
            crate::text::trim_start_ws(s@.subrange(start as int, end as int))
                == crate::text::trim_start_ws(s@.subrange(a as int, end as int)),
        decreases end - a,
    {
        assert(s@.subrange(a as int, end as int).drop_first() =~= s@.subrange(a + 1, end as int));
        a = a + 1;
    }
    assert(crate::text::trim_start_ws(s@.subrange(a as int, end as int)) == s@.subrange(a as int, end as int));
    let mut b = end;
    while b > a && char_is_whitespace(s[b - 1])
        invariant
            a <= b <= end <= s@.len(),
            crate::text::trim_end_ws(s@.subrange(a as int, end as int))
                == crate::text::trim_end_ws(s@.subrange(a as int, b as int)),
        decreases b - a,
    {
        assert(s@.subrange(a as int, b as int).drop_last() =~= s@.subrange(a as int, b - 1));
        b = b - 1;
    }
    assert(crate::text::trim_end_ws(s@.subrange(a as int, b as int)) == s@.subrange(a as int, b as int));
    (a, b)
}

/// A byte in decimal, as `str::parse::<u8>` reads it (see [`parse_u8`]).
fn parse_byte(s: &Vec<char>, start: usize, end: usize) -> (r: Option<u8>)
    requires
        start <= end <= s@.len(),
    ensures
        r == parse_u8(s@.subrange(start as int, end as int)),
{
    let ghost t = s@.subrange(start as int, end as int);
    let mut a = start;
    if a < end && s[a] == '+' {
        a = a + 1;
    }
    proof {
        if start < end && s@[start as int] == '+' {
            assert(t.drop_first() =~= s@.subrange(a as int, end as int));
        } else {
            assert(t =~= s@.subrange(a as int, end as int));
        }
    }
    if a == end {
        return None;
    }
    let mut v: u32 = 0;
    let mut i = a;
    while i < end
        invariant
            start <= a <= i <= end <= s@.len(),
            v <= 255,
            parse_u8(s@.subrange(start as int, end as int)) == (match digits_value(s@.subrange(a as int, end as int)) {
                Some(w) => if w <= 255 { Some(w as u8) } else { None },
                None => None,
            }),
            digits_value(s@.subrange(a as int, i as int)) == Some(v as nat),
        decreases end - i,
    {
        let c = s[i];
        assert(s@.subrange(a as int, i + 1).drop_last() =~= s@.subrange(a as int, i as int));
        if !('0' <= c && c <= '9') {
            proof { lemma_digits_fail(s@.subrange(a as int, end as int), (i - a) as int); }
            return None;
        }
        let nv = v * 10 + (c as u32 - '0' as u32);
        if nv > 255 {
            assert(s@.subrange(a as int, end as int).take((i + 1 - a) as int) =~= s@.subrange(a as int, i + 1));
            assert(digits_value(s@.subrange(a as int, i + 1)) == Some(nv as nat));
            proof { lemma_digits_over(s@.subrange(a as int, end as int), (i + 1 - a) as int); }
            return None;
        }
        v = nv;
        i = i + 1;
    }
    Some(v as u8)
}

/// A run with a character that is not a digit has no value.
proof fn lemma_digits_fail(s: Seq<char>, k: int)
    requires
        0 <= k < s.len(),
        !('0' <= s[k] && s[k] <= '9'),
    ensures
        digits_value(s) is None,
    decreases s.len(),
{
    if k < s.len() - 1 {
        assert(s.drop_last()[k] == s[k]);
        lemma_digits_fail(s.drop_last(), k);
    }
}

/// A run whose prefix is worth more than 255 is worth more than 255.
proof fn lemma_digits_over(s: Seq<char>, k: int)
    requires
        0 < k <= s.len(),
        digits_value(s.take(k)) matches Some(v) && v > 255,
    ensures
        digits_value(s) matches Some(v) ==> v > 255,
    decreases s.len(),
{
    if k < s.len() {
        assert(s.drop_last().take(k) =~= s.take(k));
        lemma_digits_over(s.drop_last(), k);
        if let Some(v) = digits_value(s.drop_last()) {
            assert(v * 10 >= v) by (nonlinear_arith);
        }
    } else {
        assert(s.take(k) =~= s);
    }
}

/// Parses a color setting: a name, `#rgb`, `#rrggbb`, or `r, g, b` in
/// decimal, after trimming and lowering the case; `None` for anything else.
pub fn parse_color(s: &str) -> (r: Option<Color>)
    ensures
        r == color_of(lowercase(trim_ws(s@))),
{
    let lower = to_lowercase(str_trim(s));
    let t = lower.as_str();
    proof {
        reveal_strlit("reset"); reveal_strlit("black"); reveal_strlit("red"); reveal_strlit("green");
        reveal_strlit("yellow"); reveal_strlit("blue"); reveal_strlit("magenta"); reveal_strlit("cyan");
        reveal_strlit("gray"); reveal_strlit("darkgray"); reveal_strlit("lightred"); reveal_strlit("lightgreen");
        reveal_strlit("lightyellow"); reveal_strlit("lightblue"); reveal_strlit("lightmagenta");
        reveal_strlit("lightcyan"); reveal_strlit("white");
    }
    let named = if crate::text::str_eq(t, "reset") { Some(Color::Reset) }
        else if crate::text::str_eq(t, "black") { Some(Color::Black) }
        else if crate::text::str_eq(t, "red") { Some(Color::Red) }
        else if crate::text::str_eq(t, "green") { Some(Color::Green) }
        else if crate::text::str_eq(t, "yellow") { Some(Color::Yellow) }
        else if crate::text::str_eq(t, "blue") { Some(Color::Blue) }
        else if crate::text::str_eq(t, "magenta") { Some(Color::Magenta) }
        else if crate::text::str_eq(t, "cyan") { Some(Color::Cyan) }
        else if crate::text::str_eq(t, "gray") { Some(Color::Gray) }
        else if crate::text::str_eq(t, "darkgray") { Some(Color::DarkGray) }
        else if crate::text::str_eq(t, "lightred") { Some(Color::LightRed) }
        else if crate::text::str_eq(t, "lightgreen") { Some(Color::LightGreen) }
        else if crate::text::str_eq(t, "lightyellow") { Some(Color::LightYellow) }
        else if crate::text::str_eq(t, "lightblue") { Some(Color::LightBlue) }
        else if crate::text::str_eq(t, "lightmagenta") { Some(Color::LightMagenta) }
        else if crate::text::str_eq(t, "lightcyan") { Some(Color::LightCyan) }
        else if crate::text::str_eq(t, "white") { Some(Color::White) }
        else { None };
    if named.is_some() {
        return named;
    }
    let cs = chars_of(t);
    let nbytes = crate::text::byte_length(t);
    let starts_hash = cs.len() > 0 && cs[0] == '#';
    if starts_hash && nbytes == 4 {
        if cs.len() == 4 {
            return match (hex_byte(cs[1], cs[1]), hex_byte(cs[2], cs[2]), hex_byte(cs[3], cs[3])) {
                (Some(r), Some(g), Some(b)) => Some(Color::Rgb(r, g, b)),
                _ => None,
            };
        }
        return None;
    }
    if starts_hash && nbytes == 7 {
        if cs.len() == 7 {
            return match (hex_byte(cs[1], cs[2]), hex_byte(cs[3], cs[4]), hex_byte(cs[5], cs[6])) {
                (Some(r), Some(g), Some(b)) => Some(Color::Rgb(r, g, b)),
                _ => None,
            };
        }
        return None;
    }
    // Split on commas.
    let mut bounds: Vec<(usize, usize)> = Vec::new();
    let mut start: usize = 0;
    let mut i: usize = 0;
    while i < cs.len()
        invariant
            i <= cs@.len(),
            start <= i,
            bounds@.len() + 1 == split_on(cs@.take(i as int), ',').len(),
            forall|k: int| 0 <= k < bounds@.len() ==> (#[trigger] bounds@[k]).0 <= bounds@[k].1 <= i
                && cs@.subrange(bounds@[k].0 as int, bounds@[k].1 as int) == split_on(cs@.take(i as int), ',')[k],
            cs@.subrange(start as int, i as int) == split_on(cs@.take(i as int), ',').last(),
        decreases cs@.len() - i,
    {
        let ghost prev = split_on(cs@.take(i as int), ',');
        assert(cs@.take(i + 1).drop_last() =~= cs@.take(i as int));
        if cs[i] == ',' {
            bounds.push((start, i));
            start = i + 1;
            assert(cs@.subrange(start as int, i + 1) =~= Seq::<char>::empty());
        } else {
            assert(cs@.subrange(start as int, i + 1) =~= cs@.subrange(start as int, i as int).push(cs@[i as int]));
        }
        i = i + 1;
    }
    assert(cs@.take(cs@.len() as int) =~= cs@);
    bounds.push((start, cs.len()));
    if bounds.len() != 3 {
        return None;
    }
    let (a0, b0) = trim_range(&cs, bounds[0].0, bounds[0].1);
    let (a1, b1) = trim_range(&cs, bounds[1].0, bounds[1].1);
    let (a2, b2) = trim_range(&cs, bounds[2].0, bounds[2].1);
    match (parse_byte(&cs, a0, b0), parse_byte(&cs, a1, b1), parse_byte(&cs, a2, b2)) {
        (Some(r), Some(g), Some(b)) => Some(Color::Rgb(r, g, b)),
        _ => None,
    }
}

/// The match-path mode named by a command-line value, in any letter case:
/// `always` or `yes`, `never` or `no`, `auto`; otherwise an error message.
pub open spec fn spec_match_path_opt(s: Seq<char>) -> Result<MatchPathMode, Seq<char>> {
    let l = lowercase(s);
    if l == "always"@ || l == "yes"@ {
        Ok(MatchPathMode::Always)
    } else if l == "never"@ || l == "no"@ {
        Ok(MatchPathMode::Never)
    } else if l == "auto"@ {
        Ok(MatchPathMode::Auto)
    } else {
        Err("Invalid value '"@ + s + "'. Valid values are 'always', 'never', or 'auto'."@)
    }
}

/// Parses the value of the match-path option (see [`spec_match_path_opt`]).
pub fn parse_match_path_opt(s: &str) -> (r: Result<MatchPathMode, String>)
    ensures
        match (r, spec_match_path_opt(s@)) {
            (Ok(a), Ok(b)) => a == b,
            (Err(a), Err(b)) => a@ == b,
            _ => false,
        },
{
    let lower = to_lowercase(s);
    let l = lower.as_str();
    if crate::text::str_eq(l, "always") || crate::text::str_eq(l, "yes") {
        Ok(MatchPathMode::Always)
    } else if crate::text::str_eq(l, "never") || crate::text::str_eq(l, "no") {
        Ok(MatchPathMode::Never)
    } else if crate::text::str_eq(l, "auto") {
        Ok(MatchPathMode::Auto)
    } else {
        let mut m = "Invalid value '".to_owned();
        m.push_str(s);
        m.push_str("'. Valid values are 'always', 'never', or 'auto'.");
        Err(m)
    }
}

} // verus!
