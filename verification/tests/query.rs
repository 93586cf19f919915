use indexa::database::builder::{DatabaseBuilder, ScannedRoot};
use indexa::database::indexer::{DirEntry, Metadata};
use indexa::database::{Database, Entry, FileTime, StatusKind};
use indexa::mode::Mode;
use indexa::config::{ModeFormatUnix, ModeFormatWindows};
use indexa::tui::app::{column_content, CellContent};
use indexa::query::regex_helper::{hir_has_path_separator, hir_has_uppercase_char, hir_is_literal, HirNode};
use indexa::query::{
    parse_query_pattern, should_be_case_sensitive, should_match_path, CaseSensitivity, MatchPathMode, Query,
    QueryBuilder, SortOrder,
};
use regex::escape;
use std::path::MAIN_SEPARATOR;
use indexa::Error;
use std::sync::atomic::AtomicBool;
use std::sync::Arc;

fn parse(pattern: &str, is_regex_enabled: bool) -> HirNode {
    match parse_query_pattern(pattern, is_regex_enabled) {
        Ok(h) => h,
        Err(e) => panic!("{:?}", e),
    }
}

#[test]
fn match_path() {
    let sep = MAIN_SEPARATOR;
    let match_path = |mode: MatchPathMode, is_regex_enabled: bool, pattern: &str| -> bool {
        let hir = parse(pattern, is_regex_enabled);
        should_match_path(mode, hir_has_path_separator(&hir, sep))
    };

    assert!(match_path(MatchPathMode::Always, false, "foo"));
    assert!(match_path(MatchPathMode::Auto, false, &format!("foo{}bar", sep)));
    assert!(!match_path(MatchPathMode::Auto, false, "foo"));

    assert!(match_path(MatchPathMode::Auto, false, &format!(r"foo{}w", sep)));
    assert!(!match_path(MatchPathMode::Auto, true, r"foo\w"));

    if regex_syntax::is_meta_character(sep) {
        assert!(match_path(MatchPathMode::Auto, true, &escape(&format!(r"foo{}", sep))));
        assert!(match_path(MatchPathMode::Auto, true, &escape(&format!(r"foo{}bar", sep))));
        assert!(match_path(MatchPathMode::Auto, true, r"."));
        assert!(!match_path(MatchPathMode::Auto, true, &format!(r"[^{}]", escape(&sep.to_string()))));
    } else {
        assert!(match_path(MatchPathMode::Auto, true, &format!("foo{}", sep)));
        assert!(match_path(MatchPathMode::Auto, true, &format!("foo{}bar", sep)));
        assert!(match_path(MatchPathMode::Auto, true, r"."));
        assert!(!match_path(MatchPathMode::Auto, true, &format!(r"[^{}]", sep)));
    }
}

#[test]
fn case_sensitive() {
    let is_case_sensitive = |cs: CaseSensitivity, is_regex_enabled: bool, pattern: &str| -> bool {
        let hir = parse(pattern, is_regex_enabled);
        should_be_case_sensitive(cs, hir_has_uppercase_char(&hir))
    };

    assert!(is_case_sensitive(CaseSensitivity::Sensitive, false, "foo"));
    assert!(!is_case_sensitive(CaseSensitivity::Insensitive, false, "foo"));
    assert!(is_case_sensitive(CaseSensitivity::Smart, false, "Foo"));
    assert!(!is_case_sensitive(CaseSensitivity::Smart, false, "foo"));
    assert!(is_case_sensitive(CaseSensitivity::Smart, true, "[A-Z]x"));
    assert!(!is_case_sensitive(CaseSensitivity::Smart, true, "[a-z]x"));
}

#[test]
fn literal() {
    let is_literal = |is_regex_enabled: bool, pattern: &str| -> bool { hir_is_literal(&parse(pattern, is_regex_enabled)) };

    assert!(is_literal(false, "a"));
    assert!(is_literal(false, "a.b"));
    assert!(is_literal(false, r#"a\.b"#));
    assert!(is_literal(false, "a(b)"));
    assert!(is_literal(false, r#"a\"#));
    assert!(is_literal(false, r#"a\\"#));

    assert!(is_literal(true, "a"));
    assert!(!is_literal(true, "a.b"));
    assert!(is_literal(true, r#"a\.b"#));
    assert!(!is_literal(true, "a(b)"));
    assert!(!is_literal(true, r#"a\w"#));
    assert!(is_literal(true, r#"a\\"#));
}

fn node(name: &str, is_dir: bool, size: u64, children: Vec<DirEntry>) -> DirEntry {
    let n = children.len() as u64;
    let mut metadata = Metadata::default();
    metadata.size = size;
    DirEntry { name: name.to_string(), is_dir, is_hidden: false, metadata, children, num_children: n }
}

fn tree(root: &str, paths: &[&str]) -> DirEntry {
    fn insert(n: &mut DirEntry, parts: &[&str]) {
        if parts.is_empty() {
            return;
        }
        let pos = match n.children.iter().position(|c| c.name == parts[0]) {
            Some(p) => p,
            None => {
                n.children.push(node(parts[0], true, 0, Vec::new()));
                n.num_children += 1;
                n.children.len() - 1
            }
        };
        insert(&mut n.children[pos], &parts[1..]);
    }
    let mut t = node(root, true, 0, Vec::new());
    for p in paths {
        let parts: Vec<&str> = p.split('/').collect();
        insert(&mut t, &parts);
    }
    t
}

fn search<'a>(database: &'a Database, query: &Query) -> Vec<Entry<'a>> {
    let abort = Arc::new(AtomicBool::new(false));
    database.search(query, &abort).unwrap().into_iter().map(|id| database.entry(id)).collect()
}

fn build(q: &mut QueryBuilder) -> Query {
    q.build().unwrap()
}

#[test]
fn match_ranges() {
    let prefix = "/tmp/matchranges";
    let prefix_len = prefix.len() + 1;
    let root = tree("matchranges", &["aaa/foobarbaz/barbaz", "0042bar/a/foo123bar"]);
    let database = DatabaseBuilder::new()
        .build(vec![ScannedRoot { path: prefix.to_string(), tree: root }])
        .unwrap();

    let query = build(&mut QueryBuilder::new("bar"));
    let entries = search(&database, &query);
    assert_eq!(
        entries.iter().map(|entry| entry.basename()).collect::<Vec<_>>(),
        vec!["0042bar", "barbaz", "foo123bar", "foobarbaz"]
    );
    let entry = &entries[1];
    assert_eq!(query.basename_matches(entry), vec![(0, 3)]);
    assert_eq!(query.path_matches(entry), vec![(prefix_len + 14, prefix_len + 17)]);

    let query = build(QueryBuilder::new("bar").match_path_mode(MatchPathMode::Always));
    let entry = search(&database, &query).into_iter().find(|entry| entry.basename() == "barbaz").unwrap();
    assert_eq!(query.basename_matches(&entry), vec![(0, 3)]);
    assert_eq!(
        query.path_matches(&entry).into_iter().filter(|range| prefix_len <= range.0).collect::<Vec<_>>(),
        vec![(prefix_len + 7, prefix_len + 10), (prefix_len + 14, prefix_len + 17)]
    );

    let query = build(QueryBuilder::new("[0-9]+").match_path_mode(MatchPathMode::Always).regex(true));
    let entry = search(&database, &query).into_iter().find(|entry| entry.basename() == "foo123bar").unwrap();
    assert_eq!(query.basename_matches(&entry), vec![(3, 6)]);
    assert_eq!(
        query.path_matches(&entry).into_iter().filter(|range| prefix_len <= range.0).collect::<Vec<_>>(),
        vec![(prefix_len, prefix_len + 4), (prefix_len + 13, prefix_len + 16)]
    );
}

fn sized_database(fast: bool) -> Database {
    let root = node(
        "r",
        true,
        0,
        vec![
            node("b.txt", false, 30, Vec::new()),
            node("a.rs", false, 10, Vec::new()),
            node("dir", true, 0, vec![node("c.md", false, 20, Vec::new())]),
        ],
    );
    let mut builder = DatabaseBuilder::new();
    builder.index(StatusKind::Size);
    if fast {
        builder.fast_sort(StatusKind::Size);
    }
    builder.build(vec![ScannedRoot { path: "/r".to_string(), tree: root }]).unwrap()
}

fn names(entries: &[Entry<'_>]) -> Vec<String> {
    entries.iter().map(|e| e.basename().to_string()).collect()
}

#[test]
fn empty_query_finds_everything_in_order() {
    let db = sized_database(false);
    let q = build(&mut QueryBuilder::new(""));
    assert_eq!(names(&search(&db, &q)), vec!["a.rs", "b.txt", "c.md", "dir", "r"]);
}

#[test]
fn sorting_by_size_with_and_without_presorting() {
    for fast in [false, true] {
        let db = sized_database(fast);
        let q = build(QueryBuilder::new("").sort_by(StatusKind::Size));
        assert_eq!(names(&search(&db, &q)), vec!["dir", "r", "a.rs", "c.md", "b.txt"]);
        let q = build(QueryBuilder::new("").sort_by(StatusKind::Size).sort_order(SortOrder::Descending));
        assert_eq!(names(&search(&db, &q)), vec!["b.txt", "c.md", "a.rs", "r", "dir"]);
        let q = build(QueryBuilder::new(".").sort_by(StatusKind::Size));
        assert_eq!(names(&search(&db, &q)), vec!["a.rs", "c.md", "b.txt"]);
    }
}

#[test]
fn directories_first() {
    let db = sized_database(false);
    let q = build(QueryBuilder::new("").sort_dirs_before_files(true));
    assert_eq!(names(&search(&db, &q)), vec!["dir", "r", "a.rs", "b.txt", "c.md"]);
    let q = build(QueryBuilder::new("").sort_dirs_before_files(true).sort_order(SortOrder::Descending));
    assert_eq!(names(&search(&db, &q)), vec!["c.md", "b.txt", "a.rs", "r", "dir"]);
}

#[test]
fn path_queries() {
    let db = sized_database(false);
    let q = build(QueryBuilder::new("dir/c").match_path_mode(MatchPathMode::Auto));
    assert!(q.match_path());
    assert_eq!(names(&search(&db, &q)), vec!["c.md"]);
    let q = build(QueryBuilder::new("r").match_path_mode(MatchPathMode::Always));
    assert_eq!(search(&db, &q).len(), 5);
    let q = build(QueryBuilder::new("R").case_sensitivity(CaseSensitivity::Smart));
    assert_eq!(search(&db, &q).len(), 0);
    let q = build(QueryBuilder::new("R").case_sensitivity(CaseSensitivity::Insensitive));
    assert_eq!(names(&search(&db, &q)), vec!["a.rs", "dir", "r"]);
}

#[test]
fn aborted_search() {
    let db = sized_database(false);
    let q = build(&mut QueryBuilder::new(""));
    let abort = Arc::new(AtomicBool::new(true));
    assert!(matches!(db.search(&q, &abort), Err(Error::SearchAbort)));
}

#[test]
fn invalid_regex() {
    assert!(matches!(QueryBuilder::new("(").regex(true).build(), Err(Error::RegexSyntax(_))));
    assert!(QueryBuilder::new("(").build().is_ok());
}

#[test]
fn sorting_by_path_follows_the_tree() {
    let db = sized_database(false);
    let q = build(QueryBuilder::new("").sort_by(StatusKind::Path));
    assert_eq!(names(&search(&db, &q)), vec!["r", "a.rs", "b.txt", "dir", "c.md"]);
    let q = build(QueryBuilder::new("").sort_by(StatusKind::Path).sort_order(SortOrder::Descending));
    assert_eq!(names(&search(&db, &q)), vec!["c.md", "dir", "b.txt", "a.rs", "r"]);
    let q = build(QueryBuilder::new("").sort_by(StatusKind::Extension));
    assert_eq!(names(&search(&db, &q)), vec!["dir", "r", "c.md", "a.rs", "b.txt"]);
}

#[test]
fn roots_sort_by_their_paths() {
    let one = node("one", true, 0, vec![node("z", false, 1, Vec::new())]);
    let two = node("two", true, 0, vec![node("a", false, 1, Vec::new())]);
    let db = DatabaseBuilder::new()
        .build(vec![
            ScannedRoot { path: "/tmp/two".to_string(), tree: two },
            ScannedRoot { path: "/tmp/one".to_string(), tree: one },
        ])
        .unwrap();
    let q = build(QueryBuilder::new("").sort_by(StatusKind::Path));
    let paths: Vec<String> = search(&db, &q).iter().map(|e| e.path()).collect();
    assert_eq!(paths, vec!["/tmp/one", "/tmp/one/z", "/tmp/two", "/tmp/two/a"]);
}

#[test]
fn cells_of_the_table() {
    let mut f = node("x.rs", false, 2048, Vec::new());
    f.metadata.mode = indexa::mode::Mode(0o100644);
    let root = node("r", true, 0, vec![f]);
    let mut builder = DatabaseBuilder::new();
    builder.index(StatusKind::Size).index(StatusKind::Mode);
    let db = builder.build(vec![ScannedRoot { path: "/r".to_string(), tree: root }]).unwrap();
    let q = build(&mut QueryBuilder::new("x"));
    let e = db.entry(indexa::database::EntryId(1));
    let raw = |c: CellContent| match c {
        CellContent::Raw(s) => s,
        _ => panic!("not a plain text"),
    };
    assert_eq!(raw(column_content(StatusKind::Size, &e, &q, false, ModeFormatUnix::Octal, None, None)), "2048");
    assert_eq!(raw(column_content(StatusKind::Mode, &e, &q, false, ModeFormatUnix::Octal, None, None)), "0644");
    assert_eq!(raw(column_content(StatusKind::Mode, &e, &q, false, ModeFormatUnix::Symbolic, None, None)), "-rw-r--r--");
    assert_eq!(
        raw(column_content(StatusKind::Mode, &e, &q, false, ModeFormatUnix::Symbolic, Some(ModeFormatWindows::PowerShell), None)),
        Mode::from(0o100644).display_powershell().to_string()
    );
    assert_eq!(raw(column_content(StatusKind::Extension, &e, &q, false, ModeFormatUnix::Octal, None, None)), "rs");
    match column_content(StatusKind::Basename, &e, &q, false, ModeFormatUnix::Octal, None, None) {
        CellContent::Highlighted(t, r) => {
            assert_eq!(t, "x.rs");
            assert_eq!(r, vec![(0, 1)]);
        }
        _ => panic!("not highlighted"),
    }
}

#[test]
fn cells_fall_back_to_fetched_statuses() {
    let f = node("x.rs", false, 2048, Vec::new());
    let root = node("r", true, 0, vec![f]);
    let db = DatabaseBuilder::new().build(vec![ScannedRoot { path: "/r".to_string(), tree: root }]).unwrap();
    let q = build(&mut QueryBuilder::new("x"));
    let e = db.entry(indexa::database::EntryId(1));
    let raw = |c: CellContent| match c {
        CellContent::Raw(s) => s,
        _ => panic!("not a plain text"),
    };
    assert_eq!(raw(column_content(StatusKind::Size, &e, &q, false, ModeFormatUnix::Octal, None, None)), "");
    let fetched = Metadata {
        size: 10,
        mode: indexa::mode::Mode(0o100600),
        created: FileTime { secs: 1, nanos: 0 },
        modified: FileTime { secs: 2, nanos: 0 },
        accessed: FileTime { secs: 3, nanos: 0 },
    };
    assert_eq!(raw(column_content(StatusKind::Size, &e, &q, false, ModeFormatUnix::Octal, None, Some(fetched))), "10");
    assert_eq!(raw(column_content(StatusKind::Mode, &e, &q, false, ModeFormatUnix::Octal, None, Some(fetched))), "0600");
    match column_content(StatusKind::Modified, &e, &q, false, ModeFormatUnix::Octal, None, Some(fetched)) {
        CellContent::Time(t) => assert_eq!(t, FileTime { secs: 2, nanos: 0 }),
        _ => panic!("not a time"),
    }
}

#[test]
fn literal_queries_match_where_the_text_occurs() {
    let root = node("r", true, 0, vec![node("a.b", false, 1, Vec::new()), node("axb", false, 1, Vec::new())]);
    let db = DatabaseBuilder::new().build(vec![ScannedRoot { path: "/r".to_string(), tree: root }]).unwrap();
    let q = build(QueryBuilder::new("a.b").case_sensitivity(CaseSensitivity::Sensitive));
    assert!(q.is_match(&db.entry(indexa::database::EntryId(1))));
    assert!(!q.is_match(&db.entry(indexa::database::EntryId(2))));
    let r = build(QueryBuilder::new("a.b").regex(true).case_sensitivity(CaseSensitivity::Sensitive));
    assert!(r.is_match(&db.entry(indexa::database::EntryId(2))));
}

#[test]
fn searches_that_cannot_be_aborted() {
    let q = build(&mut QueryBuilder::new("a"));
    let set = Arc::new(AtomicBool::new(true));
    let empty = DatabaseBuilder::new().build(Vec::new()).unwrap();
    assert_eq!(empty.search(&q, &set).unwrap().len(), 0);
    let root = node("r", true, 0, vec![node("a", false, 1, Vec::new()), node("b", false, 1, Vec::new())]);
    let db = DatabaseBuilder::new().build(vec![ScannedRoot { path: "/r".to_string(), tree: root }]).unwrap();
    assert!(matches!(db.search(&q, &set), Err(Error::SearchAbort)));
    let hits = db.search_with(&q, None).unwrap();
    assert_eq!(hits.iter().map(|id| db.entry(*id).basename().to_string()).collect::<Vec<_>>(), vec!["a"]);
}
