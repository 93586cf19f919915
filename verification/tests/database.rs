use indexa::database::builder::{dedup_dirs, DatabaseBuilder, ScannedRoot};
use indexa::database::indexer::{get_basename, is_hidden, sanitize_system_time, DirEntry, IndexOptions, Metadata};
use indexa::mode::Mode;
use indexa::database::{Database, Entry, FileTime, StatusKind};

fn file(name: &str) -> DirEntry {
    DirEntry {
        name: name.to_string(),
        is_dir: false,
        is_hidden: false,
        metadata: Metadata::default(),
        children: Vec::new(),
        num_children: 0,
    }
}

fn dir(name: &str, children: Vec<DirEntry>) -> DirEntry {
    let n = children.len() as u64;
    DirEntry {
        name: name.to_string(),
        is_dir: true,
        is_hidden: false,
        metadata: Metadata::default(),
        children,
        num_children: n,
    }
}

/// The tree of directories made of the given relative paths.
fn tree(root: &str, paths: &[&str]) -> DirEntry {
    fn insert(node: &mut DirEntry, parts: &[&str]) {
        if parts.is_empty() {
            return;
        }
        let pos = match node.children.iter().position(|c| c.name == parts[0]) {
            Some(p) => p,
            None => {
                node.children.push(dir(parts[0], Vec::new()));
                node.num_children += 1;
                node.children.len() - 1
            }
        };
        insert(&mut node.children[pos], &parts[1..]);
    }
    let mut t = dir(root, Vec::new());
    for p in paths {
        let parts: Vec<&str> = p.split('/').collect();
        insert(&mut t, &parts);
    }
    t
}

fn collect_paths(entries: Vec<Entry<'_>>, out: &mut Vec<String>) {
    for entry in entries {
        assert_eq!(get_basename(&entry.path()), entry.basename());
        out.push(entry.path());
        collect_paths(entry.children(), out);
    }
}

fn all_paths(db: &Database) -> Vec<String> {
    let mut paths = Vec::new();
    collect_paths(db.root_entries(), &mut paths);
    paths.sort_unstable();
    paths
}

fn roots() -> Vec<ScannedRoot> {
    vec![
        ScannedRoot { path: "/tmp/one".to_string(), tree: tree("one", &["a/b", "e/a/b", "b/c/d"]) },
        ScannedRoot { path: "/tmp/two".to_string(), tree: tree("two", &["a/b", "f/b", "𠮷/😥"]) },
    ]
}

#[test]
fn builder_build() {
    build_twice_and_compare();
}

#[test]
fn build_build() {
    build_twice_and_compare();
}

fn build_twice_and_compare() {
    let mut builder = DatabaseBuilder::new();
    builder.add_dir("/tmp/one").add_dir("/tmp/two");
    let database1 = builder.build(roots()).unwrap();
    let paths1 = all_paths(&database1);

    for kind in StatusKind::all() {
        builder.index(kind);
        builder.fast_sort(kind);
    }
    let database2 = builder.build(roots()).unwrap();
    let paths2 = all_paths(&database2);

    assert_eq!(paths1, paths2);
    let mut expected: Vec<String> = [
        "/tmp/one", "/tmp/one/a", "/tmp/one/a/b", "/tmp/one/b", "/tmp/one/b/c", "/tmp/one/b/c/d",
        "/tmp/one/e", "/tmp/one/e/a", "/tmp/one/e/a/b", "/tmp/two", "/tmp/two/a", "/tmp/two/a/b",
        "/tmp/two/f", "/tmp/two/f/b", "/tmp/two/𠮷", "/tmp/two/𠮷/😥",
    ]
    .iter()
    .map(|s| s.to_string())
    .collect();
    expected.sort_unstable();
    assert_eq!(paths1, expected);
    assert_eq!(database1.num_entries(), 16);
    for kind in StatusKind::all() {
        assert!(database2.is_fast_sortable(kind));
        assert!(database2.is_indexed(kind));
        assert_eq!(database1.is_fast_sortable(kind), kind == StatusKind::Basename);
    }
}

#[test]
fn builder_empty_database() {
    let database = DatabaseBuilder::new().build(Vec::new()).unwrap();
    assert_eq!(database.num_entries(), 0);
}

#[test]
fn build_empty_database() {
    let database = DatabaseBuilder::new().build(Vec::new()).unwrap();
    assert_eq!(database.num_entries(), 0);
}

fn fast_sort_without_index() {
    let mut builder = DatabaseBuilder::new();
    builder.fast_sort(StatusKind::Size).add_dir("/tmp/one");
    builder.build(roots()).unwrap();
}

#[test]
#[should_panic(expected = "Fast sorting cannot be enabled for a non-indexed status")]
fn builder_fast_sort_for_non_indexed_status() {
    fast_sort_without_index();
}

#[test]
#[should_panic(expected = "Fast sorting cannot be enabled for a non-indexed status")]
fn build_fast_sort_for_non_indexed_status() {
    fast_sort_without_index();
}

#[test]
fn util_test_get_basename() {
    assert_eq!("/", get_basename("/"));
    assert_eq!("foo", get_basename("/foo"));
    assert_eq!("bar", get_basename("/foo/bar"));
}

#[test]
fn hidden_entries_are_skipped_when_asked() {
    let hidden_tree = || {
        let mut t = tree("root", &["a/b", "c"]);
        t.children[0].is_hidden = true;
        t
    };
    let mut builder = DatabaseBuilder::new();
    builder.ignore_hidden(true);
    let db = builder.build(vec![ScannedRoot { path: "/r".to_string(), tree: hidden_tree() }]).unwrap();
    assert_eq!(all_paths(&db), vec!["/r".to_string(), "/r/c".to_string()]);
    let db = DatabaseBuilder::new().build(vec![ScannedRoot { path: "/r".to_string(), tree: hidden_tree() }]).unwrap();
    assert_eq!(db.num_entries(), 4);
}

#[test]
fn statuses_are_stored_as_asked() {
    let mut f = file("x.txt");
    f.metadata.size = 42;
    f.metadata.modified = FileTime { secs: 7, nanos: 3 };
    let t = dir("root", vec![f, dir("sub", vec![file("y")])]);
    let mut builder = DatabaseBuilder::new();
    builder.index(StatusKind::Size).index(StatusKind::Modified);
    let db = builder.build(vec![ScannedRoot { path: "/r".to_string(), tree: t }]).unwrap();
    let root = &db.root_entries()[0];
    let kids = root.children();
    let x = kids.iter().find(|e| e.basename() == "x.txt").unwrap();
    assert_eq!(x.size(), Some(42));
    assert_eq!(x.modified(), Some(FileTime { secs: 7, nanos: 3 }));
    assert_eq!(x.created(), None);
    assert_eq!(x.extension(), Some("txt"));
    assert!(!x.is_dir());
    let sub = kids.iter().find(|e| e.basename() == "sub").unwrap();
    assert!(sub.is_dir());
    assert_eq!(sub.size(), Some(1));
    assert_eq!(sub.extension(), None);
}

#[test]
fn times_before_the_epoch_become_the_epoch() {
    assert_eq!(sanitize_system_time(None), FileTime { secs: 0, nanos: 0 });
    let t = FileTime { secs: 5, nanos: 6 };
    assert_eq!(sanitize_system_time(Some(t)), t);
}

#[test]
fn dedup_keeps_outermost_dirs() {
    let dirs = vec![
        "/a/b".to_string(),
        "/b/c".to_string(),
        "/a".to_string(),
        "/b/c/d".to_string(),
        "/e/a/b".to_string(),
        "/a".to_string(),
    ];
    assert_eq!(dedup_dirs(dirs, '/'), vec!["/a".to_string(), "/b/c".to_string(), "/e/a/b".to_string()]);
}

#[test]
fn dedup_compares_whole_components() {
    let dirs = vec!["t/ab".to_string(), "t/a".to_string()];
    assert_eq!(dedup_dirs(dirs, '/'), vec!["t/a".to_string(), "t/ab".to_string()]);
    let dirs = vec!["t/a/c".to_string(), "t/a b".to_string(), "t/a".to_string()];
    assert_eq!(dedup_dirs(dirs, '/'), vec!["t/a".to_string(), "t/a b".to_string()]);
    let dirs = vec!["/x".to_string(), "/".to_string()];
    assert_eq!(dedup_dirs(dirs, '/'), vec!["/".to_string()]);
    let dirs = vec!["C:\\Users\\me".to_string(), "C:\\".to_string()];
    assert_eq!(dedup_dirs(dirs, '\\'), vec!["C:\\".to_string()]);
}

#[test]
fn hidden_names_and_attributes() {
    assert!(is_hidden(".git", None));
    assert!(!is_hidden("git", None));
    assert!(!is_hidden("", None));
    assert!(is_hidden("git", Some(Mode::from(0x2))));
    assert!(!is_hidden("git", Some(Mode::from(0x20))));
}

#[test]
fn metadata_is_read_only_when_indexed() {
    let mut o = IndexOptions::default();
    assert!(!o.needs_metadata(false));
    o.index_flags.size = true;
    assert!(o.needs_metadata(false));
    assert!(!o.needs_metadata(true));
    o.index_flags.modified = true;
    assert!(o.needs_metadata(true));
}

#[test]
fn a_name_longer_than_a_span_fills_the_index() {
    let long = "n".repeat(70_000);
    let root = dir("r", vec![file("a"), file(&long)]);
    let built = DatabaseBuilder::new().build(vec![ScannedRoot { path: "/r".to_string(), tree: root }]);
    assert!(matches!(built, Err(indexa::Error::IndexFull)));
    let fits = "n".repeat(65_535);
    let root = dir("r", vec![file("a"), file(&fits), file(&fits)]);
    let db = DatabaseBuilder::new().build(vec![ScannedRoot { path: "/r".to_string(), tree: root }]).unwrap();
    assert_eq!(db.num_entries(), 4);
}

#[test]
fn a_single_tree_gives_sorted_presorted_lists() {
    let root = dir("r", vec![file("b"), dir("a", vec![file("z"), file("c")]), file("a.txt")]);
    let mut builder = DatabaseBuilder::new();
    builder.fast_sort(StatusKind::Path);
    let db = builder.build(vec![ScannedRoot { path: "/r".to_string(), tree: root }]).unwrap();
    assert!(db.is_fast_sortable(StatusKind::Path));
    let mut qb = indexa::query::QueryBuilder::new("");
    qb.sort_by(StatusKind::Path);
    let q = qb.build().unwrap();
    let paths: Vec<String> = db.search_with(&q, None).unwrap().iter().map(|id| db.entry(*id).path()).collect();
    assert_eq!(paths, vec!["/r", "/r/a", "/r/a/c", "/r/a/z", "/r/a.txt", "/r/b"]);
}
