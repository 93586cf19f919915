use indexa::database::builder::{DatabaseBuilder, ScannedRoot};
use indexa::database::indexer::{DirEntry, Metadata};
use indexa::matcher::{should_search_match_path, MatcherBuilder};
use indexa::Error;

fn entry(name: &str, is_dir: bool, children: Vec<DirEntry>) -> DirEntry {
    let n = children.len() as u64;
    DirEntry { name: name.to_string(), is_dir, is_hidden: false, metadata: Metadata::default(), children, num_children: n }
}

#[test]
fn when_paths_are_searched() {
    let sep = std::path::MAIN_SEPARATOR;
    assert!(should_search_match_path(true, false, false, "foo"));
    assert!(!should_search_match_path(false, false, false, &format!("a{}b", sep)));
    assert!(should_search_match_path(false, true, false, &format!("a{}b", sep)));
    assert!(!should_search_match_path(false, true, false, "ab"));
    if sep == '/' {
        assert!(should_search_match_path(false, true, true, "a/b"));
    } else {
        assert!(!should_search_match_path(false, true, true, r"a\b"));
        assert!(should_search_match_path(false, true, true, r"a\\b"));
    }
}

#[test]
fn matching_and_highlighting() {
    let root = entry("r", true, vec![entry("foo", true, vec![entry("barfoo.txt", false, Vec::new())])]);
    let db = DatabaseBuilder::new().build(vec![ScannedRoot { path: "/r".to_string(), tree: root }]).unwrap();
    let roots = db.root_entries();
    let foo = roots[0].children().remove(0);
    let file = foo.children().remove(0);
    assert_eq!(file.path(), "/r/foo/barfoo.txt");

    let m = MatcherBuilder::new("foo").build().unwrap();
    assert!(!m.query_is_empty());
    assert!(!m.match_path());
    assert!(m.is_match(&file));
    assert!(!m.is_match(&roots[0]));
    let d = m.match_detail(&file);
    assert_eq!(d.path_str(), "/r/foo/barfoo.txt");
    assert_eq!(d.basename_matches(), vec![(3, 6)]);
    assert_eq!(d.path_matches(), vec![(10, 13)]);

    let mut b = MatcherBuilder::new("FOO");
    b.match_path(true).case_insensitive(true);
    let m = b.build().unwrap();
    assert!(m.match_path());
    assert!(m.is_match(&foo));
    let d = m.match_detail(&file);
    assert_eq!(d.path_matches(), vec![(3, 6), (10, 13)]);
    assert_eq!(d.basename_matches(), vec![(3, 6)]);

    let mut b = MatcherBuilder::new("a.c");
    assert!(!b.build().unwrap().is_match(&file));
    b.regex(true).auto_match_path(true);
    assert!(MatcherBuilder::new("").build().unwrap().query_is_empty());
    assert!(matches!(MatcherBuilder::new("(").regex(true).build(), Err(Error::Regex(_))));
}
