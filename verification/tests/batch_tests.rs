//! Discovery rules: glob roots, selection, repeats and order.

use imzip::batch::{check_discovered, drop_repeated_paths, InputEntry};
use imzip::batch::{check_glob, dedup_found, finish_discovery, glob_pick, has_glob_meta, is_supported, order_entries, static_glob_root};

#[test]
fn glob_metacharacters() {
    assert!(has_glob_meta("*.jpg"));
    assert!(has_glob_meta("a/b?.png"));
    assert!(has_glob_meta("[ab].gif"));
    assert!(has_glob_meta("{a,b}.gif"));
    assert!(!has_glob_meta("plain/dir/file.jpg"));
}

#[test]
fn glob_roots() {
    assert_eq!(static_glob_root("*.jpg"), ".");
    assert_eq!(static_glob_root("photos/**/*.jpg"), "photos");
    assert_eq!(static_glob_root("a/b/c*/d.png"), "a/b");
    assert_eq!(static_glob_root("/abs/x/*.png"), "/abs/x");
}

#[test]
fn glob_selection() {
    assert!(check_glob("*.jpg").is_ok());
    assert!(check_glob("[").unwrap_err().starts_with("invalid glob pattern: "));
    let found = vec!["./a.jpg".to_string(), "./sub/a.jpg".to_string(), "./b.png".to_string()];
    assert_eq!(glob_pick("*.jpg", ".", &found).unwrap(), vec!["./a.jpg".to_string()]);
    assert_eq!(glob_pick("**/*.jpg", ".", &found).unwrap(), vec!["./a.jpg".to_string(), "./sub/a.jpg".to_string()]);
    let found = vec!["photos/x.png".to_string(), "photos/y.jpg".to_string()];
    assert_eq!(glob_pick("photos/*.png", "photos", &found).unwrap(), vec!["photos/x.png".to_string()]);
    assert!(glob_pick("[", ".", &found).is_err());
}

#[test]
fn supported_extensions() {
    assert!(is_supported("a/b.JPG"));
    assert!(is_supported("x.pam"));
    assert!(!is_supported("notes.txt"));
    assert!(!is_supported("noext"));
}

#[test]
fn repeats_keep_the_first_found() {
    let items = vec![
        ("b.png".to_string(), Some("d".to_string()), "/k/b".to_string()),
        ("a.png".to_string(), None, "/k/a".to_string()),
        ("./b.png".to_string(), None, "/k/b".to_string()),
    ];
    let out = dedup_found(&items);
    assert_eq!(out, vec![("b.png".to_string(), Some("d".to_string())), ("a.png".to_string(), None)]);
}

#[test]
fn order_is_by_path_components_and_numbered() {
    let found = vec![
        ("a-b.png".to_string(), None),
        ("a/b.png".to_string(), Some("a".to_string())),
        ("B.png".to_string(), None),
        ("a.png".to_string(), None),
    ];
    let out = order_entries(found);
    let paths: Vec<&str> = out.iter().map(|e| e.path.as_str()).collect();
    // components compare one by one: "a" < "a-b.png" < "a.png"
    assert_eq!(paths, vec!["B.png", "a/b.png", "a-b.png", "a.png"]);
    let indices: Vec<usize> = out.iter().map(|e| e.index).collect();
    assert_eq!(indices, vec![1, 2, 3, 4]);
    assert_eq!(out[1].root.as_deref(), Some("a"));
}

#[test]
fn finish_dedups_then_orders() {
    let items = vec![
        ("z.png".to_string(), None, "/z".to_string()),
        ("y.png".to_string(), None, "/y".to_string()),
        ("z2.png".to_string(), None, "/z".to_string()),
    ];
    let out = finish_discovery(&items);
    let paths: Vec<&str> = out.iter().map(|e| e.path.as_str()).collect();
    assert_eq!(paths, vec!["y.png", "z.png"]);
}

#[test]
fn no_path_twice_in_the_batch() {
    let e = |p: &str, i: usize| InputEntry { path: p.to_string(), root: None, index: i };
    let out = drop_repeated_paths(vec![e("a/b.png", 1), e("a//b.png", 2), e("c.png", 3)]);
    let paths: Vec<(&str, usize)> = out.iter().map(|x| (x.path.as_str(), x.index)).collect();
    assert_eq!(paths, vec![("a/b.png", 1), ("c.png", 2)]);
    // The same path under two keys stays once.
    let items = vec![
        ("x.png".to_string(), None, "k1".to_string()),
        ("x.png".to_string(), None, "k2".to_string()),
    ];
    let batch = finish_discovery(&items);
    assert_eq!(batch.len(), 1);
    assert_eq!((batch[0].path.as_str(), batch[0].index), ("x.png", 1));
}

#[test]
fn an_empty_discovery_is_refused() {
    let none: Vec<InputEntry> = Vec::new();
    assert_eq!(check_discovered(&none, &Vec::new()).unwrap_err(), "no input files matched");
    assert!(check_discovered(&none, &vec![("a".to_string(), "b".to_string())]).is_ok());
}
