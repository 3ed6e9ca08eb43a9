use agent_box_common::named_map::NamedMap;
use agent_box_common::pathname::{join_path_str, path_ends_with_str, strip_path_prefix_str};
use agent_box_common::text::{join_strings, lines_of, split_str, trim_str};

#[test]
fn splitting_and_lines() {
    assert_eq!(split_str("a b  c", ' '), vec!["a", "b", "", "c"]);
    assert_eq!(split_str("", ':'), vec![""]);
    assert_eq!(lines_of("a\r\nb\n\nc"), vec!["a", "b", "", "c"]);
    assert_eq!(lines_of("a\n"), vec!["a"]);
    assert!(lines_of("").is_empty());
    assert_eq!(trim_str("\u{3000} x y\t\n"), "x y");
    assert_eq!(join_strings(&vec!["a".to_string(), "b".to_string()], ", "), "a, b");
}

#[test]
fn path_names() {
    assert_eq!(join_path_str("/a", "b"), "/a/b");
    assert_eq!(join_path_str("/a/", "b"), "/a/b");
    assert_eq!(join_path_str("/a", "/b"), "/b");
    assert_eq!(join_path_str("", "b"), "b");
    assert_eq!(strip_path_prefix_str("/", "/x/y").unwrap(), "x/y");
    assert!(strip_path_prefix_str("a", "./a/b").is_none());
    assert!(path_ends_with_str("/a/b/c", "b/c"));
    assert!(path_ends_with_str("/a/b", "/a/b"));
    assert!(!path_ends_with_str("a/b", "/a/b"));
}

#[test]
fn named_map_replaces_in_place() {
    let mut m: NamedMap<u32> = NamedMap::new();
    assert_eq!(m.insert("a".to_string(), 1), None);
    assert_eq!(m.insert("b".to_string(), 2), None);
    assert_eq!(m.insert("a".to_string(), 3), Some(1));
    assert_eq!(m.keys(), vec!["a", "b"]);
    assert_eq!(m.get("a"), Some(&3));
    assert!(m.contains_key("b"));
    assert!(!m.contains_key("c"));
    assert_eq!(m.len(), 2);
}
