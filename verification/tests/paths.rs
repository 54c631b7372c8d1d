use seldir::path::{is_absolute_path, is_root_path, is_valid_segment, join_path, parent_path};

#[test]
fn parent_of_nested_path() {
    assert_eq!(parent_path("/tmp/a/b"), Some("/tmp/a".to_string()));
    assert_eq!(parent_path("/tmp"), Some("/".to_string()));
}

#[test]
fn root_has_no_parent() {
    assert_eq!(parent_path("/"), None);
    assert!(is_root_path("/"));
    assert!(!is_root_path("/a"));
    assert!(!is_root_path(""));
    assert!(!is_root_path("//"));
}

#[test]
fn text_without_separator_has_no_parent() {
    assert_eq!(parent_path("abc"), None);
    assert_eq!(parent_path(""), None);
}

#[test]
fn join_puts_one_separator() {
    assert_eq!(join_path("/", "etc"), "/etc");
    assert_eq!(join_path("/tmp/a", "z.txt"), "/tmp/a/z.txt");
}

#[test]
fn parent_undoes_join() {
    assert_eq!(parent_path(&join_path("/tmp/a", "b")), Some("/tmp/a".to_string()));
    assert_eq!(parent_path(&join_path("/", "b")), Some("/".to_string()));
    assert_eq!(parent_path(&join_path("/häuser/straße", "ü")), Some("/häuser/straße".to_string()));
}

#[test]
fn well_formed_absolute_paths() {
    assert!(is_absolute_path("/"));
    assert!(is_absolute_path("/a"));
    assert!(is_absolute_path("/a/b.c"));
    assert!(!is_absolute_path(""));
    assert!(!is_absolute_path("a/b"));
    assert!(!is_absolute_path("/a/"));
    assert!(!is_absolute_path("//"));
    assert!(!is_absolute_path("/a//b"));
}

#[test]
fn segments_hold_no_separator() {
    assert!(is_valid_segment("a"));
    assert!(is_valid_segment(".hidden"));
    assert!(!is_valid_segment(""));
    assert!(!is_valid_segment("a/b"));
    assert!(!is_valid_segment("/"));
    assert!(!is_valid_segment("."));
    assert!(!is_valid_segment(".."));
    assert!(is_valid_segment("..."));
    assert!(is_valid_segment(".a"));
}
