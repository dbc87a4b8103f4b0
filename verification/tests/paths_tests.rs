use vados::paths::{depth, parent_path};

#[test]
fn parent_of_root_is_none() {
    assert_eq!(parent_path("/"), None);
}

#[test]
fn parent_of_empty_is_none() {
    assert_eq!(parent_path(""), None);
}

#[test]
fn parent_of_top_level_is_root() {
    assert_eq!(parent_path("/a").as_deref(), Some("/"));
    assert_eq!(parent_path("/projects").as_deref(), Some("/"));
}

#[test]
fn parent_of_nested_path() {
    assert_eq!(parent_path("/a/b").as_deref(), Some("/a"));
    assert_eq!(parent_path("/a/b/c").as_deref(), Some("/a/b"));
}

#[test]
fn parent_without_separator_is_root() {
    assert_eq!(parent_path("ab").as_deref(), Some("/"));
}

#[test]
fn depth_counts_slashes() {
    assert_eq!(depth("/"), 1);
    assert_eq!(depth("/a"), 1);
    assert_eq!(depth("/a/b"), 2);
    assert_eq!(depth("/a/b/c"), 3);
    assert_eq!(depth("abc"), 0);
}
