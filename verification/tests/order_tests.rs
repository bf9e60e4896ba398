use worktree_admin::order::{compare_component_lists, compare_texts};
use worktree_admin::path::path_components;
use worktree_admin::text::chars_of;

fn cmp_paths(a: &str, b: &str) -> i8 {
    compare_component_lists(&path_components(&chars_of(a)), &path_components(&chars_of(b)))
}

#[test]
fn texts_compare_by_code_point() {
    assert_eq!(compare_texts(&chars_of("abc"), &chars_of("abd")), -1);
    assert_eq!(compare_texts(&chars_of("ab"), &chars_of("abc")), -1);
    assert_eq!(compare_texts(&chars_of("b"), &chars_of("abc")), 1);
    assert_eq!(compare_texts(&chars_of("é"), &chars_of("z")), 1);
    assert_eq!(compare_texts(&chars_of(""), &chars_of("")), 0);
}

#[test]
fn paths_compare_by_components() {
    assert_eq!(cmp_paths("/a/b", "/a-b"), -1);
    assert_eq!(cmp_paths("/a//b/", "/a/b"), 0);
    assert_eq!(cmp_paths("a", "/a"), 1);
    assert_eq!(cmp_paths("./a", "a"), -1);
    assert_eq!(cmp_paths("../a", "a"), -1);
    assert_eq!(cmp_paths("/a", "/a/b"), -1);
}
