use worktree_admin::path::{path_components, path_file_name, path_join, path_parent, path_strip_prefix};
use worktree_admin::text::{chars_of, string_of};

fn comps(p: &str) -> Vec<String> {
    path_components(&chars_of(p)).iter().map(|c| string_of(c)).collect()
}

fn file_name(p: &str) -> Option<String> {
    path_file_name(&chars_of(p)).map(|n| string_of(&n))
}

fn strip(p: &str, base: &str) -> Option<String> {
    path_strip_prefix(&chars_of(p), &chars_of(base)).map(|r| string_of(&r))
}

fn parent(p: &str) -> Option<String> {
    path_parent(&chars_of(p)).map(|r| string_of(&r))
}

fn join(p: &str, q: &str) -> String {
    string_of(&path_join(&chars_of(p), &chars_of(q)))
}

#[test]
fn components_normalise() {
    assert_eq!(comps("/a//b/./c/"), vec!["/", "a", "b", "c"]);
    assert_eq!(comps("./a/../b"), vec![".", "a", "..", "b"]);
    assert_eq!(comps("a/."), vec!["a"]);
    assert!(comps("").is_empty());
}

#[test]
fn file_name_cases() {
    assert_eq!(file_name("/usr/bin/"), Some("bin".to_string()));
    assert_eq!(file_name("tmp/foo.txt"), Some("foo.txt".to_string()));
    assert_eq!(file_name("foo.txt/."), Some("foo.txt".to_string()));
    assert_eq!(file_name("foo.txt/.//"), Some("foo.txt".to_string()));
    assert_eq!(file_name("foo.txt/.."), None);
    assert_eq!(file_name("/"), None);
    assert_eq!(file_name("."), None);
    assert_eq!(file_name(""), None);
}

#[test]
fn strip_prefix_cases() {
    assert_eq!(strip("/test/haha/foo.txt", "/"), Some("test/haha/foo.txt".to_string()));
    assert_eq!(strip("/test/haha/foo.txt", "/test"), Some("haha/foo.txt".to_string()));
    assert_eq!(strip("/test/haha/foo.txt", "/test/"), Some("haha/foo.txt".to_string()));
    assert_eq!(strip("/test/haha/foo.txt", "/test/haha/foo.txt"), Some("".to_string()));
    assert_eq!(strip("/test/haha/foo.txt", "/test/haha/foo.txt/"), Some("".to_string()));
    assert_eq!(strip("/test/haha/foo.txt", "test"), None);
    assert_eq!(strip("/test/haha/foo.txt", "/haha"), None);
    assert_eq!(strip("/repo//a/./b/", "/repo"), Some("a/./b".to_string()));
    assert_eq!(strip("/a/", ""), Some("/a".to_string()));
    assert_eq!(strip("/", ""), Some("/".to_string()));
    assert_eq!(strip("./x/", ""), Some("./x".to_string()));
    assert_eq!(strip("a/b/", ""), Some("a/b".to_string()));
}

#[test]
fn parent_cases() {
    assert_eq!(parent("/foo/bar"), Some("/foo".to_string()));
    assert_eq!(parent("/foo"), Some("/".to_string()));
    assert_eq!(parent("/"), None);
    assert_eq!(parent("foo"), Some("".to_string()));
    assert_eq!(parent(""), None);
    assert_eq!(parent("./a"), Some(".".to_string()));
    assert_eq!(parent("/x//a/"), Some("/x".to_string()));
    assert_eq!(parent("/./a"), Some("/".to_string()));
}

#[test]
fn join_cases() {
    assert_eq!(join("/etc", "passwd"), "/etc/passwd");
    assert_eq!(join("/etc/", "passwd"), "/etc/passwd");
    assert_eq!(join("/etc", "/bin/sh"), "/bin/sh");
    assert_eq!(join("", "a"), "a");
    assert_eq!(join("/a", ""), "/a/");
}
