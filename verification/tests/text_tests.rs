use worktree_admin::text::{
    chars_of, has_prefix, join, lines, same_chars, skip_from, split, string_of, trimmed, trimmed_start_char,
};

fn s(v: &[char]) -> String {
    string_of(v)
}

fn all(v: &[Vec<char>]) -> Vec<String> {
    v.iter().map(|x| string_of(x)).collect()
}

#[test]
fn lines_strip_newlines_and_crlf() {
    let text = chars_of("foo\r\nbar\n\nbaz\r");
    assert_eq!(all(&lines(&text)), vec!["foo", "bar", "", "baz\r"]);
}

#[test]
fn lines_final_newline_is_optional() {
    assert_eq!(all(&lines(&chars_of("a\nb\n"))), vec!["a", "b"]);
    assert_eq!(all(&lines(&chars_of("a\nb"))), vec!["a", "b"]);
    assert!(lines(&chars_of("")).is_empty());
    assert_eq!(all(&lines(&chars_of("\n"))), vec![""]);
}

#[test]
fn split_and_join_round_trip() {
    let text = chars_of("/a//b/");
    let parts = split(&text, '/');
    assert_eq!(all(&parts), vec!["", "a", "", "b", ""]);
    assert_eq!(s(&join(&parts, '/')), "/a//b/");
}

#[test]
fn trim_removes_unicode_white_space() {
    let text = chars_of("\u{3000}\t main \u{a0}\n");
    assert_eq!(s(&trimmed(&text)), "main");
    assert_eq!(s(&trimmed(&chars_of("   "))), "");
}

#[test]
fn trim_start_char_removes_all_leading_copies() {
    assert_eq!(s(&trimmed_start_char(&chars_of("** main*"), '*')), " main*");
}

#[test]
fn prefixes_and_equality() {
    let a = chars_of("worktree /x");
    assert!(has_prefix(&a, &chars_of("worktree ")));
    assert!(!has_prefix(&a, &chars_of("HEAD ")));
    assert!(!has_prefix(&chars_of("wor"), &chars_of("worktree ")));
    assert!(same_chars(&chars_of("ab"), &chars_of("ab")));
    assert!(!same_chars(&chars_of("ab"), &chars_of("abc")));
    assert_eq!(s(&skip_from(&a, 9)), "/x");
}
