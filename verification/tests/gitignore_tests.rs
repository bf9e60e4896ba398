use worktree_admin::gitignore::{
    ignored_items_from, ignored_items_from_matches, sort_ignored_items, GitignoreManager, IgnoredItem,
};

fn item(path: &str, is_dir: bool, selected: bool) -> IgnoredItem {
    IgnoredItem { path: path.to_string(), is_dir, selected }
}

#[test]
fn item_names() {
    assert_eq!(item("/r/target", true, false).name(), "target/");
    assert_eq!(item("/r/.env", false, false).name(), ".env");
    assert_eq!(item("/", false, false).name(), "unknown");
    assert_eq!(item("/", true, false).name(), "unknown/");
}

#[test]
fn relative_paths() {
    assert_eq!(item("/r/node_modules/x", true, false).relative_path("/r"), "node_modules/x");
    assert_eq!(item("/r/.env", false, false).relative_path("/r/"), ".env");
    assert_eq!(item("/other/.env", false, false).relative_path("/r"), "/other/.env");
    assert_eq!(item("/r", false, false).relative_path("/r"), "");
}

#[test]
fn manager_new_keeps_path() {
    let m = GitignoreManager::new("/r".to_string()).unwrap();
    assert_eq!(m.patterns("a\n"), vec!["/r/a"]);
}

#[test]
fn patterns_from_gitignore() {
    let m = GitignoreManager::new("/home/u/repo".to_string()).unwrap();
    let text = "# build output\n/target\n\n  *.log  \nnode_modules/\r\n   \n#x\n";
    assert_eq!(
        m.patterns(text),
        vec!["/home/u/repo/target", "/home/u/repo/*.log", "/home/u/repo/node_modules/"]
    );
    assert!(m.patterns("").is_empty());
}

#[test]
fn sorting_puts_directories_first_then_paths() {
    let items = vec![
        item("/r/b.txt", false, false),
        item("/r/z", true, false),
        item("/r/a-b", false, false),
        item("/r/a/b", false, true),
        item("/r/a", true, false),
    ];
    let sorted = sort_ignored_items(&items);
    let paths: Vec<&str> = sorted.iter().map(|i| i.path.as_str()).collect();
    // Paths compare by components: "/r/a/b" comes before "/r/a-b" although '-' < '/'.
    assert_eq!(paths, vec!["/r/a", "/r/z", "/r/a/b", "/r/a-b", "/r/b.txt"]);
    assert!(sorted[2].selected);
}

#[test]
fn copy_plan_keeps_places() {
    let m = GitignoreManager::new("/home/u/repo".to_string()).unwrap();
    let items = vec![
        item("/home/u/repo/.env", false, true),
        item("/home/u/repo/target", true, false),
        item("/home/u/repo/conf/local.toml", false, true),
        item("/elsewhere/x", false, true),
    ];
    let steps = m.copy_selected_items(&items, "/home/u/feat");
    assert_eq!(steps.len(), 3);
    assert_eq!(steps[0].source, "/home/u/repo/.env");
    assert_eq!(steps[0].target, "/home/u/feat/.env");
    assert_eq!(steps[0].target_parent.as_deref(), Some("/home/u/feat"));
    assert!(!steps[0].is_dir);
    assert_eq!(steps[1].target, "/home/u/feat/conf/local.toml");
    assert_eq!(steps[1].target_parent.as_deref(), Some("/home/u/feat/conf"));
    // A path outside the repository keeps its absolute place.
    assert_eq!(steps[2].target, "/elsewhere/x");
    assert_eq!(steps[2].target_parent.as_deref(), Some("/elsewhere"));
}

#[test]
fn ignored_files_none_without_gitignore() {
    let m = GitignoreManager::new(".".to_string()).unwrap();
    assert!(m.get_ignored_files(None).is_empty());
    assert!(m.get_ignored_files(Some("# only a comment\n\n")).is_empty());
}

#[test]
fn ignored_files_found_on_disk() {
    // The tests run in the crate's directory, which holds these two.
    let m = GitignoreManager::new(".".to_string()).unwrap();
    let found = m.get_ignored_files(Some("tests\nsrc\n/src\n./tests\n[\n"));
    let names: Vec<String> = found.iter().map(|i| i.name()).collect();
    assert_eq!(names, vec!["src/", "tests/"]);
    assert!(found.iter().all(|i| !i.selected && i.is_dir));
    assert_eq!(found[0].relative_path("."), "src");
    let files = m.get_ignored_files(Some("src/*.rs\n"));
    assert!(files.len() >= 5);
    assert!(files.iter().all(|i| !i.is_dir && i.name().ends_with(".rs")));
    let paths: Vec<&str> = files.iter().map(|i| i.path.as_str()).collect();
    let mut expected = paths.clone();
    expected.sort();
    assert_eq!(paths, expected);
}

#[test]
fn invalid_glob_pattern_finds_nothing() {
    let m = GitignoreManager::new(".".to_string()).unwrap();
    assert!(m.get_ignored_files(Some("***\n[\n")).is_empty());
}

#[test]
fn sorting_keeps_the_order_of_equal_paths() {
    let items = vec![item("/r//a", false, true), item("/r/b", false, false), item("/r/a/", false, false)];
    let sorted = sort_ignored_items(&items);
    let paths: Vec<&str> = sorted.iter().map(|i| i.path.as_str()).collect();
    assert_eq!(paths, vec!["/r//a", "/r/a/", "/r/b"]);
}

#[test]
fn found_paths_become_the_list() {
    let found = vec![
        ("/r/b.log".to_string(), false),
        ("/r/target".to_string(), true),
        ("/r//b.log".to_string(), true),
        ("/r/a.log".to_string(), false),
        ("/r/./target/".to_string(), false),
        ("/r/node_modules".to_string(), true),
    ];
    let items = ignored_items_from(&found);
    let got: Vec<(&str, bool, bool)> =
        items.iter().map(|i| (i.path.as_str(), i.is_dir, i.selected)).collect();
    // The first of each path is kept (with what was found for it), directories first.
    assert_eq!(
        got,
        vec![
            ("/r/node_modules", true, false),
            ("/r/target", true, false),
            ("/r/a.log", false, false),
            ("/r/b.log", false, false),
        ]
    );
    assert!(ignored_items_from(&Vec::new()).is_empty());
}

#[test]
fn matches_are_read_pattern_by_pattern() {
    let m = |p: &str, d: bool| Some((p.to_string(), d));
    let matches = vec![
        Some(vec![m("/r/z.log", false), None, m("/r/a.log", false)]),
        None,
        Some(vec![]),
        Some(vec![m("/r/target", true), m("/r//z.log", true)]),
    ];
    let items = ignored_items_from_matches(&matches);
    let got: Vec<(&str, bool, bool)> =
        items.iter().map(|i| (i.path.as_str(), i.is_dir, i.selected)).collect();
    assert_eq!(
        got,
        vec![("/r/target", true, false), ("/r/a.log", false, false), ("/r/z.log", false, false)]
    );
    assert!(ignored_items_from_matches(&vec![None, Some(vec![None])]).is_empty());
}
