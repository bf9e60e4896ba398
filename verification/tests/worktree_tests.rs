use worktree_admin::worktree::{
    check_status, parse_branches, parse_worktree_list, spawn_failure, status_failure, Worktree,
    WorktreeManager,
};

fn worktree(path: &str) -> Worktree {
    Worktree {
        path: path.to_string(),
        branch: String::new(),
        commit: String::new(),
        is_bare: false,
        is_detached: false,
        is_prunable: false,
    }
}

#[test]
fn porcelain_two_worktrees() {
    let out = "worktree /home/u/repo\nHEAD 0123456789abcdef\nbranch refs/heads/main\n\nworktree /home/u/feat\nHEAD fedcba9876543210\ndetached\n\n";
    let ws = parse_worktree_list(out);
    assert_eq!(ws.len(), 2);
    assert_eq!(ws[0].path, "/home/u/repo");
    assert_eq!(ws[0].commit, "0123456789abcdef");
    assert_eq!(ws[0].branch, "refs/heads/main");
    assert!(!ws[0].is_detached && !ws[0].is_bare && !ws[0].is_prunable);
    assert_eq!(ws[1].branch, "detached");
    assert!(ws[1].is_detached);
    assert_eq!(ws[1].name(), "feat");
}

#[test]
fn porcelain_last_block_without_blank_line() {
    let ws = parse_worktree_list("worktree /r\nHEAD abc\nbranch refs/heads/x");
    assert_eq!(ws.len(), 1);
    assert_eq!(ws[0].path, "/r");
    assert_eq!(ws[0].commit, "abc");
    assert_eq!(ws[0].branch, "refs/heads/x");
}

#[test]
fn porcelain_quirks() {
    // HEAD before any worktree line is dropped; a second worktree line replaces
    // the first one; the branch seen before carries on to the next block.
    let ws = parse_worktree_list("HEAD zzz\nbranch refs/heads/a\nworktree /one\nworktree /two\nHEAD 111\n\n");
    assert_eq!(ws.len(), 1);
    assert_eq!(ws[0].path, "/two");
    assert_eq!(ws[0].commit, "111");
    assert_eq!(ws[0].branch, "refs/heads/a");
    assert!(parse_worktree_list("").is_empty());
    let crlf = parse_worktree_list("worktree /w\r\nHEAD h\r\n\r\n");
    assert_eq!(crlf.len(), 1);
    assert_eq!(crlf[0].path, "/w");
    assert_eq!(crlf[0].commit, "h");
}

#[test]
fn branches_skip_remotes_and_marks() {
    let out = "* main\n  feature/x\n  remotes/origin/main\n  remotes/origin/HEAD -> origin/main\n**  odd \n";
    assert_eq!(parse_branches(out), vec!["main", "feature/x", "odd"]);
    assert!(parse_branches("").is_empty());
}

#[test]
fn worktree_names() {
    assert_eq!(worktree("/home/u/feat").name(), "feat");
    assert_eq!(worktree("/home/u/feat/").name(), "feat");
    assert_eq!(worktree("/").name(), "unknown");
    assert_eq!(worktree("/a/..").name(), "unknown");
}

fn args(c: &worktree_admin::worktree::GitCommand) -> Vec<&str> {
    c.args.iter().map(|a| a.as_str()).collect()
}

#[test]
fn git_commands() {
    let m = WorktreeManager::new("/home/u/repo".to_string());
    let list = m.list();
    assert_eq!(args(&list), vec!["worktree", "list", "--porcelain"]);
    assert_eq!(list.current_dir, "/home/u/repo");
    assert_eq!(list.label, "git worktree list");
    assert_eq!(args(&m.create("feat", None)), vec!["worktree", "add", "../feat", "-b", "feat"]);
    assert_eq!(args(&m.create("feat", Some("/tmp/w"))), vec!["worktree", "add", "/tmp/w", "-b", "feat"]);
    assert_eq!(args(&m.create_from_branch("dev", None)), vec!["worktree", "add", "../dev", "dev"]);
    assert_eq!(m.create_from_branch("dev", Some("x")).label, "git worktree add");
    assert_eq!(args(&m.remove("/home/u/feat")), vec!["worktree", "remove", "/home/u/feat"]);
    assert_eq!(args(&m.prune()), vec!["worktree", "prune"]);
    let branches = m.get_branches();
    assert_eq!(args(&branches), vec!["branch", "-a"]);
    assert_eq!(branches.label, "git branch");
}

#[test]
fn git_failures() {
    assert_eq!(spawn_failure("git worktree list"), "Failed to execute git worktree list");
    assert_eq!(status_failure("git branch", "fatal: no"), "git branch failed: fatal: no");
    assert_eq!(check_status("git worktree prune", true, "x"), Ok(()));
    assert_eq!(
        check_status("git worktree prune", false, "boom"),
        Err("git worktree prune failed: boom".to_string())
    );
    let m = WorktreeManager::new("/r".to_string());
    let cmd = m.list();
    assert_eq!(cmd.spawn_error(), "Failed to execute git worktree list");
    let r = WorktreeManager::list_result(&cmd, false, "worktree /r\n", "bad");
    assert_eq!(r.unwrap_err(), "git worktree list failed: bad");
    let ok = WorktreeManager::list_result(&cmd, true, "worktree /r\n", "").unwrap();
    assert_eq!(ok.len(), 1);
    let b = m.get_branches();
    assert_eq!(WorktreeManager::branches_result(&b, true, "* a\n", "").unwrap(), vec!["a"]);
    assert_eq!(
        WorktreeManager::branches_result(&b, false, "", "e").unwrap_err(),
        "git branch failed: e"
    );
}
