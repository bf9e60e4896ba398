use worktree_admin::app::{App, AppMode, Awaiting, Command, Event, InputMode, Key};
use worktree_admin::gitignore::IgnoredItem;

const LIST: &str = "worktree /home/u/repo\nHEAD 1111111111\nbranch refs/heads/main\n\nworktree /home/u/feat\nHEAD 2222222222\nbranch refs/heads/feat\n\n";

fn git_ok(stdout: &str) -> Event {
    Event::GitDone { success: true, stdout: Ok(stdout.to_string()), stderr: String::new() }
}

fn git_err(stderr: &str) -> Event {
    Event::GitDone { success: false, stdout: Ok(String::new()), stderr: stderr.to_string() }
}

fn git_args(c: &Command) -> Vec<String> {
    match c {
        Command::Git(g) => g.args.clone(),
        _ => panic!("a git command was expected"),
    }
}

fn is_nothing(c: &Command) -> bool {
    matches!(c, Command::Nothing)
}

/// An application that has listed two worktrees.
fn started() -> App {
    let (mut app, first) = App::new("/home/u/repo".to_string());
    assert_eq!(git_args(&first), vec!["worktree", "list", "--porcelain"]);
    assert_eq!(app.awaiting, Awaiting::List);
    let c = app.step(git_ok(LIST));
    assert!(is_nothing(&c));
    app
}

fn key(app: &mut App, k: Key) -> Command {
    assert!(app.accepts_key(k));
    app.step(Event::Key(k))
}

fn typed(app: &mut App, text: &str) {
    for c in text.chars() {
        assert!(is_nothing(&key(app, Key::Char(c))));
    }
}

#[test]
fn start_lists_worktrees_and_selects_first() {
    let app = started();
    assert_eq!(app.worktrees.len(), 2);
    assert_eq!(app.worktrees[1].path, "/home/u/feat");
    assert_eq!(app.worktree_selected, Some(0));
    assert_eq!(app.mode, AppMode::Normal);
    assert!(app.running);
    assert_eq!(app.awaiting, Awaiting::Idle);
}

#[test]
fn start_with_no_worktrees_selects_nothing() {
    let (mut app, _) = App::new("/r".to_string());
    app.step(git_ok(""));
    assert!(app.worktrees.is_empty());
    assert_eq!(app.worktree_selected, None);
}

#[test]
fn failing_list_stops_the_program() {
    let (mut app, _) = App::new("/r".to_string());
    match app.step(git_err("not a git repository")) {
        Command::Fail(m) => assert_eq!(m, "git worktree list failed: not a git repository"),
        _ => panic!("the program should stop"),
    }
    assert!(!app.running);
    let (mut app, _) = App::new("/r".to_string());
    match app.step(Event::GitNotStarted) {
        Command::Fail(m) => assert_eq!(m, "Failed to execute git worktree list"),
        _ => panic!("the program should stop"),
    }
    let (mut app, _) = App::new("/r".to_string());
    let bad = Event::GitDone { success: true, stdout: Err("invalid utf-8".to_string()), stderr: String::new() };
    match app.step(bad) {
        Command::Fail(m) => assert_eq!(m, "invalid utf-8"),
        _ => panic!("the program should stop"),
    }
}

#[test]
fn navigation_moves_within_the_list() {
    let mut app = started();
    key(&mut app, Key::Up);
    assert_eq!(app.worktree_selected, Some(0));
    key(&mut app, Key::Char('j'));
    assert_eq!(app.worktree_selected, Some(1));
    key(&mut app, Key::Down);
    assert_eq!(app.worktree_selected, Some(1));
    key(&mut app, Key::Char('k'));
    assert_eq!(app.worktree_selected, Some(0));
}

#[test]
fn quit_keys_stop_the_loop() {
    let mut app = started();
    assert!(is_nothing(&key(&mut app, Key::Char('q'))));
    assert!(!app.running);
    let mut app = started();
    key(&mut app, Key::Esc);
    assert!(!app.running);
}

#[test]
fn delete_refresh_and_prune() {
    let mut app = started();
    key(&mut app, Key::Down);
    let c = key(&mut app, Key::Char('d'));
    assert_eq!(git_args(&c), vec!["worktree", "remove", "/home/u/feat"]);
    let c = app.step(git_ok(""));
    assert_eq!(git_args(&c), vec!["worktree", "list", "--porcelain"]);
    app.step(git_ok("worktree /home/u/repo\nHEAD 1\n\n"));
    assert_eq!(app.worktrees.len(), 1);
    // The selection is kept; the list on the screen puts it back in range.
    assert_eq!(app.worktree_selected, Some(1));

    let mut app = started();
    let c = key(&mut app, Key::Char('p'));
    assert_eq!(git_args(&c), vec!["worktree", "prune"]);
    let c = app.step(git_err("locked"));
    assert!(is_nothing(&c));
    assert_eq!(app.mode, AppMode::Error);
    assert_eq!(app.error_message.as_deref(), Some("git worktree prune failed: locked"));
    key(&mut app, Key::Char('x'));
    assert_eq!(app.mode, AppMode::Normal);
    assert_eq!(app.error_message, None);

    let mut app = started();
    let c = key(&mut app, Key::Char('r'));
    assert_eq!(git_args(&c), vec!["worktree", "list", "--porcelain"]);
}

#[test]
fn remove_that_cannot_start_is_shown() {
    let mut app = started();
    key(&mut app, Key::Char('d'));
    app.step(Event::GitNotStarted);
    assert_eq!(app.mode, AppMode::Error);
    assert_eq!(app.error_message.as_deref(), Some("Failed to execute git worktree remove"));
}

#[test]
fn dialog_fields_and_focus() {
    let mut app = started();
    key(&mut app, Key::Char('n'));
    assert_eq!(app.mode, AppMode::CreateWorktree);
    assert_eq!(app.input_mode, InputMode::BranchName);
    typed(&mut app, "my feat");
    assert_eq!(app.branch_input, "my feat");
    key(&mut app, Key::Backspace);
    assert_eq!(app.branch_input, "my fea");
    key(&mut app, Key::Tab);
    assert_eq!(app.input_mode, InputMode::Path);
    typed(&mut app, "/tmp/w");
    assert_eq!(app.path_input, "/tmp/w");
    key(&mut app, Key::Tab);
    assert_eq!(app.input_mode, InputMode::BranchName);
    key(&mut app, Key::Up);
    key(&mut app, Key::Esc);
    assert_eq!(app.mode, AppMode::Normal);
    assert_eq!(app.branch_input, "");
    assert_eq!(app.path_input, "");
}

#[test]
fn existing_branch_is_chosen_from_the_list() {
    let mut app = started();
    key(&mut app, Key::Char('n'));
    key(&mut app, Key::Tab);
    let c = key(&mut app, Key::Char(' '));
    assert!(app.create_from_existing);
    assert_eq!(git_args(&c), vec!["branch", "-a"]);
    app.step(git_ok("* main\n  dev\n  remotes/origin/main\n"));
    assert_eq!(app.available_branches, vec!["main", "dev"]);
    assert_eq!(app.branch_selected, Some(0));
    key(&mut app, Key::Tab);
    assert_eq!(app.input_mode, InputMode::SelectBranch);
    key(&mut app, Key::Down);
    key(&mut app, Key::Down);
    assert_eq!(app.branch_selected, Some(1));
    typed(&mut app, "zz");
    key(&mut app, Key::Enter);
    assert_eq!(app.branch_input, "dev");
    assert_eq!(app.input_mode, InputMode::BranchName);
    let c = key(&mut app, Key::Enter);
    assert_eq!(git_args(&c), vec!["worktree", "add", "../dev", "dev"]);
    assert_eq!(app.awaiting, Awaiting::Create);
}

#[test]
fn empty_branch_name_creates_nothing() {
    let mut app = started();
    key(&mut app, Key::Char('n'));
    assert!(is_nothing(&key(&mut app, Key::Enter)));
    assert_eq!(app.awaiting, Awaiting::Idle);
}

#[test]
fn failed_creation_is_shown_and_keeps_the_fields() {
    let mut app = started();
    key(&mut app, Key::Char('n'));
    typed(&mut app, "feat");
    let c = key(&mut app, Key::Enter);
    assert_eq!(git_args(&c), vec!["worktree", "add", "../feat", "-b", "feat"]);
    app.step(git_err("already exists"));
    assert_eq!(app.mode, AppMode::Error);
    assert_eq!(app.error_message.as_deref(), Some("git worktree add failed: already exists"));
    assert_eq!(app.branch_input, "feat");
}

#[test]
fn creation_without_ignored_files_lists_again() {
    let mut app = started();
    key(&mut app, Key::Char('n'));
    typed(&mut app, "feat");
    key(&mut app, Key::Enter);
    let c = app.step(git_ok(""));
    match &c {
        Command::ReadGitignore(p) => assert_eq!(p, "/home/u/repo/.gitignore"),
        _ => panic!(".gitignore should be read"),
    }
    assert_eq!(app.pending_worktree_path.as_deref(), Some("/home/u/feat"));
    let c = app.step(Event::GitignoreRead(Ok(None)));
    assert_eq!(git_args(&c), vec!["worktree", "list", "--porcelain"]);
    assert_eq!(app.mode, AppMode::Normal);
    assert_eq!(app.branch_input, "");
}

#[test]
fn unreadable_gitignore_stops_the_program() {
    let mut app = started();
    key(&mut app, Key::Char('n'));
    typed(&mut app, "feat");
    key(&mut app, Key::Enter);
    app.step(git_ok(""));
    match app.step(Event::GitignoreRead(Err("permission denied".to_string()))) {
        Command::Fail(m) => assert_eq!(m, "permission denied"),
        _ => panic!("the program should stop"),
    }
}

fn in_ignored_list(items: Vec<IgnoredItem>) -> App {
    let mut app = started();
    key(&mut app, Key::Char('n'));
    typed(&mut app, "feat");
    key(&mut app, Key::Tab);
    typed(&mut app, "/tmp/feat");
    key(&mut app, Key::Enter);
    app.step(git_ok(""));
    assert_eq!(app.pending_worktree_path.as_deref(), Some("/tmp/feat"));
    let c = app.ignored_files_loaded(items);
    assert!(is_nothing(&c));
    app
}

fn item(path: &str, is_dir: bool) -> IgnoredItem {
    IgnoredItem { path: path.to_string(), is_dir, selected: false }
}

#[test]
fn ignored_files_are_chosen_and_copied() {
    let mut app = in_ignored_list(vec![item("/home/u/repo/target", true), item("/home/u/repo/.env", false)]);
    assert_eq!(app.mode, AppMode::SelectIgnoredFiles);
    assert_eq!(app.ignored_selected, Some(0));
    assert_eq!(app.branch_input, "");
    key(&mut app, Key::Down);
    key(&mut app, Key::Char(' '));
    assert!(!app.ignored_items[0].selected && app.ignored_items[1].selected);
    let c = key(&mut app, Key::Enter);
    match &c {
        Command::Copy(steps) => {
            assert_eq!(steps.len(), 1);
            assert_eq!(steps[0].source, "/home/u/repo/.env");
            assert_eq!(steps[0].target, "/tmp/feat/.env");
        }
        _ => panic!("a copy was expected"),
    }
    // The list stays until the copies and the new list of worktrees have come.
    assert_eq!(app.mode, AppMode::SelectIgnoredFiles);
    assert_eq!(app.ignored_items.len(), 2);
    assert_eq!(app.awaiting, Awaiting::Copy { back_to_normal: true });
    let c = app.step(Event::Copied(Ok(())));
    assert_eq!(git_args(&c), vec!["worktree", "list", "--porcelain"]);
    assert_eq!(app.awaiting, Awaiting::ListAfterCopy { back_to_normal: true });
    assert_eq!(app.pending_worktree_path.as_deref(), Some("/tmp/feat"));
    assert!(is_nothing(&app.step(git_ok(LIST))));
    assert_eq!(app.mode, AppMode::Normal);
    assert!(app.ignored_items.is_empty());
    assert_eq!(app.pending_worktree_path, None);
    assert_eq!(app.worktrees.len(), 2);
    assert_eq!(app.awaiting, Awaiting::Idle);
}

#[test]
fn failed_copy_leaves_the_message_in_normal_mode() {
    let mut app = in_ignored_list(vec![item("/home/u/repo/.env", false)]);
    key(&mut app, Key::Char('a'));
    key(&mut app, Key::Enter);
    let c = app.step(Event::Copied(Err("Failed to copy file".to_string())));
    assert!(is_nothing(&c));
    assert_eq!(app.mode, AppMode::Normal);
    assert_eq!(app.error_message.as_deref(), Some("Failed to copy file"));
    assert!(app.ignored_items.is_empty());
    assert_eq!(app.pending_worktree_path, None);
    assert_eq!(app.awaiting, Awaiting::Idle);
}

#[test]
fn nothing_selected_just_lists_again() {
    let mut app = in_ignored_list(vec![item("/home/u/repo/.env", false)]);
    let c = key(&mut app, Key::Enter);
    assert_eq!(git_args(&c), vec!["worktree", "list", "--porcelain"]);
    assert_eq!(app.ignored_items.len(), 1);
    assert!(is_nothing(&app.step(git_ok(LIST))));
    assert_eq!(app.mode, AppMode::Normal);
    assert!(app.ignored_items.is_empty());
    assert_eq!(app.pending_worktree_path, None);
}

#[test]
fn failed_list_after_nothing_selected_keeps_the_files() {
    let mut app = in_ignored_list(vec![item("/home/u/repo/.env", false)]);
    key(&mut app, Key::Enter);
    match app.step(git_err("fatal: broken")) {
        Command::Fail(m) => assert_eq!(m, "git worktree list failed: fatal: broken"),
        _ => panic!("the program should stop"),
    }
    assert!(!app.running);
    assert_eq!(app.ignored_items.len(), 1);
    assert_eq!(app.pending_worktree_path.as_deref(), Some("/tmp/feat"));
}

#[test]
fn escape_drops_the_ignored_files() {
    let mut app = in_ignored_list(vec![item("/home/u/repo/.env", false)]);
    assert!(is_nothing(&key(&mut app, Key::Esc)));
    assert_eq!(app.mode, AppMode::Normal);
    assert!(app.ignored_items.is_empty());
    assert_eq!(app.pending_worktree_path, None);
}

#[test]
fn select_all_toggles() {
    let mut app = in_ignored_list(vec![item("/a", false), item("/b", false), item("/c", true)]);
    key(&mut app, Key::Char(' '));
    key(&mut app, Key::Char('a'));
    assert!(app.ignored_items.iter().all(|i| i.selected));
    key(&mut app, Key::Char('a'));
    assert!(app.ignored_items.iter().all(|i| !i.selected));
}

#[test]
fn events_out_of_turn_are_ignored() {
    let mut app = started();
    assert!(is_nothing(&app.step(Event::Copied(Ok(())))));
    assert!(is_nothing(&app.step(git_ok(LIST))));
    assert_eq!(app.mode, AppMode::Normal);
}

#[test]
fn keys_that_would_underflow_are_refused() {
    let mut app = started();
    app.worktrees.clear();
    assert!(!app.accepts_key(Key::Down));
    assert!(app.accepts_key(Key::Up));
    app.worktree_selected = None;
    assert!(app.accepts_key(Key::Down));
}

#[test]
fn copy_helper_alone_leaves_the_error_dialog_open() {
    let mut app = in_ignored_list(vec![item("/home/u/repo/.env", false)]);
    key(&mut app, Key::Char('a'));
    let c = app.copy_selected_ignored_files();
    assert!(matches!(c, Command::Copy(_)));
    assert_eq!(app.awaiting, Awaiting::Copy { back_to_normal: false });
    assert!(is_nothing(&app.step(Event::Copied(Err("disk full".to_string())))));
    assert_eq!(app.mode, AppMode::Error);
    assert_eq!(app.error_message.as_deref(), Some("disk full"));
    assert!(app.ignored_items.is_empty());
    assert_eq!(app.pending_worktree_path, None);
}

#[test]
fn copy_helper_alone_keeps_the_mode_after_listing() {
    let mut app = in_ignored_list(vec![item("/home/u/repo/.env", false)]);
    let c = app.copy_selected_ignored_files();
    assert_eq!(git_args(&c), vec!["worktree", "list", "--porcelain"]);
    assert!(is_nothing(&app.step(git_ok(LIST))));
    assert_eq!(app.mode, AppMode::SelectIgnoredFiles);
    assert!(app.ignored_items.is_empty());
    assert_eq!(app.pending_worktree_path, None);
    assert_eq!(app.awaiting, Awaiting::Idle);
}
