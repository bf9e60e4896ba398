use worktree_admin::app::{App, AppMode, Event, InputMode, Key};
use worktree_admin::gitignore::{GitignoreManager, IgnoredItem};
use worktree_admin::path::path_join;
use worktree_admin::text::{chars_of, string_of};
use worktree_admin::worktree::{parse_branches, parse_worktree_list};

fn ready(items: Vec<IgnoredItem>) -> App {
    let (mut app, _) = App::new("/r".to_string());
    app.step(Event::GitDone { success: true, stdout: Ok("worktree /r\n\n".to_string()), stderr: String::new() });
    app.pending_worktree_path = Some("/w".to_string());
    app.ignored_files_loaded(items);
    app
}

fn item(path: &str, selected: bool) -> IgnoredItem {
    IgnoredItem { path: path.to_string(), is_dir: false, selected }
}

fn selections(app: &App) -> Vec<bool> {
    app.ignored_items.iter().map(|i| i.selected).collect()
}

#[test]
fn space_twice_restores_the_list() {
    let mut app = ready(vec![item("/r/a", false), item("/r/b", true)]);
    app.step(Event::Key(Key::Down));
    app.step(Event::Key(Key::Char(' ')));
    assert_eq!(selections(&app), vec![false, false]);
    app.step(Event::Key(Key::Char(' ')));
    assert_eq!(selections(&app), vec![false, true]);
}

#[test]
fn select_all_twice_gives_all_selected_exactly_when_all_were() {
    let mut app = ready(vec![item("/r/a", false), item("/r/b", true)]);
    app.step(Event::Key(Key::Char('a')));
    assert_eq!(selections(&app), vec![true, true]);
    app.step(Event::Key(Key::Char('a')));
    assert_eq!(selections(&app), vec![false, false]);
    let mut app = ready(vec![item("/r/a", true), item("/r/b", true)]);
    app.step(Event::Key(Key::Char('a')));
    app.step(Event::Key(Key::Char('a')));
    assert_eq!(selections(&app), vec![true, true]);
}

#[test]
fn cursor_stays_in_the_list_and_comes_back() {
    let mut app = ready(vec![item("/r/a", false), item("/r/b", false), item("/r/c", false)]);
    for _ in 0..5 {
        app.step(Event::Key(Key::Down));
    }
    assert_eq!(app.ignored_selected, Some(2));
    app.step(Event::Key(Key::Up));
    app.step(Event::Key(Key::Down));
    assert_eq!(app.ignored_selected, Some(2));
    for _ in 0..5 {
        app.step(Event::Key(Key::Up));
    }
    assert_eq!(app.ignored_selected, Some(0));
}

#[test]
fn ignored_list_keeps_its_promises() {
    let app = ready(vec![item("/r/a", false)]);
    assert_eq!(app.mode, AppMode::SelectIgnoredFiles);
    assert!(!app.ignored_items.is_empty());
    assert!(app.ignored_selected.unwrap() < app.ignored_items.len());
    assert!(app.pending_worktree_path.is_some());
}

#[test]
fn typing_then_erasing_restores_the_field() {
    let (mut app, _) = App::new("/r".to_string());
    app.step(Event::GitDone { success: true, stdout: Ok(String::new()), stderr: String::new() });
    app.step(Event::Key(Key::Char('n')));
    app.step(Event::Key(Key::Char('x')));
    app.step(Event::Key(Key::Tab));
    app.step(Event::Key(Key::Char('é')));
    app.step(Event::Key(Key::Backspace));
    assert_eq!(app.path_input, "");
    app.step(Event::Key(Key::Tab));
    app.step(Event::Key(Key::Char(' ')));
    app.step(Event::Key(Key::Backspace));
    assert_eq!(app.branch_input, "x");
    assert_eq!(app.input_mode, InputMode::BranchName);
}

#[test]
fn quitting_and_repository() {
    let (mut app, _) = App::new("/r".to_string());
    app.step(Event::GitDone { success: true, stdout: Ok(String::new()), stderr: String::new() });
    app.step(Event::Key(Key::Char('n')));
    app.step(Event::Key(Key::Char('q')));
    assert!(app.running);
    app.step(Event::Key(Key::Esc));
    app.step(Event::Key(Key::Char('q')));
    assert!(!app.running);
    assert_eq!(app.repo_path, "/r");
}

#[test]
fn joined_path_strips_back() {
    let joined = string_of(&path_join(&chars_of("/home/u/repo"), &chars_of("conf/local.toml")));
    let it = IgnoredItem { path: joined, is_dir: false, selected: true };
    assert_eq!(it.relative_path("/home/u/repo"), "conf/local.toml");
    let m = GitignoreManager::new("/home/u/repo".to_string()).unwrap();
    let steps = m.copy_selected_items(&vec![it], "/tmp/w");
    assert_eq!(steps[0].target, "/tmp/w/conf/local.toml");
}

#[test]
fn patterns_lie_under_the_repository() {
    let m = GitignoreManager::new("/repo".to_string()).unwrap();
    let ps = m.patterns("a\n/b\n#c\n\n*.o\n");
    assert!(ps.len() <= 5);
    assert!(ps.iter().all(|p| p.starts_with("/repo")));
}

#[test]
fn read_worktrees_have_consistent_flags() {
    let ws = parse_worktree_list("worktree /a\nbranch detached\n\nworktree /b\ndetached\n\nworktree /c\nbranch refs/heads/x\n");
    assert_eq!(ws.len(), 3);
    for w in &ws {
        assert!(!w.is_bare && !w.is_prunable);
        assert_eq!(w.is_detached, w.branch == "detached");
    }
    assert!(ws[0].is_detached);
}

#[test]
fn read_branches_are_trimmed_and_local() {
    let bs = parse_branches("*  a \n remotes/x\n\t* b\n");
    assert_eq!(bs, vec!["a", "* b"]);
    for b in &bs {
        assert!(!b.starts_with("remotes/"));
        assert_eq!(b.trim(), b);
    }
}

#[test]
fn branch_list_focus_only_for_an_existing_branch() {
    let (mut app, _) = App::new("/r".to_string());
    app.step(Event::GitDone { success: true, stdout: Ok("worktree /r\n\n".to_string()), stderr: String::new() });
    app.handle_normal_mode(Key::Char('n'));
    // Without "create from existing branch", Tab goes round two fields only.
    for _ in 0..4 {
        app.handle_create_mode(Key::Tab);
        assert_ne!(app.input_mode, InputMode::SelectBranch);
    }
    app.handle_create_mode(Key::Tab);
    assert_eq!(app.input_mode, InputMode::Path);
    let c = app.handle_create_mode(Key::Char(' '));
    assert!(app.create_from_existing);
    assert!(matches!(c, worktree_admin::app::Command::Git(_)));
    app.step(Event::GitDone { success: true, stdout: Ok("* main\n  dev\n".to_string()), stderr: String::new() });
    app.handle_create_mode(Key::Tab);
    assert_eq!(app.input_mode, InputMode::SelectBranch);
    assert!(app.create_from_existing);
}

#[test]
fn the_error_dialog_always_has_a_message() {
    let (mut app, _) = App::new("/r".to_string());
    app.step(Event::GitDone { success: true, stdout: Ok("worktree /r\n\n".to_string()), stderr: String::new() });
    app.step(Event::Key(Key::Char('p')));
    app.step(Event::GitDone { success: false, stdout: Ok(String::new()), stderr: "no".to_string() });
    assert_eq!(app.mode, AppMode::Error);
    assert_eq!(app.error_message.as_deref(), Some("git worktree prune failed: no"));
    app.step(Event::Key(Key::Char('x')));
    assert_eq!(app.mode, AppMode::Normal);
    assert_eq!(app.error_message, None);
}
