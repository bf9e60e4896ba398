use worktree_admin::app::{App, AppMode};
use worktree_admin::ui::{
    branch_label, can_shorten_commit, checkbox, create_dialog_height, error_text, existing_branch_line,
    footer_keybinds, footer_text, header, list_height, short_commit,
};
use worktree_admin::worktree::Worktree;

fn wt(branch: &str, detached: bool) -> Worktree {
    Worktree {
        path: "/r".to_string(),
        branch: branch.to_string(),
        commit: "0123456789".to_string(),
        is_bare: false,
        is_detached: detached,
        is_prunable: false,
    }
}

#[test]
fn footer_lines() {
    assert_eq!(
        footer_text(AppMode::Normal),
        "[↑/↓/j/k] Navigate  [n] New worktree  [d] Delete  [r] Refresh  [p] Prune  [q] Quit"
    );
    assert_eq!(footer_text(AppMode::CreateWorktree), "[Tab] Switch field  [Enter] Next/Confirm  [Esc] Cancel");
    assert_eq!(
        footer_text(AppMode::SelectIgnoredFiles),
        "[↑/↓] Navigate  [Space] Toggle selection  [a] Select all  [Enter] Confirm  [Esc] Cancel"
    );
    assert_eq!(footer_text(AppMode::Error), "");
    assert_eq!(footer_keybinds(AppMode::CreateWorktree).len(), 3);
}

#[test]
fn worktree_labels() {
    assert_eq!(branch_label(&wt("refs/heads/main", false)), "(refs/heads/main)");
    assert_eq!(branch_label(&wt("detached", true)), "(detached HEAD)");
    assert_eq!(short_commit("0123456789"), "01234567");
    assert_eq!(short_commit("abc"), "abc");
    assert!(can_shorten_commit("0123456789"));
    assert!(!can_shorten_commit("0123456é9"));
    assert!(can_shorten_commit("é"));
}

#[test]
fn marks_and_titles() {
    assert_eq!(header(), "Worktree Admin - GitHub Worktree Management TUI");
    assert_eq!(checkbox(true), "[x]");
    assert_eq!(checkbox(false), "[ ]");
    assert_eq!(existing_branch_line(true), "[x] Create from existing branch");
    assert_eq!(existing_branch_line(false), "[ ] Create from existing branch");
}

#[test]
fn dialog_heights() {
    assert_eq!(list_height(false, 5), 0);
    assert_eq!(list_height(true, 0), 0);
    assert_eq!(list_height(true, 1), 4);
    assert_eq!(list_height(true, 5), 7);
    assert_eq!(list_height(true, 30), 12);
    assert_eq!(create_dialog_height(false, 3), 13);
    assert_eq!(create_dialog_height(true, 3), 18);
    // Without the list of branches, any number of branches will do.
    assert_eq!(list_height(false, 65534), 0);
    assert_eq!(create_dialog_height(false, 65535), 13);
    // As a `u16`, 65536 branches count as none, and the list keeps its least height.
    assert_eq!(list_height(true, 65536), 4);
}

#[test]
fn error_dialog_text() {
    let (mut app, _) = App::new("/r".to_string());
    assert_eq!(error_text(&app), "Unknown error");
    app.show_error("boom".to_string());
    assert_eq!(error_text(&app), "boom");
}
