use vstd::prelude::*;
use crate::text::{push_char, pop_char, chars_of, string_of};
use crate::path::{join_paths, parent, path_join, path_parent};
use crate::worktree::{
    Worktree, WorktreeView, WorktreeManager, GitCommand, GitCommandView, worktree_views, string_views,
    list_command, create_command, create_from_branch_command, remove_command, prune_command,
    branches_command, spawn_error_message, status_error_message, parse_porcelain, branch_entries,
    opt_view, check_status, spawn_failure,
};
use crate::gitignore::{
    IgnoredItem, IgnoredItemView, GitignoreManager, CopyStep, CopyStepView, item_views, step_views,
    copy_steps, items_sorted, paths_distinct, gitignore_patterns, glob_accepts, matches_of,
    is_stable_sort, first_occurrences, readable_matches,
};
use crate::text::lines_of;

verus! {

broadcast use vstd::string::group_string_axioms;

/// What the main screen is doing.
#[derive(Debug, Clone, Copy, PartialEq, Eq, Structural)]
pub enum AppMode {
    Normal,
    CreateWorktree,
    SelectIgnoredFiles,
    Error,
}

impl Default for AppMode {
    fn default() -> (m: Self)
        ensures
            m == AppMode::Normal,
    {
        AppMode::Normal
    }
}

/// Which field of the dialog for a new worktree has the focus.
#[derive(Debug, Clone, Copy, PartialEq, Eq, Structural)]
pub enum InputMode {
    BranchName,
    Path,
    SelectBranch,
}

impl Default for InputMode {
    fn default() -> (m: Self)
        ensures
            m == InputMode::BranchName,
    {
        InputMode::BranchName
    }
}

/// A key that the user pressed.
#[derive(Debug, Clone, Copy, PartialEq, Eq, Structural)]
pub enum Key {
    Char(char),
    Esc,
    Tab,
    Enter,
    Backspace,
    Up,
    Down,
    Other,
}

/// The outside work that the application is waiting for.
#[derive(Debug, Clone, Copy, PartialEq, Eq, Structural)]
pub enum Awaiting {
    Idle,
    List,
    Branches,
    Create,
    Remove,
    Prune,
    Gitignore,
    /// The copies of the selected ignored files; `back_to_normal` where Enter
    /// in the list of ignored files asked for them, so that the normal mode
    /// comes back with their outcome.
    Copy { back_to_normal: bool },
    /// The list of worktrees after the copies; the list of ignored files is
    /// dropped once it comes (`back_to_normal` as for `Copy`).
    ListAfterCopy { back_to_normal: bool },
}

/// What happened outside: a key, or the outcome of the work last asked for.
pub enum Event {
    Key(Key),
    /// A git command ran: whether it succeeded, its standard output (or the
    /// error that decoding it as UTF-8 gave), and its standard error.
    GitDone { success: bool, stdout: Result<String, String>, stderr: String },
    /// A git command could not be started.
    GitNotStarted,
    /// `.gitignore` was read: its text, `None` where there is no such file, or
    /// the error that reading it gave.
    GitignoreRead(Result<Option<String>, String>),
    /// The copies were made, or the error that stopped them.
    Copied(Result<(), String>),
}

/// The outside work to do next.
pub enum Command {
    Nothing,
    /// Run this git command and report `Event::GitDone` or `Event::GitNotStarted`.
    Git(GitCommand),
    /// Read the file at this path and report `Event::GitignoreRead`.
    ReadGitignore(String),
    /// Make these copies and report `Event::Copied`.
    Copy(Vec<CopyStep>),
    /// Stop the program with this error.
    Fail(String),
}

/// What a `Command` holds, as plain values.
pub enum CommandView {
    Nothing,
    Git(GitCommandView),
    ReadGitignore(Seq<char>),
    Copy(Seq<CopyStepView>),
    Fail(Seq<char>),
}

impl View for Command {
    type V = CommandView;

    open spec fn view(&self) -> CommandView {
        match self {
            Command::Nothing => CommandView::Nothing,
            Command::Git(g) => CommandView::Git(g@),
            Command::ReadGitignore(p) => CommandView::ReadGitignore(p@),
            Command::Copy(s) => CommandView::Copy(step_views(s@)),
            Command::Fail(m) => CommandView::Fail(m@),
        }
    }
}

/// The state of the application.
pub struct App {
    /// The program goes on while this holds.
    pub running: bool,
    pub mode: AppMode,
    pub input_mode: InputMode,
    /// The repository whose worktrees are managed.
    pub repo_path: String,
    pub worktrees: Vec<Worktree>,
    /// The position of the worktree under the cursor.
    pub worktree_selected: Option<usize>,
    /// The fields of the dialog for a new worktree.
    pub branch_input: String,
    pub path_input: String,
    pub create_from_existing: bool,
    pub available_branches: Vec<String>,
    /// The position of the branch under the cursor.
    pub branch_selected: Option<usize>,
    /// The files that `.gitignore` matches, offered for copying into a new worktree.
    pub ignored_items: Vec<IgnoredItem>,
    /// The position of the file under the cursor.
    pub ignored_selected: Option<usize>,
    pub error_message: Option<String>,
    /// Where the worktree made last lies, until its files are copied.
    pub pending_worktree_path: Option<String>,
    pub awaiting: Awaiting,
}

/// What an `App` holds, as plain values.
#[verifier::ext_equal]
pub struct AppView {
    pub running: bool,
    pub mode: AppMode,
    pub input_mode: InputMode,
    pub repo_path: Seq<char>,
    pub worktrees: Seq<WorktreeView>,
    pub worktree_selected: Option<usize>,
    pub branch_input: Seq<char>,
    pub path_input: Seq<char>,
    pub create_from_existing: bool,
    pub available_branches: Seq<Seq<char>>,
    pub branch_selected: Option<usize>,
    pub ignored_items: Seq<IgnoredItemView>,
    pub ignored_selected: Option<usize>,
    pub error_message: Option<Seq<char>>,
    pub pending_worktree_path: Option<Seq<char>>,
    pub awaiting: Awaiting,
}

/// The view of an optional `String`.
pub open spec fn opt_string(o: Option<String>) -> Option<Seq<char>> {
    match o {
        Some(s) => Some(s@),
        None => None,
    }
}

impl View for App {
    type V = AppView;

    open spec fn view(&self) -> AppView {
        AppView {
            running: self.running,
            mode: self.mode,
            input_mode: self.input_mode,
            repo_path: self.repo_path@,
            worktrees: worktree_views(self.worktrees@),
            worktree_selected: self.worktree_selected,
            branch_input: self.branch_input@,
            path_input: self.path_input@,
            create_from_existing: self.create_from_existing,
            available_branches: string_views(self.available_branches@),
            branch_selected: self.branch_selected,
            ignored_items: item_views(self.ignored_items@),
            ignored_selected: self.ignored_selected,
            error_message: opt_string(self.error_message),
            pending_worktree_path: opt_string(self.pending_worktree_path),
            awaiting: self.awaiting,
        }
    }
}

// ---------------------------------------------------------------------------
// The rules, as functions from state (and key or outcome) to the next state
// and the outside work to do.
// ---------------------------------------------------------------------------

/// The selection one place up, where there is a place above.
pub open spec fn selection_up(sel: Option<usize>) -> Option<usize> {
    match sel {
        Some(i) => if i > 0 {
            Some((i - 1) as usize)
        } else {
            sel
        },
        None => None,
    }
}

/// The selection one place down in a list of `len` entries, where there is a
/// place below.
pub open spec fn selection_down(sel: Option<usize>, len: nat) -> Option<usize> {
    match sel {
        Some(i) => if i < len - 1 {
            Some((i + 1) as usize)
        } else {
            sel
        },
        None => None,
    }
}

/// The state in which the program starts, waiting for the first list of worktrees.
pub open spec fn initial_state(repo: Seq<char>) -> AppView {
    AppView {
        running: true,
        mode: AppMode::Normal,
        input_mode: InputMode::BranchName,
        repo_path: repo,
        worktrees: Seq::empty(),
        worktree_selected: None,
        branch_input: Seq::empty(),
        path_input: Seq::empty(),
        create_from_existing: false,
        available_branches: Seq::empty(),
        branch_selected: None,
        ignored_items: Seq::empty(),
        ignored_selected: None,
        error_message: None,
        pending_worktree_path: None,
        awaiting: Awaiting::List,
    }
}

/// The dialog for a new worktree emptied.
pub open spec fn cleared_inputs(s: AppView) -> AppView {
    AppView {
        branch_input: Seq::empty(),
        path_input: Seq::empty(),
        create_from_existing: false,
        available_branches: Seq::empty(),
        branch_selected: None,
        ..s
    }
}

/// An error shown to the user.
pub open spec fn with_error(s: AppView, m: Seq<char>) -> AppView {
    AppView { error_message: Some(m), mode: AppMode::Error, ..s }
}

/// Asking for the list of worktrees again.
pub open spec fn ask_list(s: AppView) -> (AppView, CommandView) {
    (AppView { awaiting: Awaiting::List, ..s }, CommandView::Git(list_command(s.repo_path)))
}

/// The path that the path field gives: `None` for an empty field.
pub open spec fn path_field(p: Seq<char>) -> Option<Seq<char>> {
    if p.len() == 0 {
        None
    } else {
        Some(p)
    }
}

/// The command that creates a worktree from the dialog's fields.
pub open spec fn creation_command(s: AppView) -> GitCommandView {
    if s.create_from_existing {
        create_from_branch_command(s.repo_path, s.branch_input, path_field(s.path_input))
    } else {
        create_command(s.repo_path, s.branch_input, path_field(s.path_input))
    }
}

/// A key in the normal mode.
pub open spec fn normal_key(s: AppView, k: Key) -> (AppView, CommandView) {
    match k {
        Key::Char('q') | Key::Esc => (AppView { running: false, ..s }, CommandView::Nothing),
        Key::Char('n') => (
            AppView { mode: AppMode::CreateWorktree, input_mode: InputMode::BranchName, ..s },
            CommandView::Nothing,
        ),
        Key::Char('d') => match s.worktree_selected {
            Some(i) => if i < s.worktrees.len() {
                (
                    AppView { awaiting: Awaiting::Remove, ..s },
                    CommandView::Git(remove_command(s.repo_path, s.worktrees[i as int].path)),
                )
            } else {
                (s, CommandView::Nothing)
            },
            None => (s, CommandView::Nothing),
        },
        Key::Char('r') => ask_list(s),
        Key::Char('p') => (AppView { awaiting: Awaiting::Prune, ..s }, CommandView::Git(prune_command(s.repo_path))),
        Key::Up | Key::Char('k') => (
            AppView { worktree_selected: selection_up(s.worktree_selected), ..s },
            CommandView::Nothing,
        ),
        Key::Down | Key::Char('j') => (
            AppView { worktree_selected: selection_down(s.worktree_selected, s.worktrees.len()), ..s },
            CommandView::Nothing,
        ),
        _ => (s, CommandView::Nothing),
    }
}

/// The field that Tab moves the focus to.
pub open spec fn next_input(s: AppView) -> InputMode {
    match s.input_mode {
        InputMode::BranchName => InputMode::Path,
        InputMode::Path => if s.create_from_existing {
            InputMode::SelectBranch
        } else {
            InputMode::BranchName
        },
        InputMode::SelectBranch => InputMode::BranchName,
    }
}

/// A key in the dialog for a new worktree.
pub open spec fn create_key(s: AppView, k: Key) -> (AppView, CommandView) {
    match k {
        Key::Esc => (cleared_inputs(AppView { mode: AppMode::Normal, ..s }), CommandView::Nothing),
        Key::Tab => (AppView { input_mode: next_input(s), ..s }, CommandView::Nothing),
        Key::Enter => if s.input_mode == InputMode::SelectBranch {
            match s.branch_selected {
                Some(i) => (
                    AppView {
                        branch_input: s.available_branches[i as int],
                        input_mode: InputMode::BranchName,
                        ..s
                    },
                    CommandView::Nothing,
                ),
                None => (s, CommandView::Nothing),
            }
        } else if s.branch_input.len() > 0 {
            (AppView { awaiting: Awaiting::Create, ..s }, CommandView::Git(creation_command(s)))
        } else {
            (s, CommandView::Nothing)
        },
        Key::Char(' ') if s.input_mode == InputMode::Path => {
            let t = AppView { create_from_existing: !s.create_from_existing, ..s };
            if t.create_from_existing {
                (AppView { awaiting: Awaiting::Branches, ..t }, CommandView::Git(branches_command(s.repo_path)))
            } else {
                (t, CommandView::Nothing)
            }
        },
        Key::Up if s.input_mode == InputMode::SelectBranch => (
            AppView { branch_selected: selection_up(s.branch_selected), ..s },
            CommandView::Nothing,
        ),
        Key::Down if s.input_mode == InputMode::SelectBranch => (
            AppView { branch_selected: selection_down(s.branch_selected, s.available_branches.len()), ..s },
            CommandView::Nothing,
        ),
        Key::Backspace => match s.input_mode {
            InputMode::BranchName => (
                AppView {
                    branch_input: if s.branch_input.len() > 0 {
                        s.branch_input.drop_last()
                    } else {
                        s.branch_input
                    },
                    ..s
                },
                CommandView::Nothing,
            ),
            InputMode::Path => (
                AppView {
                    path_input: if s.path_input.len() > 0 {
                        s.path_input.drop_last()
                    } else {
                        s.path_input
                    },
                    ..s
                },
                CommandView::Nothing,
            ),
            InputMode::SelectBranch => (s, CommandView::Nothing),
        },
        Key::Char(c) => match s.input_mode {
            InputMode::BranchName => (AppView { branch_input: s.branch_input.push(c), ..s }, CommandView::Nothing),
            InputMode::Path => (AppView { path_input: s.path_input.push(c), ..s }, CommandView::Nothing),
            InputMode::SelectBranch => (s, CommandView::Nothing),
        },
        _ => (s, CommandView::Nothing),
    }
}

/// Whether every item is selected.
pub open spec fn all_selected(items: Seq<IgnoredItemView>) -> bool {
    forall|i: int| 0 <= i < items.len() ==> (#[trigger] items[i]).selected
}

/// Every item's selection set to `v`.
pub open spec fn with_selection(items: Seq<IgnoredItemView>, v: bool) -> Seq<IgnoredItemView> {
    items.map_values(|it: IgnoredItemView| IgnoredItemView { selected: v, ..it })
}

/// The item under the cursor, if any, with its selection flipped.
pub open spec fn toggled_current(items: Seq<IgnoredItemView>, sel: Option<usize>) -> Seq<IgnoredItemView> {
    match sel {
        Some(i) => if i < items.len() {
            items.update(i as int, IgnoredItemView { selected: !items[i as int].selected, ..items[i as int] })
        } else {
            items
        },
        None => items,
    }
}

/// Whether some item is selected.
pub open spec fn any_selected(items: Seq<IgnoredItemView>) -> bool {
    exists|i: int| 0 <= i < items.len() && (#[trigger] items[i]).selected
}

/// The list of ignored files and the new worktree's path dropped.
pub open spec fn ignored_dropped(s: AppView) -> AppView {
    AppView { ignored_items: Seq::empty(), pending_worktree_path: None, ..s }
}

/// The list of ignored files dropped once the copying is over, and the normal
/// mode back where Enter asked for it (`back_to_normal`).
pub open spec fn ignored_done(s: AppView, back_to_normal: bool) -> AppView {
    if back_to_normal {
        AppView { mode: AppMode::Normal, ..ignored_dropped(s) }
    } else {
        ignored_dropped(s)
    }
}

/// What `App::copy_selected_ignored_files` does. With a new worktree to copy
/// into: copy the selected files into it, or, with none selected, list the
/// worktrees again; the list of ignored files and the new worktree's path
/// stay until that work has come out well. Without one: drop them at once.
pub open spec fn copy_selected(s: AppView) -> (AppView, CommandView) {
    match s.pending_worktree_path {
        Some(target) => if any_selected(s.ignored_items) {
            (
                AppView { awaiting: Awaiting::Copy { back_to_normal: false }, ..s },
                CommandView::Copy(copy_steps(s.repo_path, s.ignored_items, target)),
            )
        } else {
            (
                AppView { awaiting: Awaiting::ListAfterCopy { back_to_normal: false }, ..s },
                CommandView::Git(list_command(s.repo_path)),
            )
        },
        None => (ignored_dropped(s), CommandView::Nothing),
    }
}

/// Enter in the list of ignored files: `copy_selected`, and then the normal
/// mode: at once where no outside work is left to wait for, else with the
/// outcome of that work.
pub open spec fn confirm_ignored(s: AppView) -> (AppView, CommandView) {
    let (t, c) = copy_selected(s);
    match t.awaiting {
        Awaiting::Copy { .. } => (AppView { awaiting: Awaiting::Copy { back_to_normal: true }, ..t }, c),
        Awaiting::ListAfterCopy { .. } => (
            AppView { awaiting: Awaiting::ListAfterCopy { back_to_normal: true }, ..t },
            c,
        ),
        Awaiting::Idle => (AppView { mode: AppMode::Normal, ..t }, c),
        _ => (t, c),
    }
}

/// A key in the list of ignored files.
pub open spec fn ignored_key(s: AppView, k: Key) -> (AppView, CommandView) {
    match k {
        Key::Esc => (
            AppView {
                mode: AppMode::Normal,
                ignored_items: Seq::empty(),
                pending_worktree_path: None,
                ..s
            },
            CommandView::Nothing,
        ),
        Key::Enter => confirm_ignored(s),
        Key::Char(' ') => (
            AppView { ignored_items: toggled_current(s.ignored_items, s.ignored_selected), ..s },
            CommandView::Nothing,
        ),
        Key::Char('a') => (
            AppView { ignored_items: with_selection(s.ignored_items, !all_selected(s.ignored_items)), ..s },
            CommandView::Nothing,
        ),
        Key::Up => (AppView { ignored_selected: selection_up(s.ignored_selected), ..s }, CommandView::Nothing),
        Key::Down => (
            AppView { ignored_selected: selection_down(s.ignored_selected, s.ignored_items.len()), ..s },
            CommandView::Nothing,
        ),
        _ => (s, CommandView::Nothing),
    }
}

/// A key in whatever mode the application is in.
pub open spec fn on_key(s: AppView, k: Key) -> (AppView, CommandView) {
    match s.mode {
        AppMode::Normal => normal_key(s, k),
        AppMode::CreateWorktree => create_key(s, k),
        AppMode::SelectIgnoredFiles => ignored_key(s, k),
        AppMode::Error => (AppView { mode: AppMode::Normal, error_message: None, ..s }, CommandView::Nothing),
    }
}

/// The keys that can be taken: not moving down in an empty list that has a
/// selection (the position below would underflow), nor taking a selected
/// branch that the list does not hold (the index would be out of bounds).
pub open spec fn key_is_safe(s: AppView, k: Key) -> bool {
    match s.mode {
        AppMode::Normal => (k == Key::Down || k == Key::Char('j')) ==> (s.worktree_selected is Some
            ==> s.worktrees.len() >= 1),
        AppMode::CreateWorktree => s.input_mode == InputMode::SelectBranch ==> {
            &&& k == Key::Down ==> (s.branch_selected is Some ==> s.available_branches.len() >= 1)
            &&& k == Key::Enter ==> (s.branch_selected matches Some(i) ==> i < s.available_branches.len())
        },
        AppMode::SelectIgnoredFiles => k == Key::Down ==> (s.ignored_selected is Some
            ==> s.ignored_items.len() >= 1),
        AppMode::Error => true,
    }
}

/// The list of worktrees replaced; the selection kept, set to the first
/// worktree where there was none, or cleared for an empty list.
pub open spec fn refreshed(s: AppView, ws: Seq<WorktreeView>) -> AppView {
    AppView {
        worktrees: ws,
        worktree_selected: if ws.len() == 0 {
            None
        } else if s.worktree_selected is None {
            Some(0)
        } else {
            s.worktree_selected
        },
        ..s
    }
}

/// The branches to choose from replaced; the first one selected if there is one.
pub open spec fn branches_loaded(s: AppView, bs: Seq<Seq<char>>) -> AppView {
    AppView {
        available_branches: bs,
        branch_selected: if bs.len() > 0 {
            Some(0)
        } else {
            s.branch_selected
        },
        ..s
    }
}

/// Where the new worktree was made: the path field, or else the branch's name
/// next to the repository (under its parent directory, or under the
/// repository itself where it has none).
pub open spec fn new_worktree_path(s: AppView) -> Seq<char> {
    if s.path_input.len() > 0 {
        s.path_input
    } else {
        let base = match parent(s.repo_path) {
            Some(p) => p,
            None => s.repo_path,
        };
        join_paths(base, s.branch_input)
    }
}

/// The path of `.gitignore` in the repository.
pub open spec fn gitignore_path(repo: Seq<char>) -> Seq<char> {
    join_paths(repo, ".gitignore"@)
}

/// The ignored files found after a worktree was made: with some, the user
/// chooses among them (the first under the cursor); with none, the worktrees
/// are listed again. Either way the dialog is emptied, and `.gitignore` is no
/// longer awaited.
pub open spec fn ignored_loaded(s: AppView, items: Seq<IgnoredItemView>) -> (AppView, CommandView) {
    let t = AppView { ignored_items: items, awaiting: Awaiting::Idle, ..s };
    if items.len() > 0 {
        (
            cleared_inputs(AppView { mode: AppMode::SelectIgnoredFiles, ignored_selected: Some(0), ..t }),
            CommandView::Nothing,
        )
    } else {
        ask_list(cleared_inputs(AppView { mode: AppMode::Normal, ..t }))
    }
}

/// No outside work pending any more.
pub open spec fn idle(s: AppView) -> AppView {
    AppView { awaiting: Awaiting::Idle, ..s }
}

/// The program stops with the error `m`.
pub open spec fn failed(s: AppView, m: Seq<char>) -> (AppView, CommandView) {
    (AppView { running: false, ..idle(s) }, CommandView::Fail(m))
}

/// The outcome of a git command whose failure stops the program, and whose
/// output `read` turns into the next state.
pub open spec fn on_git_fatal(s: AppView, e: Event, label: Seq<char>, read: spec_fn(Seq<char>) -> AppView) -> (AppView, CommandView) {
    match e {
        Event::GitDone { success, stdout, stderr } => if !success {
            failed(s, status_error_message(label, stderr@))
        } else {
            match stdout {
                Ok(t) => (read(t@), CommandView::Nothing),
                Err(m) => failed(s, m@),
            }
        },
        Event::GitNotStarted => failed(s, spawn_error_message(label)),
        _ => (s, CommandView::Nothing),
    }
}

/// The outcome of a git command whose failure is shown to the user; on
/// success the state and work are `ok`.
pub open spec fn on_git_shown(s: AppView, e: Event, label: Seq<char>, ok: (AppView, CommandView)) -> (AppView, CommandView) {
    match e {
        Event::GitDone { success, stdout, stderr } => if success {
            ok
        } else {
            (with_error(idle(s), status_error_message(label, stderr@)), CommandView::Nothing)
        },
        Event::GitNotStarted => (with_error(idle(s), spawn_error_message(label)), CommandView::Nothing),
        _ => (s, CommandView::Nothing),
    }
}

/// The worktree was made: find the ignored files to offer for copying.
pub open spec fn created(s: AppView) -> (AppView, CommandView) {
    (
        AppView {
            pending_worktree_path: Some(new_worktree_path(s)),
            awaiting: Awaiting::Gitignore,
            ..s
        },
        CommandView::ReadGitignore(gitignore_path(s.repo_path)),
    )
}

/// What the file system gave for the patterns of `.gitignore` (whose text is
/// `text`, in the repository at `repo`) is fit to be the list of ignored
/// files: sorted, each path once, nothing selected, and nothing where there
/// is no `.gitignore` or `glob` accepts none of its patterns; and it is the
/// stable sort of the first occurrences of the readable paths that `glob`
/// can have given for the patterns, pattern by pattern (see
/// `GitignoreManager::get_ignored_files`).
pub open spec fn found_ok(found: Seq<IgnoredItemView>, repo: Seq<char>, text: Option<String>) -> bool {
    &&& items_sorted(found)
    &&& paths_distinct(found)
    &&& forall|i: int| 0 <= i < found.len() ==> !(#[trigger] found[i]).selected
    &&& text is None ==> found.len() == 0
    &&& match text {
        Some(t) => (forall|j: int| 0 <= j < gitignore_patterns(repo, lines_of(t@)).len()
            ==> !glob_accepts(#[trigger] gitignore_patterns(repo, lines_of(t@))[j])) ==> found.len() == 0,
        None => true,
    }
    &&& match text {
        Some(t) => exists|ms: Seq<Option<Seq<Option<(Seq<char>, bool)>>>>|
            #[trigger] matches_of(ms, gitignore_patterns(repo, lines_of(t@)))
            && is_stable_sort(first_occurrences(readable_matches(ms)), found),
        None => true,
    }
}

/// The next state and work after the event `e`, where `found` stands for the
/// files that `.gitignore`'s patterns match (used only when its text comes).
pub open spec fn transition(s: AppView, e: Event, found: Seq<IgnoredItemView>) -> (AppView, CommandView) {
    match s.awaiting {
        Awaiting::Idle => match e {
            Event::Key(k) => on_key(s, k),
            _ => (s, CommandView::Nothing),
        },
        Awaiting::List => on_git_fatal(
            s,
            e,
            "git worktree list"@,
            |t: Seq<char>| refreshed(idle(s), parse_porcelain(t)),
        ),
        Awaiting::Branches => on_git_fatal(
            s,
            e,
            "git branch"@,
            |t: Seq<char>| branches_loaded(idle(s), branch_entries(lines_of(t))),
        ),
        Awaiting::Create => on_git_shown(s, e, "git worktree add"@, created(s)),
        Awaiting::Remove => on_git_shown(s, e, "git worktree remove"@, ask_list(s)),
        Awaiting::Prune => on_git_shown(s, e, "git worktree prune"@, ask_list(s)),
        Awaiting::Gitignore => match e {
            Event::GitignoreRead(Ok(_)) => ignored_loaded(s, found),
            Event::GitignoreRead(Err(m)) => failed(s, m@),
            _ => (s, CommandView::Nothing),
        },
        Awaiting::Copy { back_to_normal } => match e {
            Event::Copied(Ok(())) => (
                AppView { awaiting: Awaiting::ListAfterCopy { back_to_normal }, ..s },
                CommandView::Git(list_command(s.repo_path)),
            ),
            Event::Copied(Err(m)) => (ignored_done(with_error(idle(s), m@), back_to_normal), CommandView::Nothing),
            _ => (s, CommandView::Nothing),
        },
        Awaiting::ListAfterCopy { back_to_normal } => on_git_fatal(
            s,
            e,
            "git worktree list"@,
            |t: Seq<char>| ignored_done(refreshed(idle(s), parse_porcelain(t)), back_to_normal),
        ),
    }
}

/// The event carries `.gitignore`'s text, as awaited.
pub open spec fn brings_gitignore(s: AppView, e: Event) -> bool {
    s.awaiting == Awaiting::Gitignore && e matches Event::GitignoreRead(Ok(_))
}

/// The event is a key that can be taken (see `key_is_safe`), or no key.
pub open spec fn event_is_safe(s: AppView, e: Event) -> bool {
    match e {
        Event::Key(k) => s.awaiting == Awaiting::Idle ==> key_is_safe(s, k),
        _ => true,
    }
}

// ---------------------------------------------------------------------------
// The application
// ---------------------------------------------------------------------------

fn up(sel: Option<usize>) -> (r: Option<usize>)
    ensures
        r == selection_up(sel),
{
    match sel {
        Some(i) => if i > 0 {
            Some(i - 1)
        } else {
            sel
        },
        None => None,
    }
}

fn down(sel: Option<usize>, len: usize) -> (r: Option<usize>)
    requires
        sel is Some ==> len >= 1,
    ensures
        r == selection_down(sel, len as nat),
{
    match sel {
        Some(i) => if i < len - 1 {
            Some(i + 1)
        } else {
            sel
        },
        None => None,
    }
}

impl App {
    /// The application for the repository at `repo_path`, and the first
    /// command: list the worktrees.
    pub fn new(repo_path: String) -> (r: (App, Command))
        ensures
            r.0@ == initial_state(repo_path@),
            r.1@ == CommandView::Git(list_command(repo_path@)),
    {
        let cmd = WorktreeManager::new(repo_path.clone()).list();
        let app = App {
            running: true,
            mode: AppMode::Normal,
            input_mode: InputMode::BranchName,
            repo_path,
            worktrees: Vec::new(),
            worktree_selected: None,
            branch_input: String::new(),
            path_input: String::new(),
            create_from_existing: false,
            available_branches: Vec::new(),
            branch_selected: None,
            ignored_items: Vec::new(),
            ignored_selected: None,
            error_message: None,
            pending_worktree_path: None,
            awaiting: Awaiting::List,
        };
        assert(app@ =~= initial_state(app.repo_path@));
        (app, Command::Git(cmd))
    }

    fn worktree_manager(&self) -> (m: WorktreeManager)
        ensures
            m.repo_path@ == self.repo_path@,
    {
        WorktreeManager::new(self.repo_path.clone())
    }

    /// Stop the program.
    pub fn quit(&mut self)
        ensures
            final(self)@ == (AppView { running: false, ..old(self)@ }),
    {
        self.running = false;
    }

    /// Show `message` to the user in the error dialog.
    pub fn show_error(&mut self, message: String)
        ensures
            final(self)@ == with_error(old(self)@, message@),
    {
        self.error_message = Some(message);
        self.mode = AppMode::Error;
    }

    /// Empty the dialog for a new worktree.
    pub fn clear_create_inputs(&mut self)
        ensures
            final(self)@ == cleared_inputs(old(self)@),
    {
        self.branch_input = String::new();
        self.path_input = String::new();
        self.create_from_existing = false;
        self.available_branches = Vec::new();
        self.branch_selected = None;
        assert(string_views(self.available_branches@) =~= Seq::<Seq<char>>::empty());
    }

    /// Open the dialog for a new worktree, with the focus on the branch name.
    pub fn start_create_worktree(&mut self)
        ensures
            final(self)@ == (AppView { mode: AppMode::CreateWorktree, input_mode: InputMode::BranchName, ..old(self)@ }),
    {
        self.mode = AppMode::CreateWorktree;
        self.input_mode = InputMode::BranchName;
    }

    /// Move the cursor in the list of worktrees one place up.
    pub fn move_selection_up(&mut self)
        ensures
            final(self)@ == (AppView { worktree_selected: selection_up(old(self)@.worktree_selected), ..old(self)@ }),
    {
        self.worktree_selected = up(self.worktree_selected);
    }

    /// Move the cursor in the list of worktrees one place down.
    pub fn move_selection_down(&mut self)
        requires
            old(self).worktree_selected is Some ==> old(self).worktrees@.len() >= 1,
        ensures
            final(self)@ == (AppView {
                worktree_selected: selection_down(old(self)@.worktree_selected, old(self)@.worktrees.len()),
                ..old(self)@
            }),
    {
        self.worktree_selected = down(self.worktree_selected, self.worktrees.len());
    }

    /// Move the cursor in the list of branches one place up.
    pub fn move_branch_selection_up(&mut self)
        ensures
            final(self)@ == (AppView { branch_selected: selection_up(old(self)@.branch_selected), ..old(self)@ }),
    {
        self.branch_selected = up(self.branch_selected);
    }

    /// Move the cursor in the list of branches one place down.
    pub fn move_branch_selection_down(&mut self)
        requires
            old(self).branch_selected is Some ==> old(self).available_branches@.len() >= 1,
        ensures
            final(self)@ == (AppView {
                branch_selected: selection_down(old(self)@.branch_selected, old(self)@.available_branches.len()),
                ..old(self)@
            }),
    {
        self.branch_selected = down(self.branch_selected, self.available_branches.len());
    }

    /// Move the cursor in the list of ignored files one place up.
    pub fn move_ignored_selection_up(&mut self)
        ensures
            final(self)@ == (AppView { ignored_selected: selection_up(old(self)@.ignored_selected), ..old(self)@ }),
    {
        self.ignored_selected = up(self.ignored_selected);
    }

    /// Move the cursor in the list of ignored files one place down.
    pub fn move_ignored_selection_down(&mut self)
        requires
            old(self).ignored_selected is Some ==> old(self).ignored_items@.len() >= 1,
        ensures
            final(self)@ == (AppView {
                ignored_selected: selection_down(old(self)@.ignored_selected, old(self)@.ignored_items.len()),
                ..old(self)@
            }),
    {
        self.ignored_selected = down(self.ignored_selected, self.ignored_items.len());
    }

    /// Flip the selection of the ignored file under the cursor.
    pub fn toggle_ignored_file_selection(&mut self)
        ensures
            final(self)@ == (AppView {
                ignored_items: toggled_current(old(self)@.ignored_items, old(self)@.ignored_selected),
                ..old(self)@
            }),
    {
        if let Some(i) = self.ignored_selected {
            if i < self.ignored_items.len() {
                let ghost before = self.ignored_items@;
                let old_item = &self.ignored_items[i];
                let item = IgnoredItem {
                    path: old_item.path.clone(),
                    is_dir: old_item.is_dir,
                    selected: !old_item.selected,
                };
                self.ignored_items[i] = item;
                assert(item_views(self.ignored_items@) =~= toggled_current(item_views(before), Some(i)));
            }
        }
    }

    /// Select every ignored file, or none where all are selected.
    pub fn toggle_all_ignored_files(&mut self)
        ensures
            final(self)@ == (AppView {
                ignored_items: with_selection(old(self)@.ignored_items, !all_selected(old(self)@.ignored_items)),
                ..old(self)@
            }),
    {
        let ghost v = item_views(self.ignored_items@);
        let mut all = true;
        let mut i: usize = 0;
        while i < self.ignored_items.len()
            invariant
                i <= self.ignored_items@.len(),
                v == item_views(self.ignored_items@),
                all == (forall|j: int| 0 <= j < i ==> (#[trigger] v[j]).selected),
            decreases self.ignored_items@.len() - i,
        {
            assert(v[i as int].selected == self.ignored_items@[i as int].selected);
            if !self.ignored_items[i].selected {
                all = false;
            }
            i = i + 1;
        }
        let flag = !all;
        let mut items: Vec<IgnoredItem> = Vec::new();
        let mut k: usize = 0;
        while k < self.ignored_items.len()
            invariant
                k <= self.ignored_items@.len(),
                v == item_views(self.ignored_items@),
                item_views(items@) == with_selection(v, flag).take(k as int),
            decreases self.ignored_items@.len() - k,
        {
            let it = &self.ignored_items[k];
            let ghost before = items@;
            let n = IgnoredItem { path: it.path.clone(), is_dir: it.is_dir, selected: flag };
            items.push(n);
            assert(n@ == with_selection(v, flag)[k as int]);
            assert(item_views(items@) =~= item_views(before).push(n@));
            assert(item_views(items@) =~= with_selection(v, flag).take(k + 1));
            k = k + 1;
        }
        assert(with_selection(v, flag).take(v.len() as int) =~= with_selection(v, flag));
        self.ignored_items = items;
    }
}

impl App {
    /// Ask for the list of worktrees again.
    pub fn refresh_worktrees(&mut self) -> (c: Command)
        ensures
            (final(self)@, c@) == ask_list(old(self)@),
    {
        self.awaiting = Awaiting::List;
        Command::Git(self.worktree_manager().list())
    }

    /// Ask to remove the selected worktree, if a worktree is selected.
    pub fn delete_selected_worktree(&mut self) -> (c: Command)
        ensures
            (final(self)@, c@) == normal_key(old(self)@, Key::Char('d')),
    {
        if let Some(selected) = self.worktree_selected {
            if selected < self.worktrees.len() {
                let cmd = self.worktree_manager().remove(self.worktrees[selected].path.as_str());
                self.awaiting = Awaiting::Remove;
                return Command::Git(cmd);
            }
        }
        Command::Nothing
    }

    /// Ask to prune the worktrees.
    pub fn prune_worktrees(&mut self) -> (c: Command)
        ensures
            (final(self)@, c@) == normal_key(old(self)@, Key::Char('p')),
    {
        self.awaiting = Awaiting::Prune;
        Command::Git(self.worktree_manager().prune())
    }

    /// A key in the normal mode (see `normal_key`).
    pub fn handle_normal_mode(&mut self, key: Key) -> (c: Command)
        requires
            key_is_safe(old(self)@, key),
            old(self).mode == AppMode::Normal,
        ensures
            (final(self)@, c@) == normal_key(old(self)@, key),
    {
        match key {
            Key::Char('q') | Key::Esc => {
                self.quit();
                Command::Nothing
            },
            Key::Char('n') => {
                self.start_create_worktree();
                Command::Nothing
            },
            Key::Char('d') => self.delete_selected_worktree(),
            Key::Char('r') => self.refresh_worktrees(),
            Key::Char('p') => self.prune_worktrees(),
            Key::Up | Key::Char('k') => {
                self.move_selection_up();
                Command::Nothing
            },
            Key::Down | Key::Char('j') => {
                self.move_selection_down();
                Command::Nothing
            },
            _ => Command::Nothing,
        }
    }

    /// Ask to make the worktree that the dialog describes.
    pub fn create_worktree(&mut self) -> (c: Command)
        ensures
            final(self)@ == (AppView { awaiting: Awaiting::Create, ..old(self)@ }),
            c@ == CommandView::Git(creation_command(old(self)@)),
    {
        let m = self.worktree_manager();
        let path: Option<&str> = if self.path_input.as_str().is_empty() {
            None
        } else {
            Some(self.path_input.as_str())
        };
        assert(opt_view(path) == path_field(self.path_input@));
        let cmd = if self.create_from_existing {
            m.create_from_branch(self.branch_input.as_str(), path)
        } else {
            m.create(self.branch_input.as_str(), path)
        };
        self.awaiting = Awaiting::Create;
        Command::Git(cmd)
    }

    /// Ask for the branches to choose from.
    pub fn load_available_branches(&mut self) -> (c: Command)
        ensures
            final(self)@ == (AppView { awaiting: Awaiting::Branches, ..old(self)@ }),
            c@ == CommandView::Git(branches_command(old(self)@.repo_path)),
    {
        self.awaiting = Awaiting::Branches;
        Command::Git(self.worktree_manager().get_branches())
    }

    /// A key in the dialog for a new worktree (see `create_key`).
    pub fn handle_create_mode(&mut self, key: Key) -> (c: Command)
        requires
            key_is_safe(old(self)@, key),
            old(self).mode == AppMode::CreateWorktree,
        ensures
            (final(self)@, c@) == create_key(old(self)@, key),
    {
        match key {
            Key::Esc => {
                self.mode = AppMode::Normal;
                self.clear_create_inputs();
                Command::Nothing
            },
            Key::Tab => {
                self.input_mode = match self.input_mode {
                    InputMode::BranchName => InputMode::Path,
                    InputMode::Path => if self.create_from_existing {
                        InputMode::SelectBranch
                    } else {
                        InputMode::BranchName
                    },
                    InputMode::SelectBranch => InputMode::BranchName,
                };
                Command::Nothing
            },
            Key::Enter => {
                if self.input_mode == InputMode::SelectBranch {
                    if let Some(selected) = self.branch_selected {
                        self.branch_input = self.available_branches[selected].clone();
                        self.input_mode = InputMode::BranchName;
                    }
                    Command::Nothing
                } else if !self.branch_input.as_str().is_empty() {
                    self.create_worktree()
                } else {
                    Command::Nothing
                }
            },
            Key::Char(' ') if self.input_mode == InputMode::Path => {
                self.create_from_existing = !self.create_from_existing;
                if self.create_from_existing {
                    self.load_available_branches()
                } else {
                    Command::Nothing
                }
            },
            Key::Up if self.input_mode == InputMode::SelectBranch => {
                self.move_branch_selection_up();
                Command::Nothing
            },
            Key::Down if self.input_mode == InputMode::SelectBranch => {
                self.move_branch_selection_down();
                Command::Nothing
            },
            Key::Backspace => {
                match self.input_mode {
                    InputMode::BranchName => {
                        pop_char(&mut self.branch_input);
                    },
                    InputMode::Path => {
                        pop_char(&mut self.path_input);
                    },
                    InputMode::SelectBranch => {},
                }
                Command::Nothing
            },
            Key::Char(c) => {
                match self.input_mode {
                    InputMode::BranchName => push_char(&mut self.branch_input, c),
                    InputMode::Path => push_char(&mut self.path_input, c),
                    InputMode::SelectBranch => {},
                }
                Command::Nothing
            },
            _ => Command::Nothing,
        }
    }

    /// Copy the selected ignored files into the new worktree, or list the
    /// worktrees again (see `copy_selected`).
    pub fn copy_selected_ignored_files(&mut self) -> (c: Command)
        ensures
            (final(self)@, c@) == copy_selected(old(self)@),
    {
        let ghost s = self@;
        let mut any = false;
        let mut i: usize = 0;
        while i < self.ignored_items.len()
            invariant
                i <= self.ignored_items@.len(),
                s == self@,
                any == (exists|j: int| 0 <= j < i && (#[trigger] s.ignored_items[j]).selected),
            decreases self.ignored_items@.len() - i,
        {
            assert(s.ignored_items[i as int].selected == self.ignored_items@[i as int].selected);
            if self.ignored_items[i].selected {
                any = true;
            }
            i = i + 1;
        }
        match &self.pending_worktree_path {
            Some(target) => {
                if any {
                    let m = GitignoreManager::new(self.repo_path.clone());
                    match m {
                        Ok(m) => {
                            let steps = m.copy_selected_items(&self.ignored_items, target.as_str());
                            self.awaiting = Awaiting::Copy { back_to_normal: false };
                            Command::Copy(steps)
                        },
                        Err(_) => Command::Nothing,
                    }
                } else {
                    self.awaiting = Awaiting::ListAfterCopy { back_to_normal: false };
                    Command::Git(self.worktree_manager().list())
                }
            },
            None => {
                self.ignored_items = Vec::new();
                self.pending_worktree_path = None;
                assert(item_views(self.ignored_items@) =~= Seq::<IgnoredItemView>::empty());
                Command::Nothing
            },
        }
    }

    /// A key in the list of ignored files (see `ignored_key`).
    pub fn handle_select_ignored_mode(&mut self, key: Key) -> (c: Command)
        requires
            key_is_safe(old(self)@, key),
            old(self).mode == AppMode::SelectIgnoredFiles,
        ensures
            (final(self)@, c@) == ignored_key(old(self)@, key),
    {
        match key {
            Key::Esc => {
                self.mode = AppMode::Normal;
                self.ignored_items = Vec::new();
                self.pending_worktree_path = None;
                assert(item_views(self.ignored_items@) =~= Seq::<IgnoredItemView>::empty());
                Command::Nothing
            },
            Key::Enter => {
                let c = self.copy_selected_ignored_files();
                match self.awaiting {
                    Awaiting::Copy { .. } => self.awaiting = Awaiting::Copy { back_to_normal: true },
                    Awaiting::ListAfterCopy { .. } => self.awaiting = Awaiting::ListAfterCopy { back_to_normal: true },
                    Awaiting::Idle => self.mode = AppMode::Normal,
                    _ => {},
                }
                c
            },
            Key::Char(' ') => {
                self.toggle_ignored_file_selection();
                Command::Nothing
            },
            Key::Char('a') => {
                self.toggle_all_ignored_files();
                Command::Nothing
            },
            Key::Up => {
                self.move_ignored_selection_up();
                Command::Nothing
            },
            Key::Down => {
                self.move_ignored_selection_down();
                Command::Nothing
            },
            _ => Command::Nothing,
        }
    }

    /// A key pressed while no outside work is pending (see `on_key`).
    pub fn handle_key_event(&mut self, key: Key) -> (c: Command)
        requires
            key_is_safe(old(self)@, key),
        ensures
            (final(self)@, c@) == on_key(old(self)@, key),
    {
        match self.mode {
            AppMode::Normal => self.handle_normal_mode(key),
            AppMode::CreateWorktree => self.handle_create_mode(key),
            AppMode::SelectIgnoredFiles => self.handle_select_ignored_mode(key),
            AppMode::Error => {
                self.mode = AppMode::Normal;
                self.error_message = None;
                Command::Nothing
            },
        }
    }
}

impl App {
    /// The worktrees listed anew (see `refreshed`).
    pub fn set_worktrees(&mut self, worktrees: Vec<Worktree>)
        ensures
            final(self)@ == refreshed(old(self)@, worktree_views(worktrees@)),
    {
        let empty = worktrees.len() == 0;
        self.worktrees = worktrees;
        if empty {
            self.worktree_selected = None;
        } else if self.worktree_selected.is_none() {
            self.worktree_selected = Some(0);
        }
    }

    /// The branches to choose from (see `branches_loaded`).
    pub fn set_available_branches(&mut self, branches: Vec<String>)
        ensures
            final(self)@ == branches_loaded(old(self)@, string_views(branches@)),
    {
        let some = branches.len() > 0;
        self.available_branches = branches;
        if some {
            self.branch_selected = Some(0);
        }
    }

    /// The ignored files found after a worktree was made (see `ignored_loaded`).
    pub fn ignored_files_loaded(&mut self, items: Vec<IgnoredItem>) -> (c: Command)
        ensures
            (final(self)@, c@) == ignored_loaded(old(self)@, item_views(items@)),
    {
        let some = items.len() > 0;
        self.ignored_items = items;
        self.awaiting = Awaiting::Idle;
        if some {
            self.mode = AppMode::SelectIgnoredFiles;
            self.ignored_selected = Some(0);
            self.clear_create_inputs();
            Command::Nothing
        } else {
            self.mode = AppMode::Normal;
            self.clear_create_inputs();
            self.refresh_worktrees()
        }
    }

    /// The path where the worktree just made lies (see `new_worktree_path`).
    fn worktree_path(&self) -> (p: String)
        ensures
            p@ == new_worktree_path(self@),
    {
        if !self.path_input.as_str().is_empty() {
            self.path_input.clone()
        } else {
            let repo = chars_of(self.repo_path.as_str());
            let base = match path_parent(&repo) {
                Some(p) => p,
                None => repo,
            };
            let joined = path_join(&base, &chars_of(self.branch_input.as_str()));
            string_of(joined.as_slice())
        }
    }

    /// Drop the list of ignored files, and go back to the normal mode where
    /// `back_to_normal` holds.
    fn drop_ignored(&mut self, back_to_normal: bool)
        ensures
            final(self)@ == ignored_done(old(self)@, back_to_normal),
    {
        self.ignored_items = Vec::new();
        self.pending_worktree_path = None;
        if back_to_normal {
            self.mode = AppMode::Normal;
        }
        assert(item_views(self.ignored_items@) =~= Seq::<IgnoredItemView>::empty());
    }

    fn fail(&mut self, message: String) -> (c: Command)
        ensures
            (final(self)@, c@) == failed(old(self)@, message@),
    {
        self.running = false;
        self.awaiting = Awaiting::Idle;
        Command::Fail(message)
    }

    fn shown_error(&mut self, message: String) -> (c: Command)
        ensures
            final(self)@ == with_error(idle(old(self)@), message@),
            c@ == CommandView::Nothing,
    {
        self.awaiting = Awaiting::Idle;
        self.show_error(message);
        Command::Nothing
    }

    /// Takes the next event: a key, or the outcome of the outside work asked
    /// for last, and gives the outside work to do next (see `transition`).
    /// Events that do not fit what is awaited are ignored.
    pub fn step(&mut self, event: Event) -> (c: Command)
        requires
            event_is_safe(old(self)@, event),
        ensures
            !brings_gitignore(old(self)@, event) ==> (final(self)@, c@) == transition(
                old(self)@,
                event,
                Seq::empty(),
            ),
            brings_gitignore(old(self)@, event) ==> exists|found: Seq<IgnoredItemView>|
                #[trigger] found_ok(found, old(self)@.repo_path, event->GitignoreRead_0->Ok_0) && (final(self)@, c@) == transition(
                    old(self)@,
                    event,
                    found,
                ),
    {
        let repo = self.repo_path.clone();
        match self.awaiting {
            Awaiting::Idle => match event {
                Event::Key(k) => self.handle_key_event(k),
                _ => Command::Nothing,
            },
            Awaiting::List => {
                let cmd = self.worktree_manager().list();
                match event {
                    Event::GitDone { success, stdout, stderr } => match stdout {
                        Ok(text) => match WorktreeManager::list_result(&cmd, success, text.as_str(), stderr.as_str()) {
                            Ok(ws) => {
                                self.awaiting = Awaiting::Idle;
                                self.set_worktrees(ws);
                                Command::Nothing
                            },
                            Err(m) => self.fail(m),
                        },
                        Err(m) => if success {
                            self.fail(m)
                        } else {
                            self.fail(cmd.status_error(stderr.as_str()))
                        },
                    },
                    Event::GitNotStarted => self.fail(cmd.spawn_error()),
                    _ => Command::Nothing,
                }
            },
            Awaiting::Branches => {
                let cmd = self.worktree_manager().get_branches();
                match event {
                    Event::GitDone { success, stdout, stderr } => match stdout {
                        Ok(text) => match WorktreeManager::branches_result(&cmd, success, text.as_str(), stderr.as_str()) {
                            Ok(bs) => {
                                self.awaiting = Awaiting::Idle;
                                self.set_available_branches(bs);
                                Command::Nothing
                            },
                            Err(m) => self.fail(m),
                        },
                        Err(m) => if success {
                            self.fail(m)
                        } else {
                            self.fail(cmd.status_error(stderr.as_str()))
                        },
                    },
                    Event::GitNotStarted => self.fail(cmd.spawn_error()),
                    _ => Command::Nothing,
                }
            },
            Awaiting::Create => {
                let label = "git worktree add";
                match event {
                    Event::GitDone { success, stdout, stderr } => match check_status(label, success, stderr.as_str()) {
                        Ok(()) => {
                            let target = self.worktree_path();
                            self.pending_worktree_path = Some(target);
                            self.awaiting = Awaiting::Gitignore;
                            let g = path_join(&chars_of(repo.as_str()), &chars_of(".gitignore"));
                            Command::ReadGitignore(string_of(g.as_slice()))
                        },
                        Err(m) => self.shown_error(m),
                    },
                    Event::GitNotStarted => self.shown_error(spawn_failure(label)),
                    _ => Command::Nothing,
                }
            },
            Awaiting::Remove => {
                let label = "git worktree remove";
                match event {
                    Event::GitDone { success, stdout, stderr } => match check_status(label, success, stderr.as_str()) {
                        Ok(()) => self.refresh_worktrees(),
                        Err(m) => self.shown_error(m),
                    },
                    Event::GitNotStarted => self.shown_error(spawn_failure(label)),
                    _ => Command::Nothing,
                }
            },
            Awaiting::Prune => {
                let label = "git worktree prune";
                match event {
                    Event::GitDone { success, stdout, stderr } => match check_status(label, success, stderr.as_str()) {
                        Ok(()) => self.refresh_worktrees(),
                        Err(m) => self.shown_error(m),
                    },
                    Event::GitNotStarted => self.shown_error(spawn_failure(label)),
                    _ => Command::Nothing,
                }
            },
            Awaiting::Gitignore => match event {
                Event::GitignoreRead(Ok(text)) => {
                    let m = GitignoreManager::new(repo);
                    match m {
                        Ok(m) => {
                            let items = match &text {
                                Some(t) => m.get_ignored_files(Some(t.as_str())),
                                None => m.get_ignored_files(None),
                            };
                            let c = self.ignored_files_loaded(items);
                            assert(m.repo() == old(self)@.repo_path);
                            assert(found_ok(item_views(items@), old(self)@.repo_path, text));
                            c
                        },
                        Err(_) => Command::Nothing,
                    }
                },
                Event::GitignoreRead(Err(m)) => self.fail(m),
                _ => Command::Nothing,
            },
            Awaiting::Copy { back_to_normal } => match event {
                Event::Copied(Ok(())) => {
                    self.awaiting = Awaiting::ListAfterCopy { back_to_normal };
                    Command::Git(self.worktree_manager().list())
                },
                Event::Copied(Err(m)) => {
                    self.awaiting = Awaiting::Idle;
                    self.show_error(m);
                    self.drop_ignored(back_to_normal);
                    Command::Nothing
                },
                _ => Command::Nothing,
            },
            Awaiting::ListAfterCopy { back_to_normal } => {
                let cmd = self.worktree_manager().list();
                match event {
                    Event::GitDone { success, stdout, stderr } => match stdout {
                        Ok(text) => match WorktreeManager::list_result(&cmd, success, text.as_str(), stderr.as_str()) {
                            Ok(ws) => {
                                self.awaiting = Awaiting::Idle;
                                self.set_worktrees(ws);
                                self.drop_ignored(back_to_normal);
                                Command::Nothing
                            },
                            Err(m) => self.fail(m),
                        },
                        Err(m) => if success {
                            self.fail(m)
                        } else {
                            self.fail(cmd.status_error(stderr.as_str()))
                        },
                    },
                    Event::GitNotStarted => self.fail(cmd.spawn_error()),
                    _ => Command::Nothing,
                }
            },
        }
    }
}

impl App {
    /// Whether the key can be taken (see `key_is_safe`).
    pub fn accepts_key(&self, key: Key) -> (b: bool)
        ensures
            b == key_is_safe(self@, key),
    {
        match self.mode {
            AppMode::Normal => !((key == Key::Down || key == Key::Char('j')) && self.worktree_selected.is_some()
                && self.worktrees.len() == 0),
            AppMode::CreateWorktree => {
                if self.input_mode == InputMode::SelectBranch {
                    let n: usize = self.available_branches.len();
                    let down_ok = !(key == Key::Down && self.branch_selected.is_some() && n == 0);
                    let enter_ok = match self.branch_selected {
                        Some(i) => key != Key::Enter || i < n,
                        None => true,
                    };
                    down_ok && enter_ok
                } else {
                    true
                }
            },
            AppMode::SelectIgnoredFiles => !(key == Key::Down && self.ignored_selected.is_some()
                && self.ignored_items.len() == 0),
            AppMode::Error => true,
        }
    }
}

} // verus!
