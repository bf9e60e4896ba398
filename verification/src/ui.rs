use vstd::prelude::*;
use crate::app::{AppMode, App};
use crate::worktree::Worktree;
use vstd::string::StringSliceAdditionalSpecFns;

verus! {

broadcast use vstd::string::group_string_axioms;

// ---------------------------------------------------------------------------
// The texts that the screens show. Drawing them is left to the terminal
// front end; what they say is decided here.
// ---------------------------------------------------------------------------

/// The title line.
pub open spec fn header_text() -> Seq<char> {
    "Worktree Admin - GitHub Worktree Management TUI"@
}

/// The title line (see `header_text`).
pub fn header() -> (t: String)
    ensures
        t@ == header_text(),
{
    String::from_str("Worktree Admin - GitHub Worktree Management TUI")
}

/// The keys that the footer explains in each mode, with what they do.
pub open spec fn footer_entries(mode: AppMode) -> Seq<(Seq<char>, Seq<char>)> {
    match mode {
        AppMode::Normal => seq![
            ("↑/↓/j/k"@, "Navigate"@),
            ("n"@, "New worktree"@),
            ("d"@, "Delete"@),
            ("r"@, "Refresh"@),
            ("p"@, "Prune"@),
            ("q"@, "Quit"@),
        ],
        AppMode::CreateWorktree => seq![
            ("Tab"@, "Switch field"@),
            ("Enter"@, "Next/Confirm"@),
            ("Esc"@, "Cancel"@),
        ],
        AppMode::SelectIgnoredFiles => seq![
            ("↑/↓"@, "Navigate"@),
            ("Space"@, "Toggle selection"@),
            ("a"@, "Select all"@),
            ("Enter"@, "Confirm"@),
            ("Esc"@, "Cancel"@),
        ],
        AppMode::Error => Seq::empty(),
    }
}

/// One key and what it does, as "[key] what".
pub open spec fn help_item(e: (Seq<char>, Seq<char>)) -> Seq<char> {
    "["@ + e.0 + "] "@ + e.1
}

/// The items joined with two spaces between neighbours.
pub open spec fn help_line(es: Seq<(Seq<char>, Seq<char>)>) -> Seq<char>
    decreases es.len(),
{
    if es.len() == 0 {
        Seq::empty()
    } else if es.len() == 1 {
        help_item(es[0])
    } else {
        help_line(es.drop_last()) + "  "@ + help_item(es.last())
    }
}

fn entry(k: &str, d: &str) -> (e: (String, String))
    ensures
        e.0@ == k@,
        e.1@ == d@,
{
    (String::from_str(k), String::from_str(d))
}

/// The views of a list of keys and what they do.
pub open spec fn entry_views(v: Seq<(String, String)>) -> Seq<(Seq<char>, Seq<char>)> {
    v.map_values(|e: (String, String)| (e.0@, e.1@))
}

fn push_entry(v: &mut Vec<(String, String)>, k: &str, d: &str)
    ensures
        entry_views(final(v)@) == entry_views(old(v)@).push((k@, d@)),
{
    let ghost before = v@;
    v.push(entry(k, d));
    assert(entry_views(v@) =~= entry_views(before).push((k@, d@)));
}

/// The keys that the footer explains in `mode`.
pub fn footer_keybinds(mode: AppMode) -> (v: Vec<(String, String)>)
    ensures
        entry_views(v@) == footer_entries(mode),
{
    let mut v: Vec<(String, String)> = Vec::new();
    match mode {
        AppMode::Normal => {
            push_entry(&mut v, "↑/↓/j/k", "Navigate");
            push_entry(&mut v, "n", "New worktree");
            push_entry(&mut v, "d", "Delete");
            push_entry(&mut v, "r", "Refresh");
            push_entry(&mut v, "p", "Prune");
            push_entry(&mut v, "q", "Quit");
        },
        AppMode::CreateWorktree => {
            push_entry(&mut v, "Tab", "Switch field");
            push_entry(&mut v, "Enter", "Next/Confirm");
            push_entry(&mut v, "Esc", "Cancel");
        },
        AppMode::SelectIgnoredFiles => {
            push_entry(&mut v, "↑/↓", "Navigate");
            push_entry(&mut v, "Space", "Toggle selection");
            push_entry(&mut v, "a", "Select all");
            push_entry(&mut v, "Enter", "Confirm");
            push_entry(&mut v, "Esc", "Cancel");
        },
        AppMode::Error => {},
    }
    assert(entry_views(v@) =~= footer_entries(mode));
    v
}

/// The help line of the footer in `mode`: each key as "[key] what", two
/// spaces between them.
pub fn footer_text(mode: AppMode) -> (t: String)
    ensures
        t@ == help_line(footer_entries(mode)),
{
    let es = footer_keybinds(mode);
    let ghost ev = entry_views(es@);
    let mut t = String::new();
    let mut i: usize = 0;
    while i < es.len()
        invariant
            i <= es@.len(),
            ev == entry_views(es@),
            t@ == help_line(ev.take(i as int)),
        decreases es@.len() - i,
    {
        if i > 0 {
            t.append("  ");
        }
        t.append("[");
        t.append(es[i].0.as_str());
        t.append("] ");
        t.append(es[i].1.as_str());
        proof {
            assert(ev.take(i + 1).drop_last() =~= ev.take(i as int));
            assert(ev[i as int] == (es@[i as int].0@, es@[i as int].1@));
            if i == 0 {
                assert(t@ =~= help_item(ev.take(1)[0]));
            } else {
                assert(t@ =~= help_line(ev.take(i as int)) + "  "@ + help_item(ev.take(i + 1).last()));
            }
        }
        i = i + 1;
    }
    assert(ev.take(es@.len() as int) =~= ev);
    t
}

/// The branch shown for a worktree: "(detached HEAD)", or its branch in brackets.
pub open spec fn branch_label_text(is_detached: bool, branch: Seq<char>) -> Seq<char> {
    if is_detached {
        "(detached HEAD)"@
    } else {
        "("@ + branch + ")"@
    }
}

/// The branch shown for `wt` (see `branch_label_text`).
pub fn branch_label(wt: &Worktree) -> (t: String)
    ensures
        t@ == branch_label_text(wt.is_detached, wt.branch@),
{
    if wt.is_detached {
        String::from_str("(detached HEAD)")
    } else {
        let mut t = String::from_str("(");
        t.append(wt.branch.as_str());
        t.append(")");
        t
    }
}

/// The number of bytes of a commit that are shown: at most eight.
pub open spec fn short_commit_len(commit: &str) -> int {
    if commit.len() < 8 {
        commit.len() as int
    } else {
        8
    }
}

/// Whether the first bytes shown of `commit` end between two characters; the
/// commit cannot be cut there otherwise.
pub open spec fn short_commit_cuttable(commit: &str) -> bool {
    vstd::utf8::is_char_boundary(commit.spec_bytes(), short_commit_len(commit))
}

/// The commit as shown: its first eight bytes, or all of it.
pub fn short_commit(commit: &str) -> (t: &str)
    requires
        short_commit_cuttable(commit),
    ensures
        t.spec_bytes() == commit.spec_bytes().take(short_commit_len(commit)),
{
    let n: usize = if commit.len() < 8 {
        commit.len()
    } else {
        8
    };
    let (head, _) = commit.split_at(n);
    head
}

/// Whether `short_commit` can cut `commit`.
pub fn can_shorten_commit(commit: &str) -> (b: bool)
    ensures
        b == short_commit_cuttable(commit),
{
    let n: usize = if commit.len() < 8 {
        commit.len()
    } else {
        8
    };
    commit.is_char_boundary(n)
}

/// The mark before an ignored file: "[x]" when selected, else "[ ]".
pub open spec fn checkbox_text(selected: bool) -> Seq<char> {
    if selected {
        "[x]"@
    } else {
        "[ ]"@
    }
}

/// The mark before an ignored file (see `checkbox_text`).
pub fn checkbox(selected: bool) -> (t: String)
    ensures
        t@ == checkbox_text(selected),
{
    if selected {
        String::from_str("[x]")
    } else {
        String::from_str("[ ]")
    }
}

/// The line of the dialog for a new worktree that shows whether the branch
/// exists already.
pub open spec fn existing_branch_text(create_from_existing: bool) -> Seq<char> {
    if create_from_existing {
        "[x] Create from existing branch"@
    } else {
        "[ ] Create from existing branch"@
    }
}

/// The line that shows whether the branch exists already (see `existing_branch_text`).
pub fn existing_branch_line(create_from_existing: bool) -> (t: String)
    ensures
        t@ == existing_branch_text(create_from_existing),
{
    if create_from_existing {
        String::from_str("[x] Create from existing branch")
    } else {
        String::from_str("[ ] Create from existing branch")
    }
}

/// The text of the error dialog: the error, or "Unknown error" without one.
pub fn error_text(app: &App) -> (t: String)
    ensures
        t@ == (match app.error_message {
            Some(m) => m@,
            None => "Unknown error"@,
        }),
{
    match &app.error_message {
        Some(m) => m.clone(),
        None => String::from_str("Unknown error"),
    }
}

/// The least height of the list of branches, borders included.
pub const MIN_BRANCH_LIST_HEIGHT: u16 = 4;

/// The greatest height of the list of branches, borders included.
pub const MAX_BRANCH_LIST_HEIGHT: u16 = 12;

/// Whether the dialog shows the list of branches: only when the branch exists
/// already and there are branches to choose from.
pub open spec fn shows_branches(create_from_existing: bool, n_branches: nat) -> bool {
    create_from_existing && n_branches > 0
}

/// The height of the list of branches: one row per branch and two for the
/// border, between the least and greatest height; none without the list.
/// The number of branches is taken as a `u16` (modulo 65536), as the
/// terminal's sizes are.
pub open spec fn branch_list_height(create_from_existing: bool, n_branches: nat) -> int {
    if shows_branches(create_from_existing, n_branches) {
        let h: int = (n_branches % 65536) as int + 2;
        if h < 4 {
            4
        } else if h > 12 {
            12
        } else {
            h
        }
    } else {
        0
    }
}

/// The height of the dialog for a new worktree: its border and margin (four
/// rows), three fields of three rows, and the list of branches.
pub open spec fn create_dialog_height_of(create_from_existing: bool, n_branches: nat) -> int {
    13 + branch_list_height(create_from_existing, n_branches)
}

/// The number of branches is small enough to take two more rows without
/// overflowing a `u16` (needed only where the list is shown).
pub open spec fn branch_count_fits(n_branches: nat) -> bool {
    (n_branches % 65536) + 2 <= 65535
}

/// The height of the list of branches (see `branch_list_height`).
pub fn list_height(create_from_existing: bool, n_branches: usize) -> (h: u16)
    requires
        shows_branches(create_from_existing, n_branches as nat) ==> branch_count_fits(n_branches as nat),
    ensures
        h as int == branch_list_height(create_from_existing, n_branches as nat),
{
    if create_from_existing && n_branches > 0 {
        let n: u16 = (n_branches % 65536) as u16;
        let h: u16 = n + 2;
        if h < MIN_BRANCH_LIST_HEIGHT {
            MIN_BRANCH_LIST_HEIGHT
        } else if h > MAX_BRANCH_LIST_HEIGHT {
            MAX_BRANCH_LIST_HEIGHT
        } else {
            h
        }
    } else {
        0
    }
}

/// The height of the dialog for a new worktree (see `create_dialog_height_of`).
pub fn create_dialog_height(create_from_existing: bool, n_branches: usize) -> (h: u16)
    requires
        shows_branches(create_from_existing, n_branches as nat) ==> branch_count_fits(n_branches as nat),
    ensures
        h as int == create_dialog_height_of(create_from_existing, n_branches as nat),
{
    2 + 2 + 9 + list_height(create_from_existing, n_branches)
}

} // verus!
