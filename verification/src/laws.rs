use vstd::prelude::*;
use crate::app::{AppView, AppMode, Awaiting, Event, Key, InputMode, transition, initial_state, selection_up, selection_down, toggled_current, with_selection, all_selected, on_key};
use crate::gitignore::{IgnoredItemView};
use crate::worktree::{parse_porcelain, porcelain_run, detached_word, branch_entries, remotes_tag, WorktreeView};
use crate::text::{starts_with, trim, is_white_space, lemma_trim_bounds, split_on, lemma_join_split, lemma_split_on_len};
use crate::path::{
    strip_prefix, join_paths, components, kept, is_kept, is_rooted, has_cur_dir, lead_count, after_kept,
    trim_head, trim_tail, all_kept, lemma_split_concat, lemma_kept_concat, lemma_kept_all,
    lemma_kept_first, lemma_after_all_kept, lemma_trim_head_skips, lemma_first_piece_named,
    lemma_split_first_empty, is_component_prefix,
};
use crate::gitignore::{copy_step, copy_steps, relative_to, gitignore_patterns};
use crate::gitignore::{
    is_stable_sort, first_occurrences, readable, readable_matches, path_key, lemma_first_occurrences_cover,
    matches_of, glob_accepts, glob_matches,
};
use crate::app::{CommandView, creation_command, new_worktree_path};
use crate::worktree::{GitCommandView, create_command, create_from_branch_command};

verus! {

/// The state keeps its promises to the screens: in the list of ignored files
/// there is at least one file, one of them is under the cursor, and there is
/// a new worktree to copy into; while `.gitignore` is awaited, that worktree
/// is known too; the error dialog always has an error to show; and in the
/// dialog for a new worktree, the focus is on the list of branches only when
/// the branch is to exist already; and copies are only ever asked for by
/// Enter in the list of ignored files, so their outcome brings the normal
/// mode back.
pub open spec fn app_ok(s: AppView) -> bool {
    &&& s.mode == AppMode::Error ==> s.error_message is Some
    &&& s.awaiting matches Awaiting::Copy { back_to_normal } ==> back_to_normal
    &&& s.awaiting matches Awaiting::ListAfterCopy { back_to_normal } ==> back_to_normal
    &&& (s.mode == AppMode::CreateWorktree && s.input_mode == InputMode::SelectBranch) ==> s.create_from_existing
    &&& s.mode == AppMode::SelectIgnoredFiles ==> {
        &&& s.ignored_items.len() > 0
        &&& s.ignored_selected is Some
        &&& s.ignored_selected->0 < s.ignored_items.len()
        &&& s.pending_worktree_path is Some
    }
    &&& s.awaiting == Awaiting::Gitignore ==> s.pending_worktree_path is Some
}

/// The program starts in a state that keeps its promises.
pub proof fn law_initial_ok(repo: Seq<char>)
    ensures
        app_ok(initial_state(repo)),
{
}

/// Every event keeps the promises of `app_ok`, whatever the file system gives.
pub proof fn law_transition_keeps_ok(s: AppView, e: Event, found: Seq<IgnoredItemView>)
    requires
        app_ok(s),
    ensures
        app_ok(transition(s, e, found).0),
{
    let t = transition(s, e, found).0;
    if s.awaiting == Awaiting::Idle {
        if let Event::Key(k) = e {
            if s.mode == AppMode::SelectIgnoredFiles && k == Key::Char('a') {
                assert(t.ignored_items.len() == s.ignored_items.len());
            }
        }
    }
}

/// Moving the cursor never takes it out of the list.
pub proof fn law_moves_stay_inside(sel: Option<usize>, len: nat)
    requires
        sel matches Some(i) ==> i < len,
    ensures
        selection_up(sel) matches Some(i) ==> i < len,
        selection_down(sel, len) matches Some(i) ==> i < len,
{
}

/// Down and then up comes back to the same entry, where there is one below.
pub proof fn law_down_then_up(i: usize, len: nat)
    requires
        i + 1 < len <= usize::MAX,
    ensures
        selection_up(selection_down(Some(i), len)) == Some(i),
{
}

/// Up and then down comes back to the same entry, where there is one above.
pub proof fn law_up_then_down(i: usize, len: nat)
    requires
        0 < i < len,
    ensures
        selection_down(selection_up(Some(i)), len) == Some(i),
{
}

/// Space twice on the same entry gives the list back.
pub proof fn law_toggle_twice(items: Seq<IgnoredItemView>, sel: Option<usize>)
    ensures
        toggled_current(toggled_current(items, sel), sel) == items,
{
    if let Some(i) = sel {
        if i < items.len() {
            assert(toggled_current(toggled_current(items, sel), sel) =~= items);
        }
    }
}

/// After 'a' every entry is selected or none is, and the paths stay.
pub proof fn law_toggle_all_uniform(items: Seq<IgnoredItemView>)
    ensures
        ({
            let t = with_selection(items, !all_selected(items));
            &&& t.len() == items.len()
            &&& forall|i: int| 0 <= i < t.len() ==> (#[trigger] t[i]).selected == !all_selected(items)
            &&& forall|i: int| 0 <= i < t.len() ==> (#[trigger] t[i]).path == items[i].path
        }),
{
}

/// 'a' twice on a non-empty list leaves every entry selected exactly when
/// every entry was selected before.
pub proof fn law_toggle_all_twice(items: Seq<IgnoredItemView>)
    requires
        items.len() > 0,
    ensures
        ({
            let t = with_selection(items, !all_selected(items));
            with_selection(t, !all_selected(t)) == with_selection(items, all_selected(items))
        }),
{
    let t = with_selection(items, !all_selected(items));
    assert(t[0].selected == !all_selected(items));
    if !all_selected(items) {
        assert(all_selected(t));
    } else {
        assert(!all_selected(t));
    }
    assert(with_selection(t, !all_selected(t)) =~= with_selection(items, all_selected(items)));
}

/// Typing a character into the focused text field and erasing it gives the
/// state back.
pub proof fn law_type_then_erase(s: AppView, c: char)
    requires
        s.mode == AppMode::CreateWorktree,
        s.input_mode == InputMode::BranchName || (s.input_mode == InputMode::Path && c != ' '),
    ensures
        on_key(on_key(s, Key::Char(c)).0, Key::Backspace).0 == s,
{
    let t = on_key(s, Key::Char(c)).0;
    assert(s.branch_input.push(c).drop_last() =~= s.branch_input);
    assert(s.path_input.push(c).drop_last() =~= s.path_input);
    assert(on_key(t, Key::Backspace).0 =~= s);
}

/// Tab goes round the fields of the dialog: the branch's name, the path and,
/// with "create from existing branch" set, the list of branches.
pub proof fn law_tab_cycle(s: AppView)
    requires
        s.mode == AppMode::CreateWorktree,
        s.input_mode == InputMode::BranchName,
    ensures
        ({
            let t1 = on_key(s, Key::Tab).0;
            let t2 = on_key(t1, Key::Tab).0;
            let t3 = on_key(t2, Key::Tab).0;
            &&& t1.input_mode == InputMode::Path
            &&& s.create_from_existing ==> t2.input_mode == InputMode::SelectBranch && t3 == s
            &&& !s.create_from_existing ==> t2 == s
        }),
{
    let t1 = on_key(s, Key::Tab).0;
    let t2 = on_key(t1, Key::Tab).0;
    let t3 = on_key(t2, Key::Tab).0;
    assert(t3 =~= s || !s.create_from_existing);
    assert(t2 =~= s || s.create_from_existing);
}

/// In the dialog for a new worktree, whatever key comes, the focus is on the
/// list of branches only when the branch is to exist already.
pub proof fn law_branch_list_focus(s: AppView, k: Key)
    requires
        s.mode == AppMode::CreateWorktree,
        s.input_mode == InputMode::SelectBranch ==> s.create_from_existing,
    ensures
        ({
            let t = on_key(s, k).0;
            (t.mode == AppMode::CreateWorktree && t.input_mode == InputMode::SelectBranch) ==> t.create_from_existing
        }),
{
}

/// Whatever key comes, the error dialog, where it is open, has an error to show.
pub proof fn law_error_keeps_message(s: AppView, k: Key)
    requires
        s.mode == AppMode::Error ==> s.error_message is Some,
    ensures
        on_key(s, k).0.mode == AppMode::Error ==> on_key(s, k).0.error_message is Some,
{
}

/// Esc leaves the dialog for a new worktree with its fields emptied, and
/// touches nothing else.
pub proof fn law_escape_cancels(s: AppView)
    requires
        s.mode == AppMode::CreateWorktree,
    ensures
        ({
            let (t, c) = on_key(s, Key::Esc);
            &&& t.mode == AppMode::Normal
            &&& t.branch_input.len() == 0 && t.path_input.len() == 0
            &&& !t.create_from_existing && t.available_branches.len() == 0 && t.branch_selected is None
            &&& t.worktrees == s.worktrees && t.worktree_selected == s.worktree_selected
            &&& c is Nothing
        }),
{
}

/// In the error dialog any key dismisses the error and nothing else happens.
pub proof fn law_error_dismissed(s: AppView, k: Key)
    requires
        s.mode == AppMode::Error,
    ensures
        on_key(s, k).0 == (AppView { mode: AppMode::Normal, error_message: None, ..s }),
        on_key(s, k).1 is Nothing,
{
}

// ---------------------------------------------------------------------------
// What is read from git
// ---------------------------------------------------------------------------

/// A worktree read from git is never bare nor prunable, and is detached
/// exactly when its branch reads "detached".
pub open spec fn worktree_flags_ok(w: WorktreeView) -> bool {
    !w.is_bare && !w.is_prunable && w.is_detached == (w.branch == detached_word())
}

proof fn lemma_porcelain_run_flags(ls: Seq<Seq<char>>)
    ensures
        forall|i: int| 0 <= i < porcelain_run(ls).found.len() ==> worktree_flags_ok(
            #[trigger] porcelain_run(ls).found[i],
        ),
    decreases ls.len(),
{
    if ls.len() > 0 {
        lemma_porcelain_run_flags(ls.drop_last());
        let prev = porcelain_run(ls.drop_last());
        let cur = porcelain_run(ls);
        assert forall|i: int| 0 <= i < cur.found.len() implies worktree_flags_ok(#[trigger] cur.found[i]) by {
            if i < prev.found.len() {
                assert(cur.found[i] == prev.found[i]);
            }
        }
    }
}

/// Every worktree read from `git worktree list --porcelain` is neither bare
/// nor prunable, and is detached exactly when its branch reads "detached".
pub proof fn law_porcelain_flags(text: Seq<char>)
    ensures
        forall|i: int| 0 <= i < parse_porcelain(text).len() ==> worktree_flags_ok(
            #[trigger] parse_porcelain(text)[i],
        ),
{
    let ls = crate::text::lines_of(text);
    lemma_porcelain_run_flags(ls);
    let st = porcelain_run(ls);
    let r = parse_porcelain(text);
    assert forall|i: int| 0 <= i < r.len() implies worktree_flags_ok(#[trigger] r[i]) by {
        if i < st.found.len() {
            assert(r[i] == st.found[i]);
        }
    }
}

/// No branch read from `git branch -a` is a remote one, and none begins or
/// ends with white space.
pub proof fn law_branch_entries(ls: Seq<Seq<char>>)
    ensures
        forall|i: int| 0 <= i < branch_entries(ls).len() ==> {
            let b = #[trigger] branch_entries(ls)[i];
            &&& !starts_with(b, remotes_tag())
            &&& b.len() > 0 ==> !is_white_space(b[0]) && !is_white_space(b.last())
        },
    decreases ls.len(),
{
    if ls.len() > 0 {
        law_branch_entries(ls.drop_last());
        let prev = branch_entries(ls.drop_last());
        let cur = branch_entries(ls);
        lemma_trim_bounds(crate::text::trim_start_char(ls.last(), '*'));
        assert forall|i: int| 0 <= i < cur.len() implies {
            let b = #[trigger] cur[i];
            &&& !starts_with(b, remotes_tag())
            &&& b.len() > 0 ==> !is_white_space(b[0]) && !is_white_space(b.last())
        } by {
            if i < prev.len() {
                assert(cur[i] == prev[i]);
            }
        }
    }
}

// ---------------------------------------------------------------------------
// Paths
// ---------------------------------------------------------------------------

/// A relative path made of names only: no empty piece (so no leading,
/// trailing or doubled '/') and no "." piece.
pub open spec fn is_plain_relative(rel: Seq<char>) -> bool {
    all_kept(split_on(rel, '/'))
}

/// What lies at `rel` under `base` is found at `rel` again: stripping `base`
/// from `base` joined with `rel` gives `rel` back.
pub proof fn law_strip_join(base: Seq<char>, rel: Seq<char>)
    requires
        base.len() > 0,
        base.last() != '/',
        is_plain_relative(rel),
    ensures
        strip_prefix(join_paths(base, rel), base) == Some(rel),
{
    let r = split_on(rel, '/');
    let b = split_on(base, '/');
    lemma_split_on_len(rel, '/');
    lemma_split_on_len(base, '/');
    assert(is_kept(r[0]));
    if rel.len() == 0 {
        assert(r == seq![Seq::<char>::empty()]);
    }
    if rel.len() > 0 && rel[0] == '/' {
        lemma_split_first_empty(rel, '/');
    }
    assert(!is_rooted(rel));
    let p = base.push('/') + rel;
    assert(join_paths(base, rel) == p);
    lemma_split_concat(base, rel, '/');
    let pieces = split_on(p, '/');
    assert(pieces == b + r);
    assert(p[0] == base[0]);
    assert(is_rooted(p) == is_rooted(base));
    assert(pieces[0] == b[0]);
    assert(has_cur_dir(p) == has_cur_dir(base));
    lemma_kept_concat(b, r);
    lemma_kept_all(r);
    lemma_kept_all(b);
    assert(kept(pieces) == kept(b) + r);
    let cb = components(base);
    assert(components(p) =~= cb + r);
    assert(components(p).take(cb.len() as int) =~= cb);
    assert(is_component_prefix(p, base));
    if !is_rooted(base) && !has_cur_dir(base) {
        lemma_first_piece_named(base, '/');
        lemma_kept_first(b);
    }
    assert(cb.len() >= 1);
    assert(lead_count(p) == lead_count(base));
    assert(cb.len() == lead_count(base) + kept(b).len());
    let rest = if cb.len() <= lead_count(p) {
        pieces.skip(1)
    } else {
        after_kept(pieces, (cb.len() - lead_count(p)) as nat)
    };
    if cb.len() <= lead_count(p) {
        assert(kept(b).len() == 0);
        assert(pieces.skip(1) =~= b.skip(1) + r);
        assert forall|i: int| 0 <= i < b.skip(1).len() implies !is_kept(#[trigger] b.skip(1)[i]) by {
            assert(b.skip(1)[i] == b[i + 1]);
        }
        lemma_trim_head_skips(b.skip(1), r);
    } else {
        lemma_after_all_kept(b, r);
        lemma_trim_head_skips(after_kept(b, kept(b).len()), r);
    }
    assert(trim_head(rest) == r);
    assert(is_kept(r.last()));
    assert(trim_tail(r) == r);
    lemma_join_split(rel, '/');
}

/// A selected item at `rel` under the repository is copied to `rel` under
/// the target directory.
pub proof fn law_copy_keeps_place(repo: Seq<char>, rel: Seq<char>, item: IgnoredItemView, target_dir: Seq<char>)
    requires
        repo.len() > 0,
        repo.last() != '/',
        is_plain_relative(rel),
        item.path == join_paths(repo, rel),
    ensures
        copy_step(repo, item, target_dir).target == join_paths(target_dir, rel),
        copy_step(repo, item, target_dir).source == item.path,
{
    law_strip_join(repo, rel);
    assert(relative_to(item.path, repo) == rel);
}

/// No event changes the repository the application works on.
pub proof fn law_repository_fixed(s: AppView, e: Event, found: Seq<IgnoredItemView>)
    ensures
        transition(s, e, found).0.repo_path == s.repo_path,
{
}

/// The program stops only on 'q' or Esc in the normal mode, or with an error
/// that it cannot go on from.
pub proof fn law_stops_only_on_quit_or_failure(s: AppView, e: Event, found: Seq<IgnoredItemView>)
    requires
        s.running,
    ensures
        !transition(s, e, found).0.running ==> {
            ||| transition(s, e, found).1 is Fail
            ||| (s.awaiting == Awaiting::Idle && s.mode == AppMode::Normal && (e == Event::Key(Key::Char('q'))
                || e == Event::Key(Key::Esc)))
        },
{
}

/// Every glob pattern of `.gitignore` begins with the repository's path, and
/// there is at most one per line.
pub proof fn law_patterns_under_repo(repo: Seq<char>, ls: Seq<Seq<char>>)
    ensures
        gitignore_patterns(repo, ls).len() <= ls.len(),
        forall|i: int| 0 <= i < gitignore_patterns(repo, ls).len() ==> starts_with(
            #[trigger] gitignore_patterns(repo, ls)[i],
            repo,
        ),
    decreases ls.len(),
{
    if ls.len() > 0 {
        law_patterns_under_repo(repo, ls.drop_last());
        let prev = gitignore_patterns(repo, ls.drop_last());
        let cur = gitignore_patterns(repo, ls);
        assert forall|i: int| 0 <= i < cur.len() implies starts_with(#[trigger] cur[i], repo) by {
            if i < prev.len() {
                assert(cur[i] == prev[i]);
            } else {
                let line = trim(ls.last());
                let q = cur[i];
                if line[0] == '/' {
                    assert(q == repo + line);
                    assert(q.take(repo.len() as int) =~= repo);
                } else {
                    assert(q == repo.push('/') + line);
                    assert(q.take(repo.len() as int) =~= repo);
                }
            }
        }
    }
}

// ---------------------------------------------------------------------------
// Making worktrees, and what follows a change to them
// ---------------------------------------------------------------------------

/// The command that makes a worktree puts it at the given path, or else at
/// `../<branch>`, whether the branch is new or exists already; it is run in
/// the repository.
pub proof fn law_create_places(repo: Seq<char>, branch: Seq<char>, path: Option<Seq<char>>)
    ensures
        ({
            let place = match path {
                Some(p) => p,
                None => "../"@ + branch,
            };
            &&& create_command(repo, branch, path).args == seq!["worktree"@, "add"@, place, "-b"@, branch]
            &&& create_from_branch_command(repo, branch, path).args == seq!["worktree"@, "add"@, place, branch]
            &&& create_command(repo, branch, path).current_dir == repo
            &&& create_from_branch_command(repo, branch, path).current_dir == repo
        }),
{
}

/// Where the dialog gives a path, the worktree is made there, whether the
/// branch is new or exists already, and that path is where its ignored files
/// are then copied to.
pub proof fn law_create_at_given_path(s: AppView)
    requires
        s.path_input.len() > 0,
    ensures
        creation_command(s).args[2] == s.path_input,
        creation_command(s).args[0] == "worktree"@ && creation_command(s).args[1] == "add"@,
        new_worktree_path(s) == s.path_input,
{
}

/// After a git command that changes the worktrees (remove or prune) succeeds,
/// the next command is `git worktree list --porcelain` in the repository, and
/// its list is awaited.
pub proof fn law_change_then_list(
    s: AppView,
    stdout: Result<String, String>,
    stderr: String,
    found: Seq<IgnoredItemView>,
)
    requires
        s.awaiting == Awaiting::Prune || s.awaiting == Awaiting::Remove,
    ensures
        ({
            let (t, c) = transition(s, Event::GitDone { success: true, stdout, stderr }, found);
            &&& t.awaiting == Awaiting::List
            &&& c matches CommandView::Git(g) && g.args == seq!["worktree"@, "list"@, "--porcelain"@]
                && g.current_dir == s.repo_path
            &&& t.worktrees == s.worktrees
        }),
{
}

// ---------------------------------------------------------------------------
// Moving through the lists and choosing
// ---------------------------------------------------------------------------

/// In the list of worktrees, Up (or 'k') moves the cursor one place up where
/// there is one, Down (or 'j') one place down where there is one, nothing
/// else changes, and Down then Up comes back.
pub proof fn law_worktree_cursor(s: AppView, i: usize)
    requires
        s.mode == AppMode::Normal,
        s.worktree_selected == Some(i),
        i < s.worktrees.len(),
        s.worktrees.len() <= usize::MAX,
    ensures
        i > 0 ==> on_key(s, Key::Up).0 == (AppView { worktree_selected: Some((i - 1) as usize), ..s }),
        i > 0 ==> on_key(s, Key::Char('k')).0 == (AppView { worktree_selected: Some((i - 1) as usize), ..s }),
        i == 0 ==> on_key(s, Key::Up).0 == s,
        i + 1 < s.worktrees.len() ==> on_key(s, Key::Down).0 == (AppView { worktree_selected: Some((i + 1) as usize), ..s }),
        i + 1 < s.worktrees.len() ==> on_key(s, Key::Char('j')).0 == (AppView { worktree_selected: Some((i + 1) as usize), ..s }),
        i + 1 == s.worktrees.len() ==> on_key(s, Key::Down).0 == s,
        i + 1 < s.worktrees.len() ==> on_key(on_key(s, Key::Down).0, Key::Up).0 == s,
{
    if i + 1 < s.worktrees.len() {
        let t = on_key(s, Key::Down).0;
        assert(t == AppView { worktree_selected: Some((i + 1) as usize), ..s });
        assert(on_key(t, Key::Up).0 =~= s);
    }
}

/// In the list of branches, Up moves the cursor one place up where there is
/// one, Down one place down where there is one, nothing else changes, and
/// Down then Up comes back to the same branch.
pub proof fn law_branch_cursor(s: AppView, i: usize)
    requires
        s.mode == AppMode::CreateWorktree,
        s.input_mode == InputMode::SelectBranch,
        s.branch_selected == Some(i),
        i < s.available_branches.len(),
        s.available_branches.len() <= usize::MAX,
    ensures
        i > 0 ==> on_key(s, Key::Up).0 == (AppView { branch_selected: Some((i - 1) as usize), ..s }),
        i == 0 ==> on_key(s, Key::Up).0 == s,
        i + 1 < s.available_branches.len() ==> on_key(s, Key::Down).0 == (AppView { branch_selected: Some((i + 1) as usize), ..s }),
        i + 1 == s.available_branches.len() ==> on_key(s, Key::Down).0 == s,
        i + 1 < s.available_branches.len() ==> on_key(on_key(s, Key::Down).0, Key::Up).0 == s,
        on_key(s, Key::Enter).0.branch_input == s.available_branches[i as int],
        on_key(s, Key::Enter).0.input_mode == InputMode::BranchName,
{
    if i + 1 < s.available_branches.len() {
        let t = on_key(s, Key::Down).0;
        assert(t == AppView { branch_selected: Some((i + 1) as usize), ..s });
        assert(on_key(t, Key::Up).0 =~= s);
    }
}

/// In the list of ignored files, Up moves the cursor one place up where there
/// is one, Down one place down where there is one, nothing else changes, and
/// Down then Up comes back.
pub proof fn law_ignored_cursor(s: AppView, i: usize)
    requires
        s.mode == AppMode::SelectIgnoredFiles,
        s.ignored_selected == Some(i),
        i < s.ignored_items.len(),
        s.ignored_items.len() <= usize::MAX,
    ensures
        i > 0 ==> on_key(s, Key::Up).0 == (AppView { ignored_selected: Some((i - 1) as usize), ..s }),
        i == 0 ==> on_key(s, Key::Up).0 == s,
        i + 1 < s.ignored_items.len() ==> on_key(s, Key::Down).0 == (AppView { ignored_selected: Some((i + 1) as usize), ..s }),
        i + 1 == s.ignored_items.len() ==> on_key(s, Key::Down).0 == s,
        i + 1 < s.ignored_items.len() ==> on_key(on_key(s, Key::Down).0, Key::Up).0 == s,
{
    if i + 1 < s.ignored_items.len() {
        let t = on_key(s, Key::Down).0;
        assert(t == AppView { ignored_selected: Some((i + 1) as usize), ..s });
        assert(on_key(t, Key::Up).0 =~= s);
    }
}

/// Space flips the selection of the file under the cursor and of no other,
/// and changes nothing else.
pub proof fn law_space_flips_current(s: AppView, i: usize)
    requires
        s.mode == AppMode::SelectIgnoredFiles,
        s.ignored_selected == Some(i),
        i < s.ignored_items.len(),
    ensures
        ({
            let t = on_key(s, Key::Char(' ')).0;
            &&& t == AppView { ignored_items: t.ignored_items, ..s }
            &&& t.ignored_items.len() == s.ignored_items.len()
            &&& t.ignored_items[i as int].selected == !s.ignored_items[i as int].selected
            &&& t.ignored_items[i as int].path == s.ignored_items[i as int].path
            &&& t.ignored_items[i as int].is_dir == s.ignored_items[i as int].is_dir
            &&& forall|j: int| 0 <= j < s.ignored_items.len() && j != i ==> t.ignored_items[j] == s.ignored_items[j]
        }),
{
}

/// 'a' selects every file, or, where every file was selected, none; the
/// files stay, and nothing else changes.
pub proof fn law_a_selects_all(s: AppView)
    requires
        s.mode == AppMode::SelectIgnoredFiles,
    ensures
        ({
            let t = on_key(s, Key::Char('a')).0;
            let all = forall|j: int| 0 <= j < s.ignored_items.len() ==> (#[trigger] s.ignored_items[j]).selected;
            &&& t == AppView { ignored_items: t.ignored_items, ..s }
            &&& t.ignored_items.len() == s.ignored_items.len()
            &&& forall|j: int| 0 <= j < t.ignored_items.len() ==> (#[trigger] t.ignored_items[j]).selected == !all
                && t.ignored_items[j].path == s.ignored_items[j].path && t.ignored_items[j].is_dir == s.ignored_items[j].is_dir
        }),
{
}

// ---------------------------------------------------------------------------
// Copying the ignored files
// ---------------------------------------------------------------------------

/// The selected items, in order.
pub open spec fn selected_of(items: Seq<IgnoredItemView>) -> Seq<IgnoredItemView> {
    items.filter(|it: IgnoredItemView| it.selected)
}

/// The copies are those of the selected items, in their order and no other:
/// each from the item's path to its place under the target directory, and a
/// directory copy exactly when the item is a directory.
pub proof fn law_copy_steps(repo: Seq<char>, items: Seq<IgnoredItemView>, target_dir: Seq<char>)
    ensures
        ({
            let sel = selected_of(items);
            let st = copy_steps(repo, items, target_dir);
            &&& st.len() == sel.len()
            &&& forall|k: int| 0 <= k < st.len() ==> {
                &&& (#[trigger] st[k]).source == sel[k].path
                &&& st[k].is_dir == sel[k].is_dir
                &&& st[k].target == join_paths(target_dir, relative_to(sel[k].path, repo))
            }
        }),
    decreases items.len(),
{
    if items.len() > 0 {
        reveal(Seq::filter);
        law_copy_steps(repo, items.drop_last(), target_dir);
        let sel = selected_of(items);
        let sel0 = selected_of(items.drop_last());
        let st = copy_steps(repo, items, target_dir);
        let st0 = copy_steps(repo, items.drop_last(), target_dir);
        if items.last().selected {
            assert(sel == sel0.push(items.last()));
            assert forall|k: int| 0 <= k < st.len() implies {
                &&& (#[trigger] st[k]).source == sel[k].path
                &&& st[k].is_dir == sel[k].is_dir
                &&& st[k].target == join_paths(target_dir, relative_to(sel[k].path, repo))
            } by {
                if k < st0.len() {
                    assert(st[k] == st0[k]);
                    assert(sel[k] == sel0[k]);
                }
            }
        } else {
            assert(sel == sel0);
        }
    }
}

// ---------------------------------------------------------------------------
// The ignored files found
// ---------------------------------------------------------------------------

/// The `i`-th entry that `glob` gave for the `j`-th pattern, where there is
/// one and it could be read: a path with whether it is a directory.
pub open spec fn found_entry(ms: Seq<Option<Seq<Option<(Seq<char>, bool)>>>>, j: int, i: int) -> Option<(Seq<char>, bool)> {
    if 0 <= j < ms.len() {
        match ms[j] {
            Some(es) => if 0 <= i < es.len() {
                es[i]
            } else {
                None
            },
            None => None,
        }
    } else {
        None
    }
}

proof fn lemma_readable_members(es: Seq<Option<(Seq<char>, bool)>>)
    ensures
        forall|i: int| 0 <= i < es.len() && (#[trigger] es[i]) is Some ==> readable(es).contains(es[i]->0),
        forall|k: int| 0 <= k < readable(es).len() ==> exists|i: int| 0 <= i < es.len()
            && (#[trigger] es[i]) == Some(#[trigger] readable(es)[k]),
    decreases es.len(),
{
    if es.len() > 0 {
        let p = es.drop_last();
        let r = readable(p);
        let q = readable(es);
        lemma_readable_members(p);
        assert(forall|i: int| 0 <= i < p.len() ==> #[trigger] p[i] == es[i]);
        assert(forall|k: int| 0 <= k < r.len() ==> #[trigger] q[k] == r[k]);
        assert forall|i: int| 0 <= i < es.len() && (#[trigger] es[i]) is Some implies q.contains(es[i]->0) by {
            if i < p.len() {
                assert(p[i] == es[i]);
                let k = choose|k: int| 0 <= k < r.len() && r[k] == p[i]->0;
                assert(q[k] == r[k]);
            } else {
                assert(es[i] == es.last());
                assert(q[r.len() as int] == es.last()->0);
            }
        }
        assert forall|k: int| 0 <= k < q.len() implies exists|i: int| 0 <= i < es.len()
            && (#[trigger] es[i]) == Some(#[trigger] q[k]) by {
            if k < r.len() {
                let i = choose|i: int| 0 <= i < p.len() && (#[trigger] p[i]) == Some(#[trigger] r[k]);
                assert(es[i] == p[i]);
            } else {
                assert(es[es.len() - 1] == es.last());
            }
        }
    }
}

proof fn lemma_readable_matches_members(ms: Seq<Option<Seq<Option<(Seq<char>, bool)>>>>)
    ensures
        forall|j: int, i: int| (#[trigger] found_entry(ms, j, i)) is Some
            ==> readable_matches(ms).contains(found_entry(ms, j, i)->0),
        forall|k: int| 0 <= k < readable_matches(ms).len() ==> exists|j: int, i: int|
            (#[trigger] found_entry(ms, j, i)) == Some(#[trigger] readable_matches(ms)[k]),
    decreases ms.len(),
{
    if ms.len() > 0 {
        let p = ms.drop_last();
        let r = readable_matches(p);
        let q = readable_matches(ms);
        lemma_readable_matches_members(p);
        assert(forall|j: int, i: int| 0 <= j < p.len() ==> #[trigger] found_entry(p, j, i) == found_entry(ms, j, i));
        assert(forall|k: int| 0 <= k < r.len() ==> #[trigger] q[k] == r[k]);
        let n = ms.len() - 1;
        match ms.last() {
            Some(es) => {
                lemma_readable_members(es);
                let e = readable(es);
                assert(q == r + e);
                assert(forall|i: int| #[trigger] found_entry(ms, n, i) == if 0 <= i < es.len() { es[i] } else { None });
                assert forall|j: int, i: int| (#[trigger] found_entry(ms, j, i)) is Some
                    implies q.contains(found_entry(ms, j, i)->0) by {
                    if j < n {
                        assert(found_entry(p, j, i) == found_entry(ms, j, i));
                        let k = choose|k: int| 0 <= k < r.len() && r[k] == found_entry(p, j, i)->0;
                        assert(q[k] == r[k]);
                    } else {
                        assert(es[i] is Some);
                        let k = choose|k: int| 0 <= k < e.len() && e[k] == es[i]->0;
                        assert(q[r.len() + k] == e[k]);
                    }
                }
                assert forall|k: int| 0 <= k < q.len() implies exists|j: int, i: int|
                    (#[trigger] found_entry(ms, j, i)) == Some(#[trigger] q[k]) by {
                    if k < r.len() {
                        let (j, i) = choose|j: int, i: int| (#[trigger] found_entry(p, j, i)) == Some(#[trigger] r[k]);
                        assert(found_entry(ms, j, i) == found_entry(p, j, i));
                    } else {
                        let k2 = k - r.len();
                        assert(q[k] == e[k2]);
                        let i = choose|i: int| 0 <= i < es.len() && (#[trigger] es[i]) == Some(#[trigger] e[k2]);
                        assert(found_entry(ms, n, i) == es[i]);
                    }
                }
            },
            None => {
                assert(q == r);
                assert(forall|i: int| #[trigger] found_entry(ms, n, i) is None);
                assert forall|j: int, i: int| (#[trigger] found_entry(ms, j, i)) is Some
                    implies q.contains(found_entry(ms, j, i)->0) by {
                    assert(found_entry(p, j, i) == found_entry(ms, j, i));
                }
                assert forall|k: int| 0 <= k < q.len() implies exists|j: int, i: int|
                    (#[trigger] found_entry(ms, j, i)) == Some(#[trigger] q[k]) by {
                    let (j, i) = choose|j: int, i: int| (#[trigger] found_entry(p, j, i)) == Some(#[trigger] r[k]);
                    assert(found_entry(ms, j, i) == found_entry(p, j, i));
                }
            },
        }
    }
}

/// Each item of `first_occurrences(c)` is one of the found paths, with
/// whether it is a directory as found, and not selected.
proof fn lemma_first_occurrences_entries(c: Seq<(Seq<char>, bool)>)
    ensures
        forall|m: int| 0 <= m < first_occurrences(c).len() ==> exists|k: int| 0 <= k < c.len()
            && #[trigger] first_occurrences(c)[m] == (IgnoredItemView { path: (#[trigger] c[k]).0, is_dir: c[k].1, selected: false }),
    decreases c.len(),
{
    if c.len() > 0 {
        let p = c.drop_last();
        let r = first_occurrences(p);
        let fo = first_occurrences(c);
        lemma_first_occurrences_entries(p);
        assert(forall|k: int| 0 <= k < p.len() ==> #[trigger] p[k] == c[k]);
        assert forall|m: int| 0 <= m < fo.len() implies exists|k: int| 0 <= k < c.len()
            && #[trigger] fo[m] == (IgnoredItemView { path: (#[trigger] c[k]).0, is_dir: c[k].1, selected: false }) by {
            if m < r.len() {
                assert(fo[m] == r[m]);
                let k = choose|k: int| 0 <= k < p.len()
                    && #[trigger] r[m] == (IgnoredItemView { path: (#[trigger] p[k]).0, is_dir: p[k].1, selected: false });
                assert(p[k] == c[k]);
            } else {
                assert(c[c.len() - 1] == c.last());
            }
        }
    }
}

#[verifier::spinoff_prover]
proof fn lemma_every_match_kept(ms: Seq<Option<Seq<Option<(Seq<char>, bool)>>>>, r: Seq<IgnoredItemView>)
    requires
        is_stable_sort(first_occurrences(readable_matches(ms)), r),
    ensures
        forall|j: int, i: int| (#[trigger] found_entry(ms, j, i)) is Some ==> exists|m: int| 0 <= m < r.len()
            && path_key(r[m].path) == path_key((found_entry(ms, j, i)->0).0),
{
    broadcast use vstd::seq_lib::group_to_multiset_ensures;

    let c = readable_matches(ms);
    let fo = first_occurrences(c);
    lemma_readable_matches_members(ms);
    lemma_first_occurrences_cover(c);
    assert forall|j: int, i: int| (#[trigger] found_entry(ms, j, i)) is Some implies exists|m: int| 0 <= m < r.len()
        && path_key(r[m].path) == path_key((found_entry(ms, j, i)->0).0) by {
        let x = found_entry(ms, j, i)->0;
        let k = choose|k: int| 0 <= k < c.len() && c[k] == x;
        let m0 = choose|m0: int| 0 <= m0 < fo.len()
            && path_key((#[trigger] fo[m0]).path) == path_key((#[trigger] c[k]).0);
        assert(fo.contains(fo[m0]));
        assert(r.to_multiset().count(fo[m0]) > 0);
        let m = choose|m: int| 0 <= m < r.len() && r[m] == fo[m0];
    }
}

#[verifier::spinoff_prover]
proof fn lemma_every_item_found(ms: Seq<Option<Seq<Option<(Seq<char>, bool)>>>>, r: Seq<IgnoredItemView>)
    requires
        is_stable_sort(first_occurrences(readable_matches(ms)), r),
    ensures
        forall|m: int| 0 <= m < r.len() ==> exists|j: int, i: int|
            #[trigger] found_entry(ms, j, i) == Some(((#[trigger] r[m]).path, r[m].is_dir)),
        forall|m: int| 0 <= m < r.len() ==> !(#[trigger] r[m]).selected,
{
    broadcast use vstd::seq_lib::group_to_multiset_ensures;

    let c = readable_matches(ms);
    let fo = first_occurrences(c);
    lemma_readable_matches_members(ms);
    lemma_first_occurrences_entries(c);
    assert forall|m: int| 0 <= m < r.len() implies (exists|j: int, i: int|
        #[trigger] found_entry(ms, j, i) == Some(((#[trigger] r[m]).path, r[m].is_dir))) && !r[m].selected by {
        assert(r.contains(r[m]));
        assert(fo.to_multiset().count(r[m]) > 0);
        let m0 = choose|m0: int| 0 <= m0 < fo.len() && fo[m0] == r[m];
        let k = choose|k: int| 0 <= k < c.len()
            && #[trigger] fo[m0] == (IgnoredItemView { path: (#[trigger] c[k]).0, is_dir: c[k].1, selected: false });
        let (j, i) = choose|j: int, i: int| (#[trigger] found_entry(ms, j, i)) == Some(#[trigger] c[k]);
        assert(c[k] == (r[m].path, r[m].is_dir));
    }
}

/// The list made from what `glob` gave (see `ignored_items_from_matches`)
/// holds every path that was given for some pattern and could be read (by
/// components, as paths are compared), and nothing else: every item is such
/// a path, with whether it is a directory as found for it, and none is
/// selected.
pub proof fn law_every_match_listed(ms: Seq<Option<Seq<Option<(Seq<char>, bool)>>>>, r: Seq<IgnoredItemView>)
    requires
        is_stable_sort(first_occurrences(readable_matches(ms)), r),
    ensures
        forall|j: int, i: int| (#[trigger] found_entry(ms, j, i)) is Some ==> exists|m: int| 0 <= m < r.len()
            && components(r[m].path) == components((found_entry(ms, j, i)->0).0),
        forall|m: int| 0 <= m < r.len() ==> exists|j: int, i: int|
            #[trigger] found_entry(ms, j, i) == Some(((#[trigger] r[m]).path, r[m].is_dir)),
        forall|m: int| 0 <= m < r.len() ==> !(#[trigger] r[m]).selected,
{
    lemma_every_match_kept(ms, r);
    lemma_every_item_found(ms, r);
    assert forall|m: int| 0 <= m < r.len() implies exists|j: int, i: int|
        #[trigger] found_entry(ms, j, i) == Some(((#[trigger] r[m]).path, r[m].is_dir)) by {
        let (j, i) = choose|j: int, i: int| #[trigger] found_entry(ms, j, i) == Some((r[m].path, r[m].is_dir));
        assert(found_entry(ms, j, i) == Some((r[m].path, r[m].is_dir)));
    }
    assert forall|j: int, i: int| (#[trigger] found_entry(ms, j, i)) is Some implies exists|m: int| 0 <= m < r.len()
        && components(r[m].path) == components((found_entry(ms, j, i)->0).0) by {
        let m = choose|m: int| 0 <= m < r.len() && path_key(r[m].path) == path_key((found_entry(ms, j, i)->0).0);
        assert(components(r[m].path) == components((found_entry(ms, j, i)->0).0)) by {
            reveal(path_key);
        }
    }
}

/// `path` is matched by one of the patterns `ps` that `glob` accepts.
pub open spec fn matched_by_some(ps: Seq<Seq<char>>, path: Seq<char>) -> bool {
    exists|j: int| 0 <= j < ps.len() && glob_accepts(#[trigger] ps[j]) && glob_matches(ps[j], path)
}

/// Whatever the file system holds, every file listed as ignored (see
/// `GitignoreManager::get_ignored_files`) is a path that one of the patterns
/// of `.gitignore` matches, a pattern that `glob` accepts.
pub proof fn law_listed_items_match(
    ps: Seq<Seq<char>>,
    ms: Seq<Option<Seq<Option<(Seq<char>, bool)>>>>,
    r: Seq<IgnoredItemView>,
)
    requires
        matches_of(ms, ps),
        is_stable_sort(first_occurrences(readable_matches(ms)), r),
    ensures
        forall|m: int| 0 <= m < r.len() ==> matched_by_some(ps, (#[trigger] r[m]).path),
{
    law_every_match_listed(ms, r);
    assert forall|m: int| 0 <= m < r.len() implies matched_by_some(ps, (#[trigger] r[m]).path) by {
        let (j, i) = choose|j: int, i: int| #[trigger] found_entry(ms, j, i) == Some((r[m].path, r[m].is_dir));
        assert(0 <= j < ms.len());
        assert(ms[j] is Some);
        let es = ms[j]->0;
        assert(0 <= i < es.len() && es[i] == Some((r[m].path, r[m].is_dir)));
        assert(glob_accepts(ps[j]));
        assert(es[i] matches Some(x) ==> glob_matches(ps[j], x.0));
        assert(glob_matches(ps[j], r[m].path));
    }
}

} // verus!
