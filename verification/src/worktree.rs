use vstd::prelude::*;
use crate::text::{
    chars_of, string_of, lines, lines_of, has_prefix, starts_with, skip_from, same_chars,
    trimmed, trimmed_start_char, trim, trim_start_char, views,
};
use crate::path::{file_name, path_file_name};

verus! {

broadcast use vstd::string::group_string_axioms;

/// A worktree of the repository, as `git worktree list --porcelain` reports it.
#[derive(Debug, Clone)]
pub struct Worktree {
    pub path: String,
    pub branch: String,
    pub commit: String,
    pub is_bare: bool,
    pub is_detached: bool,
    pub is_prunable: bool,
}

/// What a `Worktree` holds, as plain values.
pub struct WorktreeView {
    pub path: Seq<char>,
    pub branch: Seq<char>,
    pub commit: Seq<char>,
    pub is_bare: bool,
    pub is_detached: bool,
    pub is_prunable: bool,
}

impl View for Worktree {
    type V = WorktreeView;

    open spec fn view(&self) -> WorktreeView {
        WorktreeView {
            path: self.path@,
            branch: self.branch@,
            commit: self.commit@,
            is_bare: self.is_bare,
            is_detached: self.is_detached,
            is_prunable: self.is_prunable,
        }
    }
}

/// The views of a sequence of worktrees.
pub open spec fn worktree_views(ws: Seq<Worktree>) -> Seq<WorktreeView> {
    ws.map_values(|w: Worktree| w@)
}

/// The views of a sequence of strings.
pub open spec fn string_views(ss: Seq<String>) -> Seq<Seq<char>> {
    ss.map_values(|s: String| s@)
}

/// The name shown for a path whose final component is not a normal one.
pub open spec fn unknown_name() -> Seq<char> {
    "unknown"@
}

/// The name of the worktree at `path`: its final component, or "unknown".
pub open spec fn worktree_name(path: Seq<char>) -> Seq<char> {
    match file_name(path) {
        Some(n) => n,
        None => unknown_name(),
    }
}

impl Worktree {
    /// The name of the worktree: the final component of its path, or "unknown".
    pub fn name(&self) -> (n: String)
        ensures
            n@ == worktree_name(self.path@),
    {
        let p = chars_of(self.path.as_str());
        match path_file_name(&p) {
            Some(n) => string_of(n.as_slice()),
            None => String::from_str("unknown"),
        }
    }
}

// ---------------------------------------------------------------------------
// Reading `git worktree list --porcelain`
// ---------------------------------------------------------------------------

/// The tag of a line that begins a worktree.
pub open spec fn worktree_tag() -> Seq<char> {
    "worktree "@
}

/// The tag of a line that gives the commit.
pub open spec fn head_tag() -> Seq<char> {
    "HEAD "@
}

/// The tag of a line that gives the branch.
pub open spec fn branch_tag() -> Seq<char> {
    "branch "@
}

/// The word of a line that marks a detached head, and the branch then shown.
pub open spec fn detached_word() -> Seq<char> {
    "detached"@
}

/// Where the reading of the porcelain lines stands: the worktree being read
/// (its path and commit), the branch seen last, and the worktrees finished.
pub struct PorcelainState {
    pub current: Option<(Seq<char>, Seq<char>)>,
    pub branch: Seq<char>,
    pub found: Seq<WorktreeView>,
}

/// The worktree with the given path, commit and branch.
pub open spec fn make_worktree(path: Seq<char>, commit: Seq<char>, branch: Seq<char>) -> WorktreeView {
    WorktreeView {
        path,
        branch,
        commit,
        is_bare: false,
        is_detached: branch == detached_word(),
        is_prunable: false,
    }
}

/// The effect of one line of the porcelain output.
pub open spec fn porcelain_step(st: PorcelainState, line: Seq<char>) -> PorcelainState {
    if starts_with(line, worktree_tag()) {
        PorcelainState {
            current: Some((line.skip(worktree_tag().len() as int), Seq::<char>::empty())),
            ..st
        }
    } else if starts_with(line, head_tag()) {
        match st.current {
            Some((p, _)) => PorcelainState {
                current: Some((p, line.skip(head_tag().len() as int))),
                ..st
            },
            None => st,
        }
    } else if starts_with(line, branch_tag()) {
        PorcelainState { branch: line.skip(branch_tag().len() as int), ..st }
    } else if starts_with(line, detached_word()) {
        PorcelainState { branch: detached_word(), ..st }
    } else if line.len() == 0 && st.current is Some {
        let (p, c) = st.current->0;
        PorcelainState {
            current: None,
            branch: Seq::<char>::empty(),
            found: st.found.push(make_worktree(p, c, st.branch)),
        }
    } else {
        st
    }
}

/// The state after reading `ls` from the start.
pub open spec fn porcelain_run(ls: Seq<Seq<char>>) -> PorcelainState
    decreases ls.len(),
{
    if ls.len() == 0 {
        PorcelainState { current: None, branch: Seq::<char>::empty(), found: Seq::empty() }
    } else {
        porcelain_step(porcelain_run(ls.drop_last()), ls.last())
    }
}

/// The worktrees read once the lines are over: a worktree still being read counts too.
pub open spec fn porcelain_finish(st: PorcelainState) -> Seq<WorktreeView> {
    match st.current {
        Some((p, c)) => st.found.push(make_worktree(p, c, st.branch)),
        None => st.found,
    }
}

/// The worktrees that the porcelain output `text` describes.
pub open spec fn parse_porcelain(text: Seq<char>) -> Seq<WorktreeView> {
    porcelain_finish(porcelain_run(lines_of(text)))
}

fn make_worktree_exec(path: &Vec<char>, commit: &Vec<char>, branch: &Vec<char>, detached: &Vec<char>) -> (w: Worktree)
    requires
        detached@ == detached_word(),
    ensures
        w@ == make_worktree(path@, commit@, branch@),
{
    Worktree {
        path: string_of(path.as_slice()),
        branch: string_of(branch.as_slice()),
        commit: string_of(commit.as_slice()),
        is_bare: false,
        is_detached: same_chars(branch, detached),
        is_prunable: false,
    }
}

/// The worktrees described by the output of `git worktree list --porcelain`.
pub fn parse_worktree_list(stdout: &str) -> (ws: Vec<Worktree>)
    ensures
        worktree_views(ws@) == parse_porcelain(stdout@),
{
    let text = chars_of(stdout);
    let ls = lines(&text);
    let wt_tag = chars_of("worktree ");
    let head = chars_of("HEAD ");
    let br_tag = chars_of("branch ");
    let detached = chars_of("detached");
    let mut current: Option<(Vec<char>, Vec<char>)> = None;
    let mut branch: Vec<char> = Vec::new();
    let mut found: Vec<Worktree> = Vec::new();
    let mut i: usize = 0;
    while i < ls.len()
        invariant
            i <= ls@.len(),
            views(ls@) == lines_of(text@),
            text@ == stdout@,
            wt_tag@ == worktree_tag(),
            head@ == head_tag(),
            br_tag@ == branch_tag(),
            detached@ == detached_word(),
            ({
                let st = porcelain_run(views(ls@).take(i as int));
                &&& worktree_views(found@) == st.found
                &&& branch@ == st.branch
                &&& match current {
                    Some((p, c)) => st.current == Some((p@, c@)),
                    None => st.current is None,
                }
            }),
        decreases ls@.len() - i,
    {
        let line = &ls[i];
        proof {
            assert(views(ls@).take(i + 1).drop_last() =~= views(ls@).take(i as int));
            assert(views(ls@).take(i + 1).last() == line@);
        }
        if has_prefix(line, &wt_tag) {
            current = Some((skip_from(line, wt_tag.len()), Vec::new()));
        } else if has_prefix(line, &head) {
            match current {
                Some((p, _)) => {
                    current = Some((p, skip_from(line, head.len())));
                },
                None => {},
            }
        } else if has_prefix(line, &br_tag) {
            branch = skip_from(line, br_tag.len());
        } else if has_prefix(line, &detached) {
            branch = detached.clone();
        } else if line.len() == 0 && current.is_some() {
            let (p, c) = current.unwrap();
            let w = make_worktree_exec(&p, &c, &branch, &detached);
            let ghost before = found@;
            found.push(w);
            assert(worktree_views(found@) =~= worktree_views(before).push(w@));
            branch = Vec::new();
            current = None;
        }
        i = i + 1;
    }
    assert(views(ls@).take(ls@.len() as int) =~= views(ls@));
    match current {
        Some((p, c)) => {
            let w = make_worktree_exec(&p, &c, &branch, &detached);
            let ghost before = found@;
            found.push(w);
            assert(worktree_views(found@) =~= worktree_views(before).push(w@));
        },
        None => {},
    }
    found
}

// ---------------------------------------------------------------------------
// Reading `git branch -a`
// ---------------------------------------------------------------------------

/// The beginning of a remote branch's name.
pub open spec fn remotes_tag() -> Seq<char> {
    "remotes/"@
}

/// The branch that a line of `git branch -a` names, unless it is a remote one:
/// the line without its leading '*'s and surrounding white space.
pub open spec fn branch_entry(line: Seq<char>) -> Option<Seq<char>> {
    let b = trim(trim_start_char(line, '*'));
    if starts_with(b, remotes_tag()) {
        None
    } else {
        Some(b)
    }
}

/// The branches that the lines `ls` name, in order.
pub open spec fn branch_entries(ls: Seq<Seq<char>>) -> Seq<Seq<char>>
    decreases ls.len(),
{
    if ls.len() == 0 {
        Seq::empty()
    } else {
        let r = branch_entries(ls.drop_last());
        match branch_entry(ls.last()) {
            Some(b) => r.push(b),
            None => r,
        }
    }
}

/// The local branches that the output of `git branch -a` lists.
pub fn parse_branches(stdout: &str) -> (bs: Vec<String>)
    ensures
        string_views(bs@) == branch_entries(lines_of(stdout@)),
{
    let text = chars_of(stdout);
    let ls = lines(&text);
    let remotes = chars_of("remotes/");
    let mut bs: Vec<String> = Vec::new();
    let mut i: usize = 0;
    while i < ls.len()
        invariant
            i <= ls@.len(),
            views(ls@) == lines_of(stdout@),
            remotes@ == remotes_tag(),
            string_views(bs@) == branch_entries(views(ls@).take(i as int)),
        decreases ls@.len() - i,
    {
        proof {
            assert(views(ls@).take(i + 1).drop_last() =~= views(ls@).take(i as int));
            assert(views(ls@).take(i + 1).last() == ls@[i as int]@);
        }
        let b = trimmed(&trimmed_start_char(&ls[i], '*'));
        if !has_prefix(&b, &remotes) {
            let ghost before = bs@;
            bs.push(string_of(b.as_slice()));
            assert(string_views(bs@) =~= string_views(before).push(b@));
        }
        i = i + 1;
    }
    assert(views(ls@).take(ls@.len() as int) =~= views(ls@));
    bs
}

// ---------------------------------------------------------------------------
// The git commands
// ---------------------------------------------------------------------------

/// A git command to run: its arguments, the directory to run it in, and the
/// words that name it in error messages.
#[derive(Debug)]
pub struct GitCommand {
    pub args: Vec<String>,
    pub current_dir: String,
    pub label: String,
}

/// What a `GitCommand` holds, as plain values.
#[verifier::ext_equal]
pub struct GitCommandView {
    pub args: Seq<Seq<char>>,
    pub current_dir: Seq<char>,
    pub label: Seq<char>,
}

impl View for GitCommand {
    type V = GitCommandView;

    open spec fn view(&self) -> GitCommandView {
        GitCommandView { args: string_views(self.args@), current_dir: self.current_dir@, label: self.label@ }
    }
}

/// The command with the arguments `args`, run in `repo`, named `label`.
pub open spec fn git_command(args: Seq<Seq<char>>, repo: Seq<char>, label: Seq<char>) -> GitCommandView {
    GitCommandView { args, current_dir: repo, label }
}

/// `git worktree list --porcelain`, run in `repo`.
pub open spec fn list_command(repo: Seq<char>) -> GitCommandView {
    git_command(seq!["worktree"@, "list"@, "--porcelain"@], repo, "git worktree list"@)
}

/// `git worktree add <target> -b <branch>`, run in `repo`.
pub open spec fn create_command(repo: Seq<char>, branch: Seq<char>, path: Option<Seq<char>>) -> GitCommandView {
    git_command(
        seq!["worktree"@, "add"@, worktree_target(branch, path), "-b"@, branch],
        repo,
        "git worktree add"@,
    )
}

/// `git worktree add <target> <branch>`, run in `repo`.
pub open spec fn create_from_branch_command(repo: Seq<char>, branch: Seq<char>, path: Option<Seq<char>>) -> GitCommandView {
    git_command(seq!["worktree"@, "add"@, worktree_target(branch, path), branch], repo, "git worktree add"@)
}

/// `git worktree remove <path>`, run in `repo`.
pub open spec fn remove_command(repo: Seq<char>, path: Seq<char>) -> GitCommandView {
    git_command(seq!["worktree"@, "remove"@, path], repo, "git worktree remove"@)
}

/// `git worktree prune`, run in `repo`.
pub open spec fn prune_command(repo: Seq<char>) -> GitCommandView {
    git_command(seq!["worktree"@, "prune"@], repo, "git worktree prune"@)
}

/// `git branch -a`, run in `repo`.
pub open spec fn branches_command(repo: Seq<char>) -> GitCommandView {
    git_command(seq!["branch"@, "-a"@], repo, "git branch"@)
}

/// The message when a command could not be started.
pub open spec fn spawn_error_message(label: Seq<char>) -> Seq<char> {
    "Failed to execute "@ + label
}

/// The message when a command ran and failed.
pub open spec fn status_error_message(label: Seq<char>, stderr: Seq<char>) -> Seq<char> {
    label + " failed: "@ + stderr
}

/// The message when the command named `label` could not be started.
pub fn spawn_failure(label: &str) -> (m: String)
    ensures
        m@ == spawn_error_message(label@),
{
    let mut m = String::from_str("Failed to execute ");
    m.append(label);
    m
}

/// The message when the command named `label` ran and failed, with what it
/// wrote to stderr.
pub fn status_failure(label: &str, stderr: &str) -> (m: String)
    ensures
        m@ == status_error_message(label@, stderr@),
{
    let mut m = String::from_str(label);
    m.append(" failed: ");
    m.append(stderr);
    m
}

/// `Ok` when the command named `label` succeeded, else the error message.
pub fn check_status(label: &str, success: bool, stderr: &str) -> (r: Result<(), String>)
    ensures
        success ==> r is Ok,
        !success ==> (r matches Err(m) && m@ == status_error_message(label@, stderr@)),
{
    if success {
        Ok(())
    } else {
        Err(status_failure(label, stderr))
    }
}

impl GitCommand {
    /// The message when the command could not be started.
    pub fn spawn_error(&self) -> (m: String)
        ensures
            m@ == spawn_error_message(self.label@),
    {
        spawn_failure(self.label.as_str())
    }

    /// The message when the command ran and failed, with what it wrote to stderr.
    pub fn status_error(&self, stderr: &str) -> (m: String)
        ensures
            m@ == status_error_message(self.label@, stderr@),
    {
        status_failure(self.label.as_str(), stderr)
    }

    /// `Ok` when the command succeeded, else the error message.
    pub fn check(&self, success: bool, stderr: &str) -> (r: Result<(), String>)
        ensures
            success ==> r is Ok,
            !success ==> (r matches Err(m) && m@ == status_error_message(self.label@, stderr@)),
    {
        check_status(self.label.as_str(), success, stderr)
    }
}

/// A list of arguments that holds `a` alone.
fn first_arg(a: &str) -> (v: Vec<String>)
    ensures
        string_views(v@) == seq![a@],
{
    let mut v: Vec<String> = Vec::new();
    v.push(String::from_str(a));
    assert(string_views(v@) =~= seq![a@]);
    v
}

/// `a` added at the end of the arguments.
fn push_str_arg(v: &mut Vec<String>, a: &str)
    ensures
        string_views(final(v)@) == string_views(old(v)@).push(a@),
{
    let ghost before = v@;
    v.push(String::from_str(a));
    assert(string_views(v@) =~= string_views(before).push(a@));
}

/// Manages the worktrees of the repository at `repo_path` through git.
pub struct WorktreeManager {
    pub repo_path: String,
}

/// The place of a new worktree: the given path, or `../<branch>`.
pub open spec fn worktree_target(branch_name: Seq<char>, path: Option<Seq<char>>) -> Seq<char> {
    match path {
        Some(p) => p,
        None => "../"@ + branch_name,
    }
}

/// The views of an optional text.
pub open spec fn opt_view(o: Option<&str>) -> Option<Seq<char>> {
    match o {
        Some(s) => Some(s@),
        None => None,
    }
}

impl WorktreeManager {
    /// The manager of the repository at `repo_path`.
    pub fn new(repo_path: String) -> (m: Self)
        ensures
            m.repo_path@ == repo_path@,
    {
        Self { repo_path }
    }

    /// The command with the arguments `args`, run in the repository.
    fn command(&self, args: Vec<String>, label: &str) -> (c: GitCommand)
        ensures
            c@ == git_command(string_views(args@), self.repo_path@, label@),
    {
        GitCommand { args, current_dir: self.repo_path.clone(), label: String::from_str(label) }
    }

    /// `git worktree list --porcelain`, run in the repository.
    pub fn list(&self) -> (c: GitCommand)
        ensures
            c@ == list_command(self.repo_path@),
    {
        let mut args = first_arg("worktree");
        push_str_arg(&mut args, "list");
        push_str_arg(&mut args, "--porcelain");
        self.command(args, "git worktree list")
    }

    /// The worktrees that a run of `list` reported: the status checked first,
    /// then its output read.
    pub fn list_result(cmd: &GitCommand, success: bool, stdout: &str, stderr: &str) -> (r: Result<Vec<Worktree>, String>)
        ensures
            success ==> (r matches Ok(ws) && worktree_views(ws@) == parse_porcelain(stdout@)),
            !success ==> (r matches Err(m) && m@ == status_error_message(cmd.label@, stderr@)),
    {
        match cmd.check(success, stderr) {
            Ok(()) => Ok(parse_worktree_list(stdout)),
            Err(m) => Err(m),
        }
    }

    fn target_arg(branch_name: &str, path: Option<&str>) -> (a: String)
        ensures
            a@ == worktree_target(branch_name@, opt_view(path)),
    {
        match path {
            Some(p) => String::from_str(p),
            None => {
                let mut a = String::from_str("../");
                a.append(branch_name);
                a
            },
        }
    }

    /// `git worktree add <path> -b <branch>`: a new branch in a new worktree,
    /// at `path` or else at `../<branch>`.
    pub fn create(&self, branch_name: &str, path: Option<&str>) -> (c: GitCommand)
        ensures
            c@ == create_command(self.repo_path@, branch_name@, opt_view(path)),
    {
        let mut args = first_arg("worktree");
        push_str_arg(&mut args, "add");
        let t = Self::target_arg(branch_name, path);
        let ghost before = args@;
        args.push(t);
        assert(string_views(args@) =~= string_views(before).push(t@));
        push_str_arg(&mut args, "-b");
        push_str_arg(&mut args, branch_name);
        self.command(args, "git worktree add")
    }

    /// `git worktree add <path> <branch>`: an existing branch in a new
    /// worktree, at `path` or else at `../<branch>`.
    pub fn create_from_branch(&self, branch_name: &str, path: Option<&str>) -> (c: GitCommand)
        ensures
            c@ == create_from_branch_command(self.repo_path@, branch_name@, opt_view(path)),
    {
        let mut args = first_arg("worktree");
        push_str_arg(&mut args, "add");
        let t = Self::target_arg(branch_name, path);
        let ghost before = args@;
        args.push(t);
        assert(string_views(args@) =~= string_views(before).push(t@));
        push_str_arg(&mut args, branch_name);
        self.command(args, "git worktree add")
    }

    /// `git worktree remove <path>`.
    pub fn remove(&self, path: &str) -> (c: GitCommand)
        ensures
            c@ == remove_command(self.repo_path@, path@),
    {
        let mut args = first_arg("worktree");
        push_str_arg(&mut args, "remove");
        push_str_arg(&mut args, path);
        self.command(args, "git worktree remove")
    }

    /// `git worktree prune`.
    pub fn prune(&self) -> (c: GitCommand)
        ensures
            c@ == prune_command(self.repo_path@),
    {
        let mut args = first_arg("worktree");
        push_str_arg(&mut args, "prune");
        self.command(args, "git worktree prune")
    }

    /// `git branch -a`.
    pub fn get_branches(&self) -> (c: GitCommand)
        ensures
            c@ == branches_command(self.repo_path@),
    {
        let mut args = first_arg("branch");
        push_str_arg(&mut args, "-a");
        self.command(args, "git branch")
    }

    /// The branches that a run of `get_branches` reported: the status checked
    /// first, then its output read.
    pub fn branches_result(cmd: &GitCommand, success: bool, stdout: &str, stderr: &str) -> (r: Result<Vec<String>, String>)
        ensures
            success ==> (r matches Ok(bs) && string_views(bs@) == branch_entries(lines_of(stdout@))),
            !success ==> (r matches Err(m) && m@ == status_error_message(cmd.label@, stderr@)),
    {
        match cmd.check(success, stderr) {
            Ok(()) => Ok(parse_branches(stdout)),
            Err(m) => Err(m),
        }
    }
}

} // verus!
