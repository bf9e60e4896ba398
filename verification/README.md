# worktree_admin

A terminal tool for managing the git worktrees of a repository: list them,
create one (on a new or an existing branch), remove and prune them, and copy
the files that `.gitignore` matches (build output, local settings) into a new
worktree.

The library under `src/` is verified with Verus:

- `text`: lines, trimming, splitting and joining of texts.
- `path`: Unix path components, `file_name`, `parent`, `strip_prefix` and
  `join`, with the order in which paths sort (`order`).
- `worktree`: the git commands, reading `git worktree list --porcelain` and
  `git branch -a`, and the error messages.
- `gitignore`: the glob patterns that `.gitignore` gives, the files they
  match (through the `glob` crate), their order, and the plan for copying the
  selected ones.
- `app`: the application as a state machine: a key or the outcome of some
  outside work comes in, the next state and the next outside work come out.
- `ui`: the texts and sizes that the screens show.
- `laws`: properties that hold across calls, proved.

`app/` is the terminal front end (crossterm, ratatui): it reads keys, draws
the screens, runs git and copies files, as the library asks.
