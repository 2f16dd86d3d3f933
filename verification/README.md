# wgit

A GPU-rendered Git client: a file list grouped by staged, unstaged and
untracked changes, a syntax-highlighted diff of the selected file, and
keyboard-driven staging, committing, fetching, pulling, pushing, branch
switching and repository picking.

## Layout

- `src/` — the verified library (Verus):
  - `git_model.rs`: `git status` / `git diff` parsing, branch tracking,
    the repository model and its selection, the Git invocations and their
    arguments, and the file-list and diff documents.
  - `syntax.rs`: hunk sources handed to tree-sitter and the colour spans
    its tokens give each diff line.
  - `theme.rs`: the theme file reader, hex colours and bundled themes.
  - `ui.rs`: status line, key handling, pickers, the commit message editor,
    prompts, toolbar buttons and the folder browser's ordering.
  - `repo_store.rs`: the recent-repositories list and its file format.
  - `render.rs`: the glyph atlas shelf packer.
  - `icon.rs`: SVG path data tokens, drawing steps and their subpaths.
  - `cli.rs`: command-line theme and repository selection.
  - `commands.rs`: the user commands, their safety tiers and the steps
    that carry them out.
  - `models.rs`, `text.rs`: shared types and text helpers.
- `app/` — the program around it: window and GPU setup, rendering in
  floating point, running `git`, reading and writing files.
- `tests/` — tests of the library.
