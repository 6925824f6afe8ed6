# Cutter

Git worktree manager for multi-repo projects, with its rules verified in Verus.

A *base* is a named list of local git repositories that belong together. A
*workspace* is a directory with one worktree per repository of a base, all on a
branch that has the workspace's name. A coding assistant can be launched in a
workspace, and its sessions are shown in a list and in a window.

## Layout

- `src/` is the library. It decides; it does no I/O. What has to be done outside
  comes out of it as plain values (arguments for `git`, files to write, the next
  step of a creation), and what came of it goes back in.
  - `config`, `workspace`, `error`, `cli`, `assistant`: what there is
  - `commands/`: bases, creating, assembling the assistant's directory, removing,
    listing, headless sessions
  - `git`, `pr`: what git and `gh` are asked, and what their answers mean
  - `session`: the sessions of the assistant and the hooks that report them
  - `window_manager`, `ai_link`: windows that are linked to a workspace
  - `term_input`: input for embedded terminals
  - `gui/`: panes, forms and what they show
  - `text`, `paths`, `table`, `order`, `json`, `time`: what the rest is built on
- `tests/` runs the library on concrete values.
- `app/` is the program around it: arguments, files, processes and the window.

Laws that hold across functions are public proof functions next to what they
speak of: for instance that nothing is created before every repository has been
checked (`commands::create::checked_first`), that a creation that fails is undone
(`undone`), that a removal that is to keep the files removes no worktree
(`commands::remove::files_kept`), that the hooks leave every other setting as it is
(`session::hooks_law`), and that pasted text cannot end its fence
(`term_input::paste_stays_fenced`).

## What is not proved

Parsing and printing JSON are `serde_json`'s, and the arithmetic and writing of
dates are `chrono`'s; the bits of terminal modes are `alacritty_terminal`'s. Each
call stands in a small function whose contract says what is taken for granted.

## Configuration

`~/.config/cutter` (or `CUTTER_CONFIG_DIR`) holds `config.toml`, one file per
workspace and one per session. `assistant.toml` there names the assistant:

```toml
title = "…"    # how it is spoken of
product = "…"  # what has to be installed
program = "…"  # what is run
dir = "…"      # the directory that it reads in a project
guide = "…"    # the file of instructions that it reads
```

`CUTTER_WORKSPACE_ROOT` overrides where workspaces are created (`~/cutter`).
