# sess

Save and reopen tmux sessions: windows, panes, layouts, working
directories, the commands that were running, and an allow-list of
environment variables.

The crate is in two parts.

- `src/` is the library, written in Verus and verified: how tmux output is
  read into a snapshot, the exact tmux commands that rebuild one, how each
  session is classified (running, saved, stale, broken), which files pruning
  removes, the listing and its order, the health checks of `sess doctor`,
  the picker's key handling, and every message and table the commands print.
- `app/` is the `sess` program around it: the command line, running tmux,
  reading `/proc`, the JSON snapshot files and the TOML config, the
  background auto-save process, and drawing the picker in the terminal.

`tests/` exercises the library on concrete values.
