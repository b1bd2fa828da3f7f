# PaneView

A terminal UI that runs shells in split panes (each on its own
pseudo-terminal) beside a live view of the local system: CPU, memory,
disks, network traffic and interfaces.

## Layout

- `src/` is the library, verified with Verus: the pane layout tree and its
  rectangles, the prefix/scroll-mode key state machine and the bytes keys
  send to a shell, the application state machine (focus, split, close,
  scroll, paste), the screen regions, the status bar text, the terminal
  cell styling, the directory listing, the interface list, byte and
  duration formatting, and the command-line decisions (commands, release
  tags, platform targets, checksums).
- `app/` is the program around it: the main loop, the pseudo-terminals and
  their reader threads, system sampling, drawing with ratatui, and the
  update commands that run `curl`, `tar` and the SHA-256 tools.
- `tests/` holds the library's tests.

Laws that span several functions are stated and proved as public proof
functions named `law_*`.
