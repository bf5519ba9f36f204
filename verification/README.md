# note

A terminal note-taking tool (CLI and TUI over one SQLite file), whose core is
a library verified with Verus.

- `src/` — the verified library `note`: note ids (ULID text and order), tags
  and sorted tag sets, title derivation, `[[wikilink]]` parsing and extraction,
  the markdown interchange format (exact parse, and export that reads back to
  the same note), and the decision logic of the store (what each write
  persists, how references and links resolve, how rows read back), of the
  command line and of the terminal browser (a state machine whose every update
  keeps the selection in bounds).
- `tests/` — tests of the library's public surface.
- `app/` — the `note` program around it: argument parsing (clap), the
  configuration (figment), the SQLite store (rusqlite, refinery), the editor,
  the `fzf` picker, JSON (serde), styled output (termimad) and the terminal
  browser (ratatui).
