# pragya

The logic of the PRAGYA desktop assistant, verified with Verus: the commands
it sends to WSL (speech, the opencode assistant, the model cascade, note
search, OCR of screenshots), how their output is read, the health checks and
report, service recovery, and the timestamps it writes.

- `src/` — the verified library. Every bridge builds a `ProcessRequest` and
  reads back a `ShellOutput` (or `WslOutput`); the polling decisions while a
  program runs are in `process`. Text handling (trimming, lines, quoting for
  the shell, decimal numbers, UTF-8 byte cuts) is in `text`, the calendar in
  `clock`.
- `app/` — the Tauri application around it: spawning processes, async tasks,
  files, the tray and the window's commands.
- `tests/` — tests of the library on concrete values.
