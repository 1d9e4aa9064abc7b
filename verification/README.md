# harbor_light

A desktop status light for coding agents (Codex and Cursor). Provider hooks
report each conversation's state; the light shows red while one waits for the
user, yellow while one works, and green when all are done.

## Layout

- `src/` — the verified library (Verus). It holds the logic with its
  contracts and laws: hook payload normalization and salvage (`providers`,
  `hook`), the activity store's decisions and the display resolution
  (`activity`), Codex rollout-log inference (`sessions`), the lamp states
  (`status`), the hooks-file merge and removal (`install`, `install_laws`),
  window and tray decisions (`display`), a JSON model (`json`), paths, text
  and time helpers.
- `tests/` — tests of the library.
- `app/` — the program around it: command line, file and process I/O, the
  macOS and Windows user interfaces, and the serde and clap types.

`chrono` is called from the library for the clock and for RFC 3339
timestamps; the other outside crates are used by `app/` only.
