# RetroSync core

Keeps emulator saves, savestates and configuration in sync with Google Drive.
This crate holds the decisions, stated as contracts and proved with Verus:

- `sync::conflict` — what to do with one file from its two mtimes and the pair
  recorded at the last sync; `sync::diff` — the plan of a category;
  `sync::engine` — outcomes, summaries, upload folders, batch eligibility
  and chunks; `sync::run` — the steps of a run: which emulators it covers
  (one with a pending conflict stays blocked), the sync of a category from
  its Drive folder (recovering once from a stale folder id) to counting and
  reporting every operation, and how a batch upload's answer is taken;
- `emulator` — the catalogue of known emulators and detection from the
  folders present;
- `drive` — retry policy, queries, listing paths, folder-id cache, upload
  bodies;
- `versioning` — names, folders and pruning of archived save versions;
- `watcher` — what process and file events lead to;
- `storage`, `auth`, `device`, `commands`, `launch` — the values behind the
  database rows, credentials, device id, commands and startup.

`app/` is the shell around it: SQLite, the OS keyring, HTTP, the file system
and the watcher loops. `tests/` runs the library on concrete cases.
