# ocorganize_core

The decision logic of a desktop file organizer, verified with Verus.

An organization root holds loose files.  The organizer scans the files that
sit directly in the root (skipping hidden files, symlinks and existing
category folders), groups them by file type, size bucket or modification
month, moves each group into a category folder such as `PDF_FILES` or
`no_extension`, and records every move in a JSON undo log.

## Layout

- `src/`: the verified library.
  - `text.rs`, `order.rs`: character sequences, code-point order, a stable sort.
  - `path.rs`, `naming.rs`: '/'-separated paths, category folder names.
  - `walk.rs`: which scanned entries are loose files, and the skip counts.
  - `file_type.rs`, `group.rs`: categories and the grouping strategies.
  - `organize.rs`: move plans, unique target names, progress reports.
  - `undo.rs`: undo entries, the text of the undo log, the restore tally.
  - `runtime.rs`: performance tiers and tuning values.
  - `validate.rs`, `error.rs`: checking the directory a user selects.
  - `preview.rs`: previews and run summaries.
  - `cache.rs`, `history.rs`: the scan cache and the undo history of a session.
- `tests/`: tests of the library.
- `app/`: the file system, threads, serialization and the command layer
  around the library.
