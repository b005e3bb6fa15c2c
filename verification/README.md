# FileCanopy

A disk-space analyzer: directory scans, a squarified treemap, the largest
files, duplicate fingerprints, source-line counts, snapshots and reports,
with a desktop GUI (iced) and a command line (clap).

## Layout

- `src/` — the library, written in Verus and verified: the application
  state and its reducer, line counting, ranking and stable ordering, the
  path model and path order, the item selection of the treemap and its
  colors, content fingerprints, export-format selection, and the texts
  the views show. Each public function states its result in its contract;
  laws that relate several functions are public proof functions
  (`lemma_*`).
- `app/` — the program around the library: window, views and the treemap
  canvas, the floating-point geometry of the treemap, background tasks,
  file reading and writing, native dialogs, the command-line parser and
  the serializable copies of the report types.
- `tests/` — tests of the library on concrete values.

Everything the project decides is in the library: the report of a scan
(exclusion globs, totals and counts), folding a scan into a size tree,
duplicate grouping, the deduplication plan and outcome, snapshots, the
in-memory snapshot store and snapshot diffs, the CSV and HTML exports, the
text form of the configuration file (a TOML subset, read back as the
configuration that was written) and the crontab text of scheduled tasks
(a task installed into a crontab is listed from it; other lines stay).
The program walks the filesystem, reads and writes files, runs `crontab`,
and hands the library plain values. PDF and Excel output and the Windows
Task Scheduler are not available in this build: those calls fail with an
error.
