use std::sync::Arc;

use filecanopy::analysis::tree::DirNode;
use filecanopy::cli::args::ExportFormat;
use filecanopy::history::snapshot::take;
use filecanopy::scanner::ScanReport;
use filecanopy::scanner::{EntryKind, FileEntry};
use filecanopy::ui::app::{find_dir, parent_focus, Action, App};
use filecanopy::ui::message::{ExportOutcome, Message};
use filecanopy::ui::views::{header_label, LineCountSortColumn, Screen, SortDirection};

fn node(path: &str, children: Vec<DirNode>) -> DirNode {
    DirNode { path: path.to_string(), children, ..DirNode::default() }
}

fn sample_tree() -> DirNode {
    node("/r", vec![node("/r/a", vec![node("/r/a/x", vec![])]), node("/r/b", vec![])])
}

#[test]
fn initial_state_and_title() {
    let app = App::new();
    assert_eq!(app.screen, Screen::Dashboard);
    assert_eq!(app.title(), "FileCanopy");
    assert_eq!(app.treemap_max_tiles, 200);
    assert_eq!(app.largest_limit, 50);
    assert_eq!(app.line_count_extensions.len(), 12);
    assert!(app.line_count_extensions.iter().all(|(_, on)| !on));
    assert_eq!(app.export_format, ExportFormat::Pdf);
    assert_eq!(app.schedule_name, "filecanopy");
}

#[test]
fn navigation_changes_title() {
    let mut app = App::new();
    assert!(matches!(app.update(Message::Navigate(Screen::Largest)), Action::Idle));
    assert_eq!(app.title(), "FileCanopy — Largest files");
}

#[test]
fn zoom_stays_between_20_and_2000() {
    let mut app = App::new();
    for _ in 0..30 {
        app.update(Message::TreemapZoomIn);
    }
    assert_eq!(app.treemap_max_tiles, 2000);
    for _ in 0..30 {
        app.update(Message::TreemapZoomOut);
    }
    assert_eq!(app.treemap_max_tiles, 20);
    app.update(Message::TreemapZoomIn);
    assert_eq!(app.treemap_max_tiles, 120);
}

#[test]
fn start_scan_needs_a_root() {
    let mut app = App::new();
    assert!(matches!(app.update(Message::StartScan), Action::Idle));
    assert!(!app.scan_in_progress);
    app.update(Message::AddIgnoreGlob("*.tmp".to_string()));
    app.update(Message::ToggleFollowSymlinks(true));
    app.update(Message::ScanRootPicked(Some("/data".to_string())));
    match app.update(Message::StartScan) {
        Action::Scan(opts) => {
            assert_eq!(opts.roots, vec!["/data".to_string()]);
            assert_eq!(opts.excludes, vec!["*.tmp".to_string()]);
            assert!(opts.follow_symlinks);
        }
        other => panic!("unexpected action {:?}", other),
    }
    assert!(app.scan_in_progress);
    app.update(Message::ScanFailed("boom".to_string()));
    assert!(!app.scan_in_progress);
    assert_eq!(app.last_error.as_deref(), Some("boom"));
}

#[test]
fn scan_finished_builds_tree_and_resets_focus() {
    let mut app = App::new();
    app.treemap_focus = Some("/x".to_string());
    app.update(Message::ScanFinished(Arc::new(ScanReport::default())));
    assert!(app.last_scan.is_some());
    assert!(app.last_size_tree.is_some());
    assert!(app.treemap_focus.is_none());
    assert!(matches!(app.update(Message::FindDuplicates), Action::FindDuplicates { min_size: 1024, .. }));
}

#[test]
fn extension_toggles() {
    let mut app = App::new();
    app.update(Message::LineCountExtToggled("py".to_string(), true));
    assert!(app.line_count_extensions.iter().any(|(e, on)| e == "py" && *on));
    app.update(Message::LineCountExtToggled("zig".to_string(), false));
    assert_eq!(app.line_count_extensions.len(), 12);
    app.update(Message::LineCountExtToggled("zig".to_string(), true));
    assert_eq!(app.line_count_extensions.len(), 13);
    assert_eq!(app.line_count_extensions[12], ("zig".to_string(), true));
}

#[test]
fn sort_column_clicks() {
    let mut app = App::new();
    app.update(Message::LineCountSortBy(LineCountSortColumn::Lines));
    assert_eq!(app.line_count_sort_direction, SortDirection::Ascending);
    app.update(Message::LineCountSortBy(LineCountSortColumn::Bytes));
    assert_eq!(app.line_count_sort_column, LineCountSortColumn::Bytes);
    assert_eq!(app.line_count_sort_direction, SortDirection::Descending);
    assert_eq!(SortDirection::Ascending.toggle(), SortDirection::Descending);
    assert_eq!(header_label("Total", LineCountSortColumn::Lines, LineCountSortColumn::Lines, SortDirection::Ascending), "Total ↑");
    assert_eq!(header_label("Code", LineCountSortColumn::CodeLines, LineCountSortColumn::Lines, SortDirection::Ascending), "Code");
}

#[test]
fn export_flow() {
    let mut app = App::new();
    assert!(matches!(app.update(Message::PickExportPath), Action::PickSavePath(ExportFormat::Pdf)));
    assert!(matches!(app.update(Message::StartExport), Action::Idle));
    app.update(Message::ScanFinished(Arc::new(ScanReport::default())));
    app.update(Message::ExportPathPicked(Some("/tmp/r.csv".to_string())));
    app.update(Message::ExportFormatChanged(ExportFormat::Csv));
    match app.update(Message::StartExport) {
        Action::Export { path, format } => {
            assert_eq!(path, "/tmp/r.csv");
            assert_eq!(format, ExportFormat::Csv);
        }
        other => panic!("unexpected action {:?}", other),
    }
    app.update(Message::ExportFinished(ExportOutcome::Written("/tmp/r.csv".to_string())));
    assert_eq!(app.last_export.as_deref(), Some("/tmp/r.csv"));
}

#[test]
fn ignore_globs_add_and_remove() {
    let mut app = App::new();
    app.update(Message::AddIgnoreGlob("a".to_string()));
    app.update(Message::AddIgnoreGlob("b".to_string()));
    app.update(Message::RemoveIgnoreGlob(5));
    assert_eq!(app.config.ignore_globs.len(), 2);
    app.update(Message::RemoveIgnoreGlob(0));
    assert_eq!(app.config.ignore_globs, vec!["b".to_string()]);
}

#[test]
fn find_dir_descends_by_prefix() {
    let root = sample_tree();
    assert_eq!(find_dir(&root, "/r/a/x").map(|d| d.path.as_str()), Some("/r/a/x"));
    assert_eq!(find_dir(&root, "/r/b/").map(|d| d.path.as_str()), Some("/r/b"));
    assert!(find_dir(&root, "/r/c").is_none());
    assert!(find_dir(&root, "/r/a/y").is_none());
    // A leading "./" is a component of its own.
    let dotted = node("./a", vec![node("./a/b", vec![])]);
    assert!(find_dir(&dotted, "a").is_none());
    assert!(find_dir(&dotted, "a/b").is_none());
    assert_eq!(find_dir(&dotted, "./a/b").map(|d| d.path.as_str()), Some("./a/b"));
}

#[test]
fn parent_focus_steps_up() {
    let root = sample_tree();
    assert_eq!(parent_focus(&root, "/r/a/x"), Some("/r/a".to_string()));
    assert_eq!(parent_focus(&root, "/r/a"), None);
    assert_eq!(parent_focus(&root, "/q/z"), None);
}

#[test]
fn treemap_clicks_and_focus_up() {
    let mut app = App::new();
    app.last_size_tree = Some(Arc::new(filecanopy::analysis::tree::SizeTree { root: sample_tree(), total_bytes: 0 }));
    app.update(Message::TreemapTileClicked("/r/nope".to_string()));
    assert!(app.treemap_focus.is_none());
    app.update(Message::TreemapTileClicked("/r/a/x".to_string()));
    assert_eq!(app.treemap_focus.as_deref(), Some("/r/a/x"));
    app.update(Message::TreemapFocusUp);
    assert_eq!(app.treemap_focus.as_deref(), Some("/r/a"));
    app.update(Message::TreemapFocusUp);
    assert!(app.treemap_focus.is_none());
    app.update(Message::TreemapTileClicked("/r/b".to_string()));
    app.update(Message::TreemapFocusRoot);
    assert!(app.treemap_focus.is_none());
}

#[test]
fn screen_labels_in_order() {
    let labels: Vec<&str> = Screen::all().into_iter().map(|s| s.label()).collect();
    assert_eq!(labels[0], "Dashboard");
    assert_eq!(labels[3], "Largest files");
    assert_eq!(labels.len(), 11);
}

#[test]
fn zoom_out_undoes_zoom_in() {
    let mut app = App::new();
    app.update(Message::TreemapZoomIn);
    assert_eq!(app.treemap_max_tiles, 300);
    app.update(Message::TreemapZoomOut);
    assert_eq!(app.treemap_max_tiles, 200);
}

#[test]
fn clicking_the_active_header_twice_restores_the_sort() {
    let mut app = App::new();
    let col = app.line_count_sort_column;
    let dir = app.line_count_sort_direction;
    app.update(Message::LineCountSortBy(col));
    assert_ne!(app.line_count_sort_direction, dir);
    app.update(Message::LineCountSortBy(col));
    assert_eq!(app.line_count_sort_column, col);
    assert_eq!(app.line_count_sort_direction, dir);
}

#[test]
fn take_snapshot_needs_a_scan() {
    let mut app = App::new();
    assert!(matches!(app.update(Message::TakeSnapshot), Action::Idle));
    app.scan_root = Some("/r".to_string());
    app.last_scan = Some(Arc::new(ScanReport::default()));
    match app.update(Message::TakeSnapshot) {
        Action::TakeSnapshot { root, label } => {
            assert_eq!(root, "/r");
            assert_eq!(label, None);
        }
        _ => panic!("expected TakeSnapshot"),
    }
    app.snapshot_label = "nightly".to_string();
    match app.update(Message::TakeSnapshot) {
        Action::TakeSnapshot { label, .. } => assert_eq!(label.as_deref(), Some("nightly")),
        _ => panic!("expected TakeSnapshot"),
    }
}

#[test]
fn compare_snapshots_diffs_the_selected_pair() {
    let file = |p: &str, size: u64| FileEntry {
        path: p.to_string(),
        size,
        size_on_disk: None,
        kind: EntryKind::File,
        modified: None,
        line_count: None,
    };
    let before = ScanReport { entries: vec![file("/r/a", 10), file("/r/b", 5)], total_bytes: 15, ..ScanReport::default() };
    let after = ScanReport { entries: vec![file("/r/a", 30), file("/r/c", 1)], total_bytes: 31, ..ScanReport::default() };
    let mut app = App::new();
    app.update(Message::SnapshotTaken(take("/r".to_string(), None, "s1".to_string(), 1, before)));
    app.update(Message::SnapshotTaken(take("/r".to_string(), None, "s2".to_string(), 2, after)));
    app.update(Message::CompareSnapshots);
    assert!(app.last_diff.is_none());
    app.update(Message::SnapshotSelectedBefore("s1".to_string()));
    app.update(Message::SnapshotSelectedAfter("s2".to_string()));
    app.update(Message::CompareSnapshots);
    let d = app.last_diff.clone().expect("a diff");
    assert_eq!(d.total_delta_bytes, 16);
    assert_eq!(d.added.len(), 1);
    assert_eq!(d.removed.len(), 1);
    assert_eq!(d.grown.len(), 1);
    assert!(d.shrunk.is_empty());
}
