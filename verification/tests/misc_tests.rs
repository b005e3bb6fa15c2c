use filecanopy::cli::args::{DedupStrategy, ExportFormat};
use filecanopy::config::Config;
use filecanopy::error::Error;
use filecanopy::history::compare::diff;
use filecanopy::history::snapshot::{take, Snapshot};
use filecanopy::history::store::SnapshotStore;
use filecanopy::platform::{DiskMetrics, Posix, Win};
use filecanopy::reports::{chosen_format, infer_format};
use filecanopy::scanner::ScanReport;
use filecanopy::scanner::{EntryKind, FileEntry};
use filecanopy::analysis::duplicates::{DuplicateGroup, DuplicatesReport};

#[test]
fn export_format_follows_extension() {
    assert_eq!(infer_format("/r/out.PDF"), ExportFormat::Pdf);
    assert_eq!(infer_format("/r/out.xls"), ExportFormat::Excel);
    assert_eq!(infer_format("/r/out.htm"), ExportFormat::Html);
    assert_eq!(infer_format("/r/out.csv"), ExportFormat::Csv);
    assert_eq!(infer_format("/r/out.txt"), ExportFormat::Json);
    assert_eq!(infer_format("/r/out"), ExportFormat::Json);
    assert_eq!(chosen_format("/r/out.csv", Some(ExportFormat::Pdf)), ExportFormat::Pdf);
    assert_eq!(ExportFormat::Excel.extension(), "xlsx");
    assert_eq!(ExportFormat::Excel.label(), "Excel");
}

#[test]
fn error_messages() {
    assert_eq!(Error::Scan("x".to_string()).message(), "scan failed: x");
    assert_eq!(Error::Other("plain".to_string()).message(), "plain");
    assert_eq!(
        Error::Io { path: Some("/a".to_string()), message: "denied".to_string() }.message(),
        "io error at Some(\"/a\"): denied"
    );
    assert_eq!(Error::Io { path: None, message: "m".to_string() }.message(), "io error at None: m");
}

#[test]
fn io_error_paths_are_written_as_debug_strings() {
    let tricky = "/tmp/a \"b\"\\c\td\ne";
    let e = Error::Io { path: Some(tricky.to_string()), message: "boom".to_string() };
    assert_eq!(e.message(), format!("io error at {:?}: boom", Some(std::path::PathBuf::from(tricky))));
    assert_eq!(e.message(), "io error at Some(\"/tmp/a \\\"b\\\"\\\\c\\td\\ne\"): boom");
}

#[test]
fn config_defaults() {
    let c = Config::load(None).unwrap();
    assert!(c.default_roots.is_empty());
    assert!(!c.follow_symlinks);
    assert!(Config::load(Some(&c.save())).is_ok());
}

#[test]
fn dedup_of_an_empty_report_does_nothing() {
    let r = filecanopy::analysis::duplicates::DuplicatesReport::default();
    let o = filecanopy::dedup::apply(&r, DedupStrategy::Delete, &[]).unwrap();
    assert_eq!(o.deleted, 0);
    assert_eq!(DedupStrategy::Hardlink.label(), "Replace with hardlinks");
}

#[test]
fn snapshot_of_a_scan_and_equal_snapshots_do_not_differ() {
    let snap = take("/data".to_string(), Some(String::new()), "1".to_string(), 0, ScanReport::default());
    assert_eq!(snap.id, "1");
    assert_eq!(snap.root, "/data");
    assert_eq!(snap.label, None);
    assert_eq!(snap.taken_at, 0);
    let labelled = take("/data".to_string(), Some("nightly".to_string()), "2".to_string(), 1700000000, ScanReport::default());
    assert_eq!(labelled.label.as_deref(), Some("nightly"));
    assert_eq!(labelled.taken_at, 1700000000);
    let d = diff(&snap, &snap, 0).unwrap();
    assert_eq!(d.total_delta_bytes, 0);
    assert!(d.added.is_empty() && d.removed.is_empty() && d.grown.is_empty() && d.shrunk.is_empty());
}

#[test]
fn diff_reports_each_kind_of_change() {
    let e = |p: &str, size: u64| FileEntry {
        path: p.to_string(),
        size,
        size_on_disk: None,
        kind: EntryKind::File,
        modified: None,
        line_count: None,
    };
    let snap = |entries: Vec<FileEntry>| Snapshot {
        id: "s".to_string(),
        label: None,
        root: "/".to_string(),
        taken_at: 0,
        report: ScanReport { total_bytes: entries.iter().map(|x| x.size).sum(), entries, ..ScanReport::default() },
    };
    let before = snap(vec![e("/same", 5), e("/grow", 10), e("/shrink", 100), e("/gone", 7), e("/tiny", 50)]);
    let after = snap(vec![e("/same", 5), e("/grow", 40), e("/shrink", 60), e("/new", 3), e("/tiny", 51)]);
    let d = diff(&before, &after, 2).unwrap();
    let rows = |v: &Vec<filecanopy::history::compare::PathDelta>| -> Vec<(String, u64, u64, i64)> {
        v.iter().map(|x| (x.path.clone(), x.before, x.after, x.delta)).collect()
    };
    assert_eq!(rows(&d.added), vec![("/new".to_string(), 0, 3, 3)]);
    assert_eq!(rows(&d.removed), vec![("/gone".to_string(), 7, 0, -7)]);
    assert_eq!(rows(&d.grown), vec![("/grow".to_string(), 10, 40, 30)]);
    assert_eq!(rows(&d.shrunk), vec![("/shrink".to_string(), 100, 60, -40)]);
    assert_eq!(d.total_delta_bytes, 159 - 172);
    // Nothing is too small with no threshold.
    assert_eq!(diff(&before, &after, 0).unwrap().grown.len(), 2);
}

#[test]
fn snapshot_store_keeps_what_was_put() {
    let snap = |id: &str, label: Option<&str>, t: i64| Snapshot {
        id: id.to_string(),
        label: label.map(|l| l.to_string()),
        root: "/data".to_string(),
        taken_at: t,
        report: ScanReport { total_bytes: t as u64, ..ScanReport::default() },
    };
    let mut store = SnapshotStore::open("/tmp/db").unwrap();
    assert!(store.list().unwrap().is_empty());
    assert!(store.get("1").unwrap().is_none());
    assert!(store.put(&snap("1", Some("nightly"), 10)).is_ok());
    assert!(store.put(&snap("2", Some("nightly"), 20)).is_ok());
    assert!(store.put(&snap("3", None, 30)).is_ok());
    assert_eq!(store.get("1").unwrap().unwrap().taken_at, 10);
    assert_eq!(store.get("nightly").unwrap().unwrap().id, "1");
    assert_eq!(store.get("3").unwrap().unwrap().report.total_bytes, 30);
    assert_eq!(store.list().unwrap().len(), 3);
    assert!(store.delete("nightly").unwrap());
    assert!(!store.delete("nightly").unwrap());
    assert!(store.get("1").unwrap().is_none());
    let ids: Vec<String> = store.list().unwrap().into_iter().map(|s| s.id).collect();
    assert_eq!(ids, vec!["3".to_string()]);
}

#[test]
fn platform_metrics() {
    assert_eq!(Posix::size_on_disk_from_blocks(8), Some(4096));
    assert!(Posix::mount_point_from_devices(3, None));
    assert!(Posix::mount_point_from_devices(3, Some(4)));
    assert!(!Posix::mount_point_from_devices(3, Some(3)));
    assert_eq!(Win::size_on_disk("C:/x").unwrap(), None);
    assert_eq!(Win::hardlink_count("C:/x").unwrap(), 1);
    assert!(!Win::is_mount_point("C:/x").unwrap());
}

#[test]
fn exporters() {
    let e = |path: &str, size: u64, kind: EntryKind, disk: Option<u64>, modified: Option<u64>, lines: Option<u64>| FileEntry {
        path: path.to_string(),
        size,
        size_on_disk: disk,
        kind,
        modified,
        line_count: lines,
    };
    let r = ScanReport {
        entries: vec![
            e("/r", 0, EntryKind::Directory, None, None, None),
            e("/r/a.rs", 120, EntryKind::File, Some(4096), Some(1700000000), Some(7)),
            e("/r/b, \"c\".txt", 5, EntryKind::File, None, None, None),
            e("/r/l", 9, EntryKind::Symlink, None, None, None),
        ],
        total_bytes: 125,
        file_count: 2,
        dir_count: 1,
        errors: vec![],
    };
    assert_eq!(
        filecanopy::reports::csv::export(&r),
        "path,size,size_on_disk,modified,line_count\n/r/a.rs,120,4096,1700000000,7\n\"/r/b, \"\"c\"\".txt\",5,,,\n"
    );
    let html = filecanopy::reports::html::export(&r);
    assert!(html.starts_with("<!DOCTYPE html>"));
    assert!(html.contains("<p>125 bytes in 2 files and 1 directories</p>"));
    assert!(html.contains("<tr><td>/r/a.rs</td><td class=\"n\">120</td></tr>"));
    assert!(html.contains("<tr><td>/r/b, &quot;c&quot;.txt</td><td class=\"n\">5</td></tr>"));
    assert!(!html.contains("/r/l"));
    assert!(html.ends_with("</table>\n</body></html>\n"));
    assert!(matches!(filecanopy::reports::pdf::export(&r, "/tmp/x.pdf"), Err(Error::Report(_))));
    assert!(matches!(filecanopy::reports::excel::export(&r, "/tmp/x.xlsx"), Err(Error::Report(_))));
    assert_eq!(filecanopy::reports::csv::export(&ScanReport::default()), "path,size,size_on_disk,modified,line_count\n");
}

fn dup_report() -> DuplicatesReport {
    DuplicatesReport {
        groups: vec![
            DuplicateGroup {
                fingerprint: "f1".to_string(),
                size: 100,
                paths: vec!["/a".to_string(), "/b".to_string(), "/c".to_string()],
            },
            DuplicateGroup { fingerprint: "f2".to_string(), size: 7, paths: vec!["/x".to_string(), "/y".to_string()] },
        ],
        reclaimable_bytes: 207,
    }
}

#[test]
fn dedup_plan_keeps_the_first_path_of_each_group() {
    let steps = filecanopy::dedup::plan(&dup_report());
    let pairs: Vec<(&str, &str, u64)> =
        steps.iter().map(|s| (s.keep.as_str(), s.target.as_str(), s.size)).collect();
    assert_eq!(pairs, vec![("/a", "/b", 100), ("/a", "/c", 100), ("/x", "/y", 7)]);
}

#[test]
fn dry_run_keeps_one_file_per_group_and_changes_nothing() {
    let o = filecanopy::dedup::apply(&dup_report(), DedupStrategy::DryRun, &[]).unwrap();
    assert_eq!((o.kept, o.deleted, o.hardlinked, o.symlinked, o.bytes_reclaimed), (2, 0, 0, 0, 0));
    assert!(o.errors.is_empty());
}

#[test]
fn dedup_counts_the_steps_carried_out() {
    let failures = vec![None, Some("/c: denied".to_string()), None];
    let o = filecanopy::dedup::apply(&dup_report(), DedupStrategy::Hardlink, &failures).unwrap();
    assert_eq!((o.kept, o.deleted, o.hardlinked, o.symlinked, o.bytes_reclaimed), (2, 0, 2, 0, 107));
    assert_eq!(o.errors, vec!["/c: denied".to_string()]);
    let o = filecanopy::dedup::apply(&dup_report(), DedupStrategy::Delete, &[None, None, None]).unwrap();
    assert_eq!((o.deleted, o.bytes_reclaimed), (3, 207));
}
