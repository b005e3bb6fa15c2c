use filecanopy::scanner::walker::{glob_matches, is_excluded, scan_root};
use filecanopy::scanner::{walker, EntryKind, FileEntry, ScanOptions};

fn entry(path: &str, size: u64, kind: EntryKind) -> FileEntry {
    FileEntry { path: path.to_string(), size, size_on_disk: None, kind, modified: None, line_count: None }
}

#[test]
fn scan_empty_dir_yields_zero_files() {
    let opts = ScanOptions {
        roots: vec!["/tmp/filecanopy-empty".to_string()],
        ..ScanOptions::default()
    };
    // The walk of an empty directory finds the directory itself.
    let found = vec![entry("/tmp/filecanopy-empty", 4096, EntryKind::Directory)];
    let report = walker::scan(&opts, found, Vec::new());
    assert_eq!(report.file_count, 0);
    assert_eq!(report.dir_count, 1);
    assert_eq!(report.total_bytes, 0);
}

#[test]
fn scan_totals_and_excludes() {
    let opts = ScanOptions {
        roots: vec!["/r".to_string()],
        excludes: vec!["*.tmp".to_string(), "/r/cache*".to_string()],
        ..ScanOptions::default()
    };
    let found = vec![
        entry("/r", 0, EntryKind::Directory),
        entry("/r/a.txt", 10, EntryKind::File),
        entry("/r/b.tmp", 99, EntryKind::File),
        entry("/r/cache", 0, EntryKind::Directory),
        entry("/r/cache/x", 7, EntryKind::File),
        entry("/r/link", 3, EntryKind::Symlink),
        entry("/r/big", u64::MAX, EntryKind::File),
    ];
    let report = walker::scan(&opts, found, vec!["/r/locked: denied".to_string()]);
    let paths: Vec<&str> = report.entries.iter().map(|e| e.path.as_str()).collect();
    assert_eq!(paths, vec!["/r", "/r/a.txt", "/r/link", "/r/big"]);
    assert_eq!(report.file_count, 2);
    assert_eq!(report.dir_count, 1);
    assert_eq!(report.total_bytes, u64::MAX);
    assert_eq!(report.errors, vec!["/r/locked: denied".to_string()]);
}

#[test]
fn scan_root_keeps_what_lies_below_the_root() {
    let opts = ScanOptions::default();
    let found = vec![entry("/tmp/a", 1, EntryKind::File), entry("/var/b", 2, EntryKind::File), entry("/tmp", 0, EntryKind::Directory)];
    let report = scan_root("/tmp", &opts, found, Vec::new());
    assert_eq!(report.entries.len(), 2);
    assert_eq!(report.total_bytes, 1);
    assert_eq!(report.file_count, 1);
}

#[test]
fn glob_patterns() {
    assert!(glob_matches("*.rs", "main.rs"));
    assert!(glob_matches("a?c", "abc"));
    assert!(!glob_matches("a?c", "ac"));
    assert!(glob_matches("*", ""));
    assert!(!glob_matches("*.rs", "main.rsx"));
    assert!(is_excluded("/src/target", &vec!["target".to_string()]));
    assert!(!is_excluded("/src/targets", &vec!["target".to_string()]));
    assert!(!is_excluded("/src/x", &Vec::new()));
}
