use filecanopy::analysis::largest::top;
use filecanopy::scanner::metadata::{EntryKind, FileEntry};
use filecanopy::scanner::ScanReport;

fn fe(path: &str, size: u64, kind: EntryKind) -> FileEntry {
    FileEntry { path: path.to_string(), size, size_on_disk: None, kind, modified: None, line_count: None }
}

fn report(entries: Vec<FileEntry>) -> ScanReport {
    ScanReport { entries, ..ScanReport::default() }
}

#[test]
fn top_orders_largest_first_and_truncates() {
    let r = report(vec![
        fe("a", 5, EntryKind::File),
        fe("d", 100, EntryKind::Directory),
        fe("b", 50, EntryKind::File),
        fe("c", 50, EntryKind::File),
        fe("e", 7, EntryKind::Symlink),
        fe("f", 1, EntryKind::File),
    ]);
    let t = top(&r, 3, None);
    let names: Vec<&str> = t.iter().map(|e| e.path.as_str()).collect();
    assert_eq!(names, vec!["b", "c", "a"]);
    assert_eq!(top(&r, 0, None).len(), 0);
    assert_eq!(top(&r, 10, None).len(), 4);
}

#[test]
fn top_respects_min_size() {
    let r = report(vec![fe("a", 5, EntryKind::File), fe("b", 50, EntryKind::File), fe("c", 10, EntryKind::File)]);
    let t = top(&r, 10, Some(9));
    let names: Vec<&str> = t.iter().map(|e| e.path.as_str()).collect();
    assert_eq!(names, vec!["b", "c"]);
    // Only files larger than the minimum count: one of exactly 10 bytes does not.
    let t = top(&r, 10, Some(10));
    let names: Vec<&str> = t.iter().map(|e| e.path.as_str()).collect();
    assert_eq!(names, vec!["b"]);
}

#[test]
fn is_file_only_for_regular_files() {
    assert!(fe("x", 1, EntryKind::File).is_file());
    assert!(!fe("x", 1, EntryKind::Other).is_file());
}
