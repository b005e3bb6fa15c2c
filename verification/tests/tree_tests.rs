use filecanopy::analysis::tree::{build, DirNode};
use filecanopy::error::Error;
use filecanopy::scanner::ScanReport;
use filecanopy::scanner::{EntryKind, FileEntry};

fn entry(path: &str, size: u64, kind: EntryKind) -> FileEntry {
    FileEntry { path: path.to_string(), size, size_on_disk: None, kind, modified: None, line_count: None }
}

fn report(entries: Vec<FileEntry>) -> ScanReport {
    ScanReport { entries, ..ScanReport::default() }
}

fn check_sums(d: &DirNode) {
    let child_size: u64 = d.children.iter().map(|c| c.size).sum();
    let file_size: u64 = d.files.iter().map(|f| f.size).sum();
    assert_eq!(d.size, child_size + file_size);
    let child_count: u64 = d.children.iter().map(|c| c.file_count).sum();
    assert_eq!(d.file_count, child_count + d.files.len() as u64);
    for c in &d.children {
        check_sums(c);
    }
}

#[test]
fn files_fold_into_directories_under_the_common_root() {
    let r = report(vec![
        entry("/r", 0, EntryKind::Directory),
        entry("/r/a", 0, EntryKind::Directory),
        entry("/r/a/x", 10, EntryKind::File),
        entry("/r/a/y", 5, EntryKind::File),
        entry("/r/b", 3, EntryKind::File),
        entry("/r/link", 99, EntryKind::Symlink),
    ]);
    let t = build(&r).unwrap();
    assert_eq!(t.total_bytes, 18);
    assert_eq!(t.root.path, "/r");
    assert_eq!(t.root.size, 18);
    assert_eq!(t.root.file_count, 3);
    assert_eq!(t.root.files.len(), 1);
    assert_eq!(t.root.files[0].path, "/r/b");
    assert_eq!(t.root.files[0].size, 3);
    assert_eq!(t.root.children.len(), 1);
    let a = &t.root.children[0];
    assert_eq!(a.path, "/r/a");
    assert_eq!(a.size, 15);
    assert_eq!(a.file_count, 2);
    let names: Vec<&str> = a.files.iter().map(|f| f.path.as_str()).collect();
    assert_eq!(names, vec!["/r/a/x", "/r/a/y"]);
    check_sums(&t.root);
}

#[test]
fn deep_files_get_intermediate_directories() {
    let r = report(vec![
        entry("/r/p/q/z", 7, EntryKind::File),
        entry("/r/w", 1, EntryKind::File),
    ]);
    let t = build(&r).unwrap();
    assert_eq!(t.root.path, "/r");
    assert_eq!(t.total_bytes, 8);
    assert_eq!(t.root.children.len(), 1);
    let p = &t.root.children[0];
    assert_eq!(p.path, "/r/p");
    assert_eq!(p.children.len(), 1);
    assert_eq!(p.children[0].path, "/r/p/q");
    assert_eq!(p.children[0].files[0].path, "/r/p/q/z");
    check_sums(&t.root);
}

#[test]
fn report_without_files_gives_an_empty_tree() {
    let t = build(&report(vec![entry("/r", 0, EntryKind::Directory)])).unwrap();
    assert_eq!(t.total_bytes, 0);
    assert_eq!(t.root.size, 0);
    assert_eq!(t.root.file_count, 0);
    assert!(t.root.children.is_empty());
    assert!(t.root.files.is_empty());
    let t = build(&ScanReport::default()).unwrap();
    assert_eq!(t.total_bytes, 0);
}

#[test]
fn sizes_past_u64_are_refused() {
    let r = report(vec![
        entry("/r/a", u64::MAX, EntryKind::File),
        entry("/r/b", 1, EntryKind::File),
    ]);
    assert!(matches!(build(&r), Err(Error::Scan(_))));
}

fn all_files(d: &DirNode, out: &mut Vec<(String, u64)>) {
    for f in &d.files {
        out.push((f.path.clone(), f.size));
    }
    for c in &d.children {
        all_files(c, out);
    }
}

#[test]
fn every_file_appears_once() {
    let r = report(vec![
        entry("/r/a/x", 4, EntryKind::File),
        entry("/r/b/y", 2, EntryKind::File),
        entry("/r/a/x", 4, EntryKind::File),
        entry("/r/c", 0, EntryKind::File),
        entry("/r/d", 9, EntryKind::Other),
    ]);
    let t = build(&r).unwrap();
    let mut got = Vec::new();
    all_files(&t.root, &mut got);
    got.sort();
    let mut want = vec![
        ("/r/a/x".to_string(), 4),
        ("/r/a/x".to_string(), 4),
        ("/r/b/y".to_string(), 2),
        ("/r/c".to_string(), 0),
    ];
    want.sort();
    assert_eq!(got, want);
    assert_eq!(t.root.file_count, 4);
}
