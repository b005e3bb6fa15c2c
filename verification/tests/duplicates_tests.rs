use filecanopy::analysis::duplicates;
use filecanopy::analysis::hasher::{fingerprint, HashAlgo as Digest};
use filecanopy::cli::args::HashAlgo;
use filecanopy::scanner::{EntryKind, FileEntry, ScanReport};

#[test]
fn empty_report_yields_empty_duplicates() {
    let report = ScanReport::default();
    let dups = duplicates::find(&report, 1024, HashAlgo::Blake3, &[]).unwrap();
    assert!(dups.groups.is_empty());
    assert_eq!(dups.reclaimable_bytes, 0);
}

fn file(path: &str, size: u64) -> FileEntry {
    FileEntry { path: path.to_string(), size, size_on_disk: None, kind: EntryKind::File, modified: None, line_count: None }
}

#[test]
fn equal_files_are_grouped_by_size_and_content() {
    let report = ScanReport {
        entries: vec![
            file("/a", 4),
            file("/b", 4),
            file("/c", 4),
            file("/d", 3),
            file("/e", 4),
            file("/small", 1),
            file("/small2", 1),
            FileEntry { kind: EntryKind::Directory, ..file("/dir", 4) },
        ],
        ..ScanReport::default()
    };
    let wanted = duplicates::needs_content(&report, 2);
    assert_eq!(wanted, vec![true, true, true, false, true, false, false, false]);
    let content = |s: &str| Some(s.as_bytes().to_vec());
    let contents = vec![
        content("abcd"),
        content("wxyz"),
        content("abcd"),
        None,
        content("abcd"),
        content("x"),
        content("x"),
        content("abcd"),
    ];
    let d = duplicates::find(&report, 2, HashAlgo::Xxh3, &contents).unwrap();
    assert_eq!(d.groups.len(), 1);
    let g = &d.groups[0];
    assert_eq!(g.paths, vec!["/a".to_string(), "/c".to_string(), "/e".to_string()]);
    assert_eq!(g.size, 4);
    assert_eq!(g.fingerprint, fingerprint(b"abcd", Digest::Xxh3));
    assert_eq!(d.reclaimable_bytes, 8);
    // The small files are below the minimum size.
    let d = duplicates::find(&report, 1, HashAlgo::Blake3, &contents).unwrap();
    assert_eq!(d.groups.len(), 2);
    assert_eq!(d.groups[1].paths, vec!["/small".to_string(), "/small2".to_string()]);
    assert_eq!(d.reclaimable_bytes, 9);
}
