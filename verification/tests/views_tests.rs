use filecanopy::scanner::line_counter::{FileLineCount, LineCountReport};
use filecanopy::scanner::{EntryKind, FileEntry};
use filecanopy::text::decimal_text;
use filecanopy::ui::views::{
    default_extensions, file_details, line_count_row, line_count_summary, size_text, sorted_rows,
    LineCountSortColumn, SortDirection,
};
use filecanopy::paths::path_less;

fn row(path: &str, lines: u64, code_lines: u64, bytes: u64) -> FileLineCount {
    FileLineCount { path: path.to_string(), lines, code_lines, bytes }
}

fn paths(rows: &[FileLineCount]) -> Vec<&str> {
    rows.iter().map(|r| r.path.as_str()).collect()
}

#[test]
fn sizes_are_rendered_in_decimal_units() {
    assert_eq!(size_text(999), "999 B");
    assert_eq!(size_text(1500), "1.50 kB");
    assert_eq!(size_text(2000), "2 kB");
    assert_eq!(size_text(3_250_000), "3.25 MB");
}

#[test]
fn decimal_texts() {
    assert_eq!(decimal_text(0), "0");
    assert_eq!(decimal_text(42), "42");
    assert_eq!(decimal_text(u64::MAX), "18446744073709551615");
}

#[test]
fn details_of_a_file() {
    let e = FileEntry {
        path: "/home/u/notes.txt".to_string(),
        size: 1500,
        size_on_disk: Some(4096),
        kind: EntryKind::File,
        modified: None,
        line_count: Some(12),
    };
    let d = file_details(&e);
    assert_eq!(d.name, "notes.txt");
    assert_eq!(d.parent, "/home/u");
    assert_eq!(d.extension, "txt");
    assert_eq!(d.size, "1.50 kB");
    assert_eq!(d.size_exact, "1500 bytes");
    assert_eq!(d.size_on_disk, "4.10 kB (4096 bytes)");
    assert_eq!(d.line_count, "12");
    assert_eq!(d.full_path, "/home/u/notes.txt");
}

#[test]
fn details_of_a_file_with_unknowns() {
    let e = FileEntry {
        path: "/Makefile".to_string(),
        size: 10,
        size_on_disk: None,
        kind: EntryKind::File,
        modified: None,
        line_count: None,
    };
    let d = file_details(&e);
    assert_eq!(d.name, "Makefile");
    assert_eq!(d.parent, "/");
    assert_eq!(d.extension, "—");
    assert_eq!(d.size_on_disk, "—");
    assert_eq!(d.line_count, "—");
}

#[test]
fn line_count_rows_and_summary() {
    let r = line_count_row(&row("/p/a.rs", 500, 420, 2000), 400);
    assert_eq!(r.lines, "500 *");
    assert_eq!(r.code_lines, "420");
    assert_eq!(r.comment_lines, "80");
    assert_eq!(r.bytes, "2 kB");
    assert_eq!(r.path, "/p/a.rs");
    assert_eq!(line_count_row(&row("/p/a.rs", 500, 420, 2000), 0).lines, "500");
    assert_eq!(line_count_row(&row("/p/a.rs", 399, 420, 2000), 400).lines, "399");
    assert_eq!(line_count_row(&row("/p/b.rs", 3, 5, 1), 0).comment_lines, "0");

    let report = LineCountReport {
        per_file: vec![row("/p/a.rs", 500, 420, 2000), row("/p/b.rs", 10, 5, 100)],
        total_lines: 510,
        total_code_lines: 425,
        monolithic: vec![],
    };
    assert_eq!(
        line_count_summary(&report),
        "Total lines: 510  •  Total code lines: 425  •  Comment/blank: 85  •  Files: 2"
    );
}

#[test]
fn extensions_start_switched_off() {
    let exts = default_extensions();
    let names: Vec<&str> = exts.iter().map(|(n, _)| n.as_str()).collect();
    assert_eq!(names, vec!["rs", "py", "ts", "tsx", "js", "jsx", "go", "java", "c", "cpp", "h", "hpp"]);
    assert!(exts.iter().all(|(_, on)| !on));
}

#[test]
fn rows_sort_by_numbers_stably() {
    let files = vec![
        row("/a", 10, 5, 300),
        row("/b", 30, 30, 100),
        row("/c", 10, 2, 200),
        row("/d", 20, 20, 300),
    ];
    let desc = sorted_rows(&files, LineCountSortColumn::Lines, SortDirection::Descending);
    assert_eq!(paths(&desc), vec!["/b", "/d", "/a", "/c"]);
    let asc = sorted_rows(&files, LineCountSortColumn::Lines, SortDirection::Ascending);
    assert_eq!(paths(&asc), vec!["/a", "/c", "/d", "/b"]);
    let code = sorted_rows(&files, LineCountSortColumn::CodeLines, SortDirection::Ascending);
    assert_eq!(paths(&code), vec!["/c", "/a", "/d", "/b"]);
    let comment = sorted_rows(&files, LineCountSortColumn::CommentLines, SortDirection::Descending);
    assert_eq!(paths(&comment), vec!["/c", "/a", "/b", "/d"]);
    let bytes = sorted_rows(&files, LineCountSortColumn::Bytes, SortDirection::Descending);
    assert_eq!(paths(&bytes), vec!["/a", "/d", "/c", "/b"]);
    assert!(sorted_rows(&[], LineCountSortColumn::Path, SortDirection::Ascending).is_empty());
}

#[test]
fn rows_sort_by_path_components() {
    let files = vec![
        row("/r/a-b", 1, 1, 1),
        row("/r/a/z", 1, 1, 1),
        row("/r/B", 1, 1, 1),
        row("/r/a", 1, 1, 1),
        row("/r/../x", 1, 1, 1),
    ];
    let asc = sorted_rows(&files, LineCountSortColumn::Path, SortDirection::Ascending);
    assert_eq!(paths(&asc), vec!["/r/../x", "/r/B", "/r/a", "/r/a/z", "/r/a-b"]);
    let desc = sorted_rows(&files, LineCountSortColumn::Path, SortDirection::Descending);
    assert_eq!(paths(&desc), vec!["/r/a-b", "/r/a/z", "/r/a", "/r/B", "/r/../x"]);
}

#[test]
fn path_order_matches_std() {
    let samples = ["/", "/a", "/a/b", "/a-b", "/a//b/", "/a/./b", "/..", "/a/..", "b", "b/c", "", "/ä", "/z"];
    for x in samples {
        for y in samples {
            let std_less = std::path::Path::new(x) < std::path::Path::new(y);
            assert_eq!(path_less(x, y), std_less, "{x} vs {y}");
        }
    }
}
