use filecanopy::scanner::line_counter::{
    comment_syntax_for, count, count_entries, count_text, line_count_syntax,
    normalize_extensions, CommentSyntax,
};
use filecanopy::scanner::metadata::{EntryKind, FileEntry};

fn entry(path: &str, kind: EntryKind) -> FileEntry {
    FileEntry {
        path: path.to_string(),
        size: 0,
        size_on_disk: None,
        kind,
        modified: None,
        line_count: None,
    }
}

#[test]
fn counts_total_and_code_lines_for_rust() {
    let src = "// header\nfn main() {\n    // inline\n    let x = 1; // trailing\n\n    /* block\n       still block */\n    println!(\"{}\", x);\n}\n";
    let (total, code, _bytes) = count_text(src.as_bytes(), comment_syntax_for("rs")).expect("count");
    assert_eq!(total, 9);
    // Lines 2, 4, 8, 9 are code. Line 5 is blank, 1/3/6/7 are comments.
    assert_eq!(code, 4);
}

#[test]
fn counts_python_hash_comments() {
    let src = "# comment\nx = 1\n\n  # indented comment\ny = 2  # trailing\n";
    let (total, code, _bytes) = count_text(src.as_bytes(), comment_syntax_for("py")).expect("count");
    assert_eq!(total, 5);
    assert_eq!(code, 2);
}

#[test]
fn unknown_extension_treats_every_nonblank_line_as_code() {
    let src = "hello\n\nworld\n";
    let (total, code, _bytes) = count_text(src.as_bytes(), comment_syntax_for("txt")).expect("count");
    assert_eq!(total, 3);
    assert_eq!(code, 2);
}

#[test]
fn single_line_block_comment_is_not_code() {
    let src = "/* one-liner */\nlet a = 1;\n";
    let (_total, code, _bytes) = count_text(src.as_bytes(), comment_syntax_for("rs")).expect("count");
    assert_eq!(code, 1);
}

#[test]
fn code_after_closing_block_comment_counts() {
    let src = "/* a */ x = 1;\n/* open\nstill */ y();\n/* c */ /* d */\n";
    let (total, code, bytes) = count_text(src.as_bytes(), CommentSyntax::Slash).unwrap();
    assert_eq!(total, 4);
    assert_eq!(code, 2);
    assert_eq!(bytes, src.len() as u64);
}

#[test]
fn last_line_without_newline_and_crlf() {
    let (total, code, bytes) = count_text(b"a\r\n\r\nb", CommentSyntax::Plain).unwrap();
    assert_eq!((total, code, bytes), (3, 2, 6));
    assert_eq!(count_text(b"", CommentSyntax::Slash), Some((0, 0, 0)));
}

#[test]
fn nul_in_first_8k_is_binary() {
    let mut data = b"line one\nline two\n".to_vec();
    data.push(0);
    assert_eq!(count_text(&data, CommentSyntax::Plain), None);
    let mut late = vec![b'a'; 9000];
    late.push(0);
    assert!(count_text(&late, CommentSyntax::Plain).is_some());
}

#[test]
fn comment_syntax_table() {
    assert_eq!(comment_syntax_for("rs"), CommentSyntax::Slash);
    assert_eq!(comment_syntax_for("mm"), CommentSyntax::Slash);
    assert_eq!(comment_syntax_for("toml"), CommentSyntax::Hash);
    assert_eq!(comment_syntax_for("md"), CommentSyntax::Plain);
    assert_eq!(comment_syntax_for("RS"), CommentSyntax::Plain);
}

#[test]
fn extensions_normalize_and_select_entries() {
    let norm = normalize_extensions(&[".RS".to_string(), "..Py".to_string()]);
    assert_eq!(norm, vec!["rs".to_string(), "py".to_string()]);
    assert_eq!(line_count_syntax(&entry("src/Main.RS", EntryKind::File), &norm), Some(CommentSyntax::Slash));
    assert_eq!(line_count_syntax(&entry("a/b.py", EntryKind::File), &norm), Some(CommentSyntax::Hash));
    assert_eq!(line_count_syntax(&entry("a/b.py", EntryKind::Directory), &norm), None);
    assert_eq!(line_count_syntax(&entry("a/.rs", EntryKind::File), &norm), None);
    assert_eq!(line_count_syntax(&entry("notes.txt", EntryKind::File), &norm), None);
}

#[test]
fn count_entries_totals_and_monolithic() {
    let entries = vec![
        entry("a.rs", EntryKind::File),
        entry("b.rs", EntryKind::File),
        entry("c.txt", EntryKind::File),
        entry("d.rs", EntryKind::File),
        entry("e.rs", EntryKind::File),
    ];
    let contents = vec![
        Some(b"fn a() {}\n// c\n".to_vec()),
        Some(b"x\ny\nz\n".to_vec()),
        Some(b"text\n".to_vec()),
        None,
        Some(b"p\nq\nr\n".to_vec()),
    ];
    let rep = count_entries(&entries, &["rs".to_string()], 3, &contents).unwrap();
    assert_eq!(rep.per_file.len(), 3);
    assert_eq!(rep.total_lines, 8);
    assert_eq!(rep.total_code_lines, 7);
    let mono: Vec<&str> = rep.monolithic.iter().map(|f| f.path.as_str()).collect();
    assert_eq!(mono, vec!["b.rs", "e.rs"]);
}

#[test]
fn count_counts_the_files_of_a_scan() {
    let report = filecanopy::scanner::ScanReport {
        entries: vec![entry("/r/a.rs", EntryKind::File), entry("/r/b.txt", EntryKind::File)],
        ..filecanopy::scanner::ScanReport::default()
    };
    let contents = vec![Some(b"fn a() {}\n// c\n".to_vec()), None];
    let rep = count(&report, &["rs".to_string()], 1000, &contents).unwrap();
    assert_eq!(rep.per_file.len(), 1);
    assert_eq!(rep.total_lines, 2);
    assert_eq!(rep.total_code_lines, 1);
    let empty = count(&filecanopy::scanner::ScanReport::default(), &["rs".to_string()], 1000, &[]).unwrap();
    assert!(empty.per_file.is_empty());
}

#[test]
fn block_comment_opened_after_code_is_carried() {
    let src = "let x = 1; /* start\n   still comment\n*/ y();\n";
    let (total, code, _) = count_text(src.as_bytes(), comment_syntax_for("rs")).expect("count");
    assert_eq!(total, 3);
    assert_eq!(code, 2);
    // Closed on the same line: nothing is carried.
    let src = "a(); /* x */ b();\nnext();\n";
    assert_eq!(count_text(src.as_bytes(), comment_syntax_for("rs")).unwrap().1, 2);
    // A `/*` inside a line comment opens nothing.
    let src = "a(); // /* not a block\nb();\n";
    assert_eq!(count_text(src.as_bytes(), comment_syntax_for("rs")).unwrap().1, 2);
    // The last comment on the line decides.
    let src = "a(); /* x */ b(); /* y\nz\n*/\n";
    assert_eq!(count_text(src.as_bytes(), comment_syntax_for("rs")).unwrap(), (3, 1, 28));
}
