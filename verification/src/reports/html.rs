//! The html exporter.
use vstd::prelude::*;

use crate::scanner::metadata::{EntryKind, FileEntry};
use crate::scanner::walker::ScanReport;
use crate::text::{decimal, decimal_text};
use vstd::string::StringExecFns;

verus! {

/// How one character is written in HTML text.
pub open spec fn html_char(c: char) -> Seq<char> {
    if c == '&' {
        "&amp;"@
    } else if c == '<' {
        "&lt;"@
    } else if c == '>' {
        "&gt;"@
    } else if c == '"' {
        "&quot;"@
    } else if c == '\'' {
        "&#39;"@
    } else {
        seq![c]
    }
}

/// `s` as HTML text.
pub open spec fn html_escaped(s: Seq<char>) -> Seq<char>
    decreases s.len(),
{
    if s.len() == 0 {
        Seq::empty()
    } else {
        html_escaped(s.drop_last()) + html_char(s.last())
    }
}

/// Everything before the summary: the document head with its inline style
/// sheet, and the title.
pub open spec fn html_head() -> Seq<char> {
    "<!DOCTYPE html>\n<html><head><meta charset=\"utf-8\"><title>FileCanopy report</title><style>body{font-family:sans-serif}table{border-collapse:collapse}td,th{border:1px solid #ccc;padding:2px 6px}td.n{text-align:right}</style></head><body>\n<h1>FileCanopy report</h1>\n"@
}

/// The summary line: total size, files and directories.
pub open spec fn html_summary(r: ScanReport) -> Seq<char> {
    "<p>"@ + decimal(r.total_bytes as nat) + " bytes in "@ + decimal(r.file_count as nat) + " files and "@
        + decimal(r.dir_count as nat) + " directories</p>\n<table><tr><th>Path</th><th>Size</th></tr>\n"@
}

/// The table row of a file: its path and size in bytes.
pub open spec fn html_row(e: FileEntry) -> Seq<char> {
    "<tr><td>"@ + html_escaped(e.path@) + "</td><td class=\"n\">"@ + decimal(e.size as nat) + "</td></tr>\n"@
}

/// The rows of the regular files of `entries`, in their order.
pub open spec fn html_rows(entries: Seq<FileEntry>) -> Seq<char>
    decreases entries.len(),
{
    if entries.len() == 0 {
        Seq::empty()
    } else {
        html_rows(entries.drop_last()) + if entries.last().kind == EntryKind::File {
            html_row(entries.last())
        } else {
            Seq::empty()
        }
    }
}

pub open spec fn html_tail() -> Seq<char> {
    "</table>\n</body></html>\n"@
}

/// The whole HTML report of `r`.
pub open spec fn html_text(r: ScanReport) -> Seq<char> {
    html_head() + html_summary(r) + html_rows(r.entries@) + html_tail()
}

/// Append `s` as HTML text.
fn push_escaped(out: &mut String, s: &str)
    ensures
        final(out)@ == old(out)@ + html_escaped(s@),
{
    let ghost start = out@;
    let n = s.unicode_len();
    let mut k: usize = 0;
    assert(s@.take(0) =~= Seq::<char>::empty());
    while k < n
        invariant
            n == s@.len(),
            k <= n,
            out@ == start + html_escaped(s@.take(k as int)),
        decreases n - k,
    {
        let c = s.get_char(k);
        if c == '&' {
            out.append("&amp;");
        } else if c == '<' {
            out.append("&lt;");
        } else if c == '>' {
            out.append("&gt;");
        } else if c == '"' {
            out.append("&quot;");
        } else if c == '\'' {
            out.append("&#39;");
        } else {
            out.push(c);
        }
        assert(s@.take(k + 1).drop_last() =~= s@.take(k as int));
        k = k + 1;
        assert(out@ =~= start + html_escaped(s@.take(k as int)));
    }
    assert(s@.take(n as int) =~= s@);
}

fn push_decimal(out: &mut String, n: u64)
    ensures
        final(out)@ == old(out)@ + decimal(n as nat),
{
    let d = decimal_text(n);
    out.append(d.as_str());
}

/// Render a self-contained HTML report (inline CSS, no external assets):
/// the total size, file and directory counts, and a table with the path and
/// size of each regular file, in the order of the entries. The program
/// writes the text to the output file.
pub fn export(report: &ScanReport) -> (r: String)
    ensures
        r@ == html_text(*report),
{
    let mut out = String::from_str(
        "<!DOCTYPE html>\n<html><head><meta charset=\"utf-8\"><title>FileCanopy report</title><style>body{font-family:sans-serif}table{border-collapse:collapse}td,th{border:1px solid #ccc;padding:2px 6px}td.n{text-align:right}</style></head><body>\n<h1>FileCanopy report</h1>\n",
    );
    let ghost head = out@;
    out.append("<p>");
    push_decimal(&mut out, report.total_bytes);
    out.append(" bytes in ");
    push_decimal(&mut out, report.file_count);
    out.append(" files and ");
    push_decimal(&mut out, report.dir_count);
    out.append(" directories</p>\n<table><tr><th>Path</th><th>Size</th></tr>\n");
    assert(out@ =~= html_head() + html_summary(*report));
    let ghost top = out@;
    let entries = &report.entries;
    let mut i: usize = 0;
    assert(entries@.take(0) =~= Seq::<FileEntry>::empty());
    assert(out@ =~= top + html_rows(entries@.take(0)));
    while i < entries.len()
        invariant
            i <= entries@.len(),
            out@ == top + html_rows(entries@.take(i as int)),
        decreases entries@.len() - i,
    {
        let e = &entries[i];
        assert(entries@.take(i + 1).drop_last() =~= entries@.take(i as int));
        assert(entries@.take(i + 1).last() == entries@[i as int]);
        if e.is_file() {
            let ghost before = out@;
            out.append("<tr><td>");
            push_escaped(&mut out, e.path.as_str());
            out.append("</td><td class=\"n\">");
            push_decimal(&mut out, e.size);
            out.append("</td></tr>\n");
            assert(out@ =~= before + html_row(*e));
        }
        i = i + 1;
        assert(out@ =~= top + html_rows(entries@.take(i as int)));
    }
    assert(entries@.take(entries@.len() as int) =~= entries@);
    out.append("</table>\n</body></html>\n");
    assert(out@ =~= html_text(*report));
    out
}

} // verus!
