//! The csv exporter.
use vstd::prelude::*;

use crate::scanner::metadata::{EntryKind, FileEntry};
use crate::scanner::walker::ScanReport;
use crate::text::{decimal, decimal_text};
use vstd::string::StringExecFns;

verus! {

/// The header line of the CSV export.
pub open spec fn csv_header() -> Seq<char> {
    "path,size,size_on_disk,modified,line_count\n"@
}

/// A field needs quotes when it holds a comma, a quote or a line break.
pub open spec fn special_char(c: char) -> bool {
    c == ',' || c == '"' || c == '\n' || c == '\r'
}

pub open spec fn needs_quotes(s: Seq<char>) -> bool {
    exists|i: int| 0 <= i < s.len() && special_char(#[trigger] s[i])
}

/// `s` with each quote doubled.
pub open spec fn doubled_quotes(s: Seq<char>) -> Seq<char>
    decreases s.len(),
{
    if s.len() == 0 {
        Seq::empty()
    } else {
        doubled_quotes(s.drop_last()) + if s.last() == '"' {
            seq!['"', '"']
        } else {
            seq![s.last()]
        }
    }
}

/// `s` as one CSV field: as it is, or in quotes with its quotes doubled.
pub open spec fn csv_field(s: Seq<char>) -> Seq<char> {
    if needs_quotes(s) {
        seq!['"'] + doubled_quotes(s) + seq!['"']
    } else {
        s
    }
}

/// A number field, empty when there is no number.
pub open spec fn opt_number(o: Option<u64>) -> Seq<char> {
    match o {
        Some(n) => decimal(n as nat),
        None => Seq::empty(),
    }
}

/// The row of a file: path, size, size on disk, modification time (seconds
/// since the Unix epoch) and line count.
pub open spec fn csv_row(e: FileEntry) -> Seq<char> {
    csv_field(e.path@) + seq![','] + decimal(e.size as nat) + seq![','] + opt_number(e.size_on_disk) + seq![',']
        + opt_number(e.modified) + seq![','] + opt_number(e.line_count) + seq!['\n']
}

/// The rows of the regular files of `entries`, in their order.
pub open spec fn csv_rows(entries: Seq<FileEntry>) -> Seq<char>
    decreases entries.len(),
{
    if entries.len() == 0 {
        Seq::empty()
    } else {
        csv_rows(entries.drop_last()) + if entries.last().kind == EntryKind::File {
            csv_row(entries.last())
        } else {
            Seq::empty()
        }
    }
}

/// The whole CSV export of `entries`.
pub open spec fn csv_text(entries: Seq<FileEntry>) -> Seq<char> {
    csv_header() + csv_rows(entries)
}

/// Append `s` as one CSV field.
fn push_field(out: &mut String, s: &str)
    ensures
        final(out)@ == old(out)@ + csv_field(s@),
{
    let n = s.unicode_len();
    let mut i: usize = 0;
    let mut special = false;
    while i < n
        invariant
            n == s@.len(),
            i <= n,
            special == exists|j: int| 0 <= j < i && special_char(#[trigger] s@[j]),
        decreases n - i,
    {
        let c = s.get_char(i);
        if c == ',' || c == '"' || c == '\n' || c == '\r' {
            special = true;
        }
        i = i + 1;
    }
    if !special {
        out.append(s);
        return;
    }
    let ghost start = out@;
    out.push('"');
    let mut k: usize = 0;
    assert(s@.take(0) =~= Seq::<char>::empty());
    while k < n
        invariant
            n == s@.len(),
            k <= n,
            out@ == start + seq!['"'] + doubled_quotes(s@.take(k as int)),
        decreases n - k,
    {
        let c = s.get_char(k);
        if c == '"' {
            out.push('"');
            out.push('"');
        } else {
            out.push(c);
        }
        assert(s@.take(k + 1).drop_last() =~= s@.take(k as int));
        k = k + 1;
        assert(out@ =~= start + seq!['"'] + doubled_quotes(s@.take(k as int)));
    }
    assert(s@.take(n as int) =~= s@);
    out.push('"');
    assert(out@ =~= start + csv_field(s@));
}

/// Append a number field.
fn push_number(out: &mut String, o: Option<u64>)
    ensures
        final(out)@ == old(out)@ + opt_number(o),
{
    match o {
        Some(n) => {
            let d = decimal_text(n);
            out.append(d.as_str());
        },
        None => {
            assert(out@ =~= out@ + Seq::<char>::empty());
        },
    }
}

/// Append the row of `e`.
fn push_row(out: &mut String, e: &FileEntry)
    ensures
        final(out)@ == old(out)@ + csv_row(*e),
{
    let ghost start = out@;
    push_field(out, e.path.as_str());
    out.push(',');
    let d = decimal_text(e.size);
    out.append(d.as_str());
    out.push(',');
    push_number(out, e.size_on_disk);
    out.push(',');
    push_number(out, e.modified);
    out.push(',');
    push_number(out, e.line_count);
    out.push('\n');
    assert(out@ =~= start + csv_row(*e));
}

/// Flat CSV: one row per file with size, on-disk size, modified-time, and
/// optional line count. Rows follow the order of the entries; directories,
/// symlinks and other entries get none. The program writes the text to the
/// output file.
pub fn export(report: &ScanReport) -> (r: String)
    ensures
        r@ == csv_text(report.entries@),
{
    let mut out = String::from_str("path,size,size_on_disk,modified,line_count\n");
    let entries = &report.entries;
    let mut i: usize = 0;
    assert(entries@.take(0) =~= Seq::<FileEntry>::empty());
    assert(out@ =~= csv_header() + csv_rows(entries@.take(0)));
    while i < entries.len()
        invariant
            i <= entries@.len(),
            out@ == csv_header() + csv_rows(entries@.take(i as int)),
        decreases entries@.len() - i,
    {
        let e = &entries[i];
        let ghost before = out@;
        assert(entries@.take(i + 1).drop_last() =~= entries@.take(i as int));
        assert(entries@.take(i + 1).last() == entries@[i as int]);
        if e.is_file() {
            push_row(&mut out, e);
        }
        i = i + 1;
        assert(out@ =~= csv_header() + csv_rows(entries@.take(i as int)));
    }
    assert(entries@.take(entries@.len() as int) =~= entries@);
    out
}

} // verus!
