//! Screens and the table-sorting choices of the views.
use vstd::prelude::*;

use vstd::string::StringExecFns;

use crate::ordering::{
    is_sorted_by, is_total_preorder, lemma_insert_pos_by_unique, lemma_sort_by_relation_permutes,
    lemma_sort_by_relation_sorted, lemma_sort_by_relation_stable, sort_by_relation, tied_with,
};
use crate::paths::{
    components_less, extension_of, lemma_path_order_total_preorder, parent_of, path_key, path_lt,
    path_order_key, views,
};
use crate::scanner::line_counter::{FileLineCount, LineCountReport};
use crate::scanner::metadata::FileEntry;
use crate::text::{decimal, decimal_text};
use crate::visualization::treemap::label_of_path;

verus! {

/// The screens of the application, one per sidebar entry.
#[derive(Debug, Clone, Copy, PartialEq, Eq, Structural)]
pub enum Screen {
    Dashboard,
    Scan,
    Treemap,
    Largest,
    Duplicates,
    LineCount,
    History,
    Reports,
    Scheduler,
    Settings,
    About,
}

impl Default for Screen {
    fn default() -> (r: Self)
        ensures
            r == Screen::Dashboard,
    {
        Screen::Dashboard
    }
}

/// The sidebar text of a screen.
pub open spec fn screen_label(s: Screen) -> Seq<char> {
    match s {
        Screen::Dashboard => "Dashboard"@,
        Screen::Scan => "Scan"@,
        Screen::Treemap => "Treemap"@,
        Screen::Largest => "Largest files"@,
        Screen::Duplicates => "Duplicates"@,
        Screen::LineCount => "Line count"@,
        Screen::History => "History"@,
        Screen::Reports => "Reports"@,
        Screen::Scheduler => "Scheduler"@,
        Screen::Settings => "Settings"@,
        Screen::About => "About"@,
    }
}

impl Screen {
    /// Every screen, in sidebar order.
    pub fn all() -> (r: Vec<Screen>)
        ensures
            r@ == seq![
                Screen::Dashboard,
                Screen::Scan,
                Screen::Treemap,
                Screen::Largest,
                Screen::Duplicates,
                Screen::LineCount,
                Screen::History,
                Screen::Reports,
                Screen::Scheduler,
                Screen::Settings,
                Screen::About,
            ],
    {
        let r = vec![
            Screen::Dashboard,
            Screen::Scan,
            Screen::Treemap,
            Screen::Largest,
            Screen::Duplicates,
            Screen::LineCount,
            Screen::History,
            Screen::Reports,
            Screen::Scheduler,
            Screen::Settings,
            Screen::About,
        ];
        assert(r@ =~= seq![
            Screen::Dashboard,
            Screen::Scan,
            Screen::Treemap,
            Screen::Largest,
            Screen::Duplicates,
            Screen::LineCount,
            Screen::History,
            Screen::Reports,
            Screen::Scheduler,
            Screen::Settings,
            Screen::About,
        ]);
        r
    }

    /// The sidebar text of the screen.
    pub fn label(self) -> (r: &'static str)
        ensures
            r@ == screen_label(self),
    {
        match self {
            Screen::Dashboard => "Dashboard",
            Screen::Scan => "Scan",
            Screen::Treemap => "Treemap",
            Screen::Largest => "Largest files",
            Screen::Duplicates => "Duplicates",
            Screen::LineCount => "Line count",
            Screen::History => "History",
            Screen::Reports => "Reports",
            Screen::Scheduler => "Scheduler",
            Screen::Settings => "Settings",
            Screen::About => "About",
        }
    }
}

/// Column the line-count table is sorted by.
#[derive(Debug, Clone, Copy, PartialEq, Eq, Structural)]
pub enum LineCountSortColumn {
    Path,
    Lines,
    CodeLines,
    CommentLines,
    Bytes,
}

/// Direction of a table sort.
#[derive(Debug, Clone, Copy, PartialEq, Eq, Structural)]
pub enum SortDirection {
    Ascending,
    Descending,
}

impl SortDirection {
    /// The other direction.
    pub fn toggle(self) -> (r: Self)
        ensures
            r != self,
    {
        match self {
            SortDirection::Ascending => SortDirection::Descending,
            SortDirection::Descending => SortDirection::Ascending,
        }
    }
}

impl Default for LineCountSortColumn {
    fn default() -> (r: Self)
        ensures
            r == LineCountSortColumn::Lines,
    {
        LineCountSortColumn::Lines
    }
}

impl Default for SortDirection {
    fn default() -> (r: Self)
        ensures
            r == SortDirection::Descending,
    {
        SortDirection::Descending
    }
}

/// The text of a column header: the label, followed by an arrow for the
/// direction when the column is the one sorted by.
pub open spec fn header_text(
    label: Seq<char>,
    col: LineCountSortColumn,
    active: LineCountSortColumn,
    dir: SortDirection,
) -> Seq<char> {
    if col == active {
        label + " "@ + match dir {
            SortDirection::Ascending => "↑"@,
            SortDirection::Descending => "↓"@,
        }
    } else {
        label
    }
}

/// The text of a column header.
pub fn header_label(
    label: &str,
    col: LineCountSortColumn,
    active: LineCountSortColumn,
    dir: SortDirection,
) -> (r: String)
    ensures
        r@ == header_text(label@, col, active, dir),
{
    if col == active {
        let arrow = match dir {
            SortDirection::Ascending => "↑",
            SortDirection::Descending => "↓",
        };
        let mut s = String::from_str(label);
        s.append(" ");
        s.append(arrow);
        s
    } else {
        String::from_str(label)
    }
}

/// The extensions offered by the line counter at start, all switched off.
pub open spec fn default_extension_names() -> Seq<Seq<char>> {
    seq!["rs"@, "py"@, "ts"@, "tsx"@, "js"@, "jsx"@, "go"@, "java"@, "c"@, "cpp"@, "h"@, "hpp"@]
}

/// The extensions offered by the line counter at start, each switched off.
pub fn default_extensions() -> (r: Vec<(String, bool)>)
    ensures
        r@.len() == default_extension_names().len(),
        forall|i: int|
            0 <= i < r@.len() ==> r@[i].0@ == default_extension_names()[i] && !r@[i].1,
{
    let names: Vec<&str> = vec!["rs", "py", "ts", "tsx", "js", "jsx", "go", "java", "c", "cpp", "h", "hpp"];
    let mut out: Vec<(String, bool)> = Vec::new();
    let mut i: usize = 0;
    assert(crate::scanner::line_counter::str_views(names@) =~= default_extension_names());
    assert forall|j: int| 0 <= j < names@.len() implies names@[j]@ == default_extension_names()[j] by {
        assert(crate::scanner::line_counter::str_views(names@)[j] == names@[j]@);
    }
    while i < names.len()
        invariant
            i <= names@.len(),
            names@.len() == default_extension_names().len(),
            forall|j: int| 0 <= j < names@.len() ==> names@[j]@ == default_extension_names()[j],
            out@.len() == i,
            forall|j: int| 0 <= j < i ==> out@[j].0@ == default_extension_names()[j] && !out@[j].1,
        decreases names.len() - i,
    {
        out.push((String::from_str(names[i]), false));
        i += 1;
    }
    out
}

// ---------------------------------------------------------------------------
// Texts shown by the views
// ---------------------------------------------------------------------------

/// The text `humansize` renders for `n` bytes with its `DECIMAL` options.
pub uninterp spec fn decimal_size_text(n: u64) -> Seq<char>;

/// Calls `humansize::format_size` with the `DECIMAL` options (SI units, up
/// to two decimals). The contract only names the result: the text for
/// exactly this size; its form is not stated.
#[verifier::external_body]
fn format_size_decimal(n: u64) -> (r: String)
    ensures
        r@ == decimal_size_text(n),
{
    humansize::format_size(n, humansize::DECIMAL)
}

/// The human-readable size of `n` bytes.
pub fn size_text(n: u64) -> (r: String)
    ensures
        r@ == decimal_size_text(n),
{
    format_size_decimal(n)
}

/// The details of one file shown beside the largest-files list (all but
/// the modification time, which is rendered in the local time zone).
#[derive(Debug, Clone)]
pub struct FileDetails {
    pub name: String,
    pub parent: String,
    pub extension: String,
    pub size: String,
    pub size_exact: String,
    pub size_on_disk: String,
    pub line_count: String,
    pub full_path: String,
}

/// Placeholder for a value that is not known.
pub open spec fn dash() -> Seq<char> {
    "—"@
}

/// `n` written out in decimal, followed by " bytes".
pub open spec fn exact_bytes_text(n: u64) -> Seq<char> {
    decimal(n as nat) + " bytes"@
}

/// The details of a file, as text.
pub open spec fn details_of(e: FileEntry) -> (Seq<char>, Seq<char>, Seq<char>, Seq<char>, Seq<char>, Seq<char>, Seq<char>, Seq<char>) {
    (
        label_of_path(e.path@),
        match parent_of(e.path@) {
            Some(q) => q,
            None => Seq::empty(),
        },
        match extension_of(e.path@) {
            Some(x) => x,
            None => dash(),
        },
        decimal_size_text(e.size),
        exact_bytes_text(e.size),
        match e.size_on_disk {
            Some(s) => decimal_size_text(s) + " ("@ + exact_bytes_text(s) + ")"@,
            None => dash(),
        },
        match e.line_count {
            Some(n) => decimal(n as nat),
            None => dash(),
        },
        e.path@,
    )
}

/// `n` written out in decimal, followed by " bytes".
fn exact_bytes(n: u64) -> (r: String)
    ensures
        r@ == exact_bytes_text(n),
{
    let mut s = decimal_text(n);
    s.append(" bytes");
    s
}

/// The details of `entry` shown in the file-details panel.
pub fn file_details(entry: &FileEntry) -> (r: FileDetails)
    ensures
        (r.name@, r.parent@, r.extension@, r.size@, r.size_exact@, r.size_on_disk@, r.line_count@, r.full_path@)
            == details_of(*entry),
{
    let path = entry.path.as_str();
    let name = crate::visualization::treemap::file_name_label(path);
    let parent = match crate::paths::parent_path(path) {
        Some(q) => q,
        None => String::new(),
    };
    let extension = match crate::paths::path_extension(path) {
        Some(x) => x,
        None => String::from_str("—"),
    };
    let size_on_disk = match entry.size_on_disk {
        Some(s) => {
            let mut t = size_text(s);
            t.append(" (");
            t.append(exact_bytes(s).as_str());
            t.append(")");
            t
        },
        None => String::from_str("—"),
    };
    let line_count = match entry.line_count {
        Some(n) => decimal_text(n),
        None => String::from_str("—"),
    };
    FileDetails {
        name,
        parent,
        extension,
        size: size_text(entry.size),
        size_exact: exact_bytes(entry.size),
        size_on_disk,
        line_count,
        full_path: entry.path.clone(),
    }
}

/// Comment and blank lines of a file: its lines that are not code.
pub open spec fn comment_lines(f: FileLineCount) -> nat {
    if f.lines >= f.code_lines {
        (f.lines - f.code_lines) as nat
    } else {
        0
    }
}

/// The texts of one row of the line-count table.
#[derive(Debug, Clone)]
pub struct LineCountRow {
    /// Total lines, marked ` *` when at or above a positive monolith threshold.
    pub lines: String,
    pub code_lines: String,
    pub comment_lines: String,
    pub bytes: String,
    pub path: String,
}

/// The total-lines text of a row.
pub open spec fn row_lines_text(f: FileLineCount, threshold: u64) -> Seq<char> {
    if threshold > 0 && f.lines >= threshold {
        decimal(f.lines as nat) + " *"@
    } else {
        decimal(f.lines as nat)
    }
}

/// The texts of one row of the line-count table.
pub fn line_count_row(f: &FileLineCount, threshold: u64) -> (r: LineCountRow)
    ensures
        r.lines@ == row_lines_text(*f, threshold),
        r.code_lines@ == decimal(f.code_lines as nat),
        r.comment_lines@ == decimal(comment_lines(*f)),
        r.bytes@ == decimal_size_text(f.bytes),
        r.path@ == f.path@,
{
    let comment = f.lines.saturating_sub(f.code_lines);
    let mut lines = decimal_text(f.lines);
    if threshold > 0 && f.lines >= threshold {
        lines.append(" *");
    }
    LineCountRow {
        lines,
        code_lines: decimal_text(f.code_lines),
        comment_lines: decimal_text(comment),
        bytes: size_text(f.bytes),
        path: f.path.clone(),
    }
}

/// The summary line above the line-count table.
pub open spec fn summary_text(total: u64, code: u64, files: nat) -> Seq<char> {
    "Total lines: "@ + decimal(total as nat) + "  •  Total code lines: "@ + decimal(code as nat)
        + "  •  Comment/blank: "@ + decimal(if total >= code {
        (total - code) as nat
    } else {
        0
    }) + "  •  Files: "@ + decimal(files)
}

/// The summary line above the line-count table.
pub fn line_count_summary(report: &LineCountReport) -> (r: String)
    ensures
        r@ == summary_text(report.total_lines, report.total_code_lines, report.per_file@.len()),
{
    let comment = report.total_lines.saturating_sub(report.total_code_lines);
    let files = report.per_file.len() as u64;
    let mut s = String::from_str("Total lines: ");
    s.append(decimal_text(report.total_lines).as_str());
    s.append("  •  Total code lines: ");
    s.append(decimal_text(report.total_code_lines).as_str());
    s.append("  •  Comment/blank: ");
    s.append(decimal_text(comment).as_str());
    s.append("  •  Files: ");
    s.append(decimal_text(files).as_str());
    s
}


// ---------------------------------------------------------------------------
// Sorting the line-count table
// ---------------------------------------------------------------------------

/// Row `a` may stand before row `b` in the table sorted ascending by `col`.
pub open spec fn row_not_after(col: LineCountSortColumn, a: FileLineCount, b: FileLineCount) -> bool {
    match col {
        LineCountSortColumn::Path => !path_lt(b.path@, a.path@),
        LineCountSortColumn::Lines => a.lines <= b.lines,
        LineCountSortColumn::CodeLines => a.code_lines <= b.code_lines,
        LineCountSortColumn::CommentLines => comment_lines(a) <= comment_lines(b),
        LineCountSortColumn::Bytes => a.bytes <= b.bytes,
    }
}

/// The order of the rows of the table sorted by `col` in direction `dir`.
pub open spec fn row_order(col: LineCountSortColumn, dir: SortDirection) -> spec_fn(
    FileLineCount,
    FileLineCount,
) -> bool {
    |a: FileLineCount, b: FileLineCount|
        match dir {
            SortDirection::Ascending => row_not_after(col, a, b),
            SortDirection::Descending => row_not_after(col, b, a),
        }
}

/// The row order of every column and direction is a total preorder.
pub proof fn lemma_row_order_total_preorder(col: LineCountSortColumn, dir: SortDirection)
    ensures
        is_total_preorder(row_order(col, dir)),
{
    let before = row_order(col, dir);
    lemma_path_order_total_preorder();
    let le = |a: Seq<char>, b: Seq<char>| !path_lt(b, a);
    assert forall|x: FileLineCount, y: FileLineCount| #[trigger] before(x, y) || before(y, x) by {
        if col == LineCountSortColumn::Path {
            assert(le(x.path@, y.path@) || le(y.path@, x.path@));
        }
    }
    assert forall|x: FileLineCount, y: FileLineCount, z: FileLineCount|
        #[trigger] before(x, y) && #[trigger] before(y, z) implies before(x, z) by {
        if col == LineCountSortColumn::Path {
            if dir == SortDirection::Ascending {
                assert(le(x.path@, y.path@) && le(y.path@, z.path@) ==> le(x.path@, z.path@));
            } else {
                assert(le(z.path@, y.path@) && le(y.path@, x.path@) ==> le(z.path@, x.path@));
            }
        }
    }
}

/// The table sorted by any column is in order, holds the same rows, and
/// keeps tied rows in the order in which they came, as a stable sort does.
pub proof fn lemma_sorted_rows_laws(
    files: Seq<FileLineCount>,
    col: LineCountSortColumn,
    dir: SortDirection,
    k: FileLineCount,
)
    ensures
        is_sorted_by(sort_by_relation(files, row_order(col, dir)), row_order(col, dir)),
        sort_by_relation(files, row_order(col, dir)).to_multiset() == files.to_multiset(),
        sort_by_relation(files, row_order(col, dir)).filter(tied_with(row_order(col, dir), k))
            == files.filter(tied_with(row_order(col, dir), k)),
{
    lemma_row_order_total_preorder(col, dir);
    lemma_sort_by_relation_sorted(files, row_order(col, dir));
    lemma_sort_by_relation_permutes(files, row_order(col, dir));
    lemma_sort_by_relation_stable(files, row_order(col, dir), k);
}

/// A copy of a row.
fn copy_row(f: &FileLineCount) -> (r: FileLineCount)
    ensures
        r == *f,
{
    FileLineCount { path: f.path.clone(), lines: f.lines, code_lines: f.code_lines, bytes: f.bytes }
}

/// Whether row `a` may stand before row `b`; `ka` and `kb` are the
/// components of their paths, read only when sorting by path.
fn row_goes_before(
    a: &FileLineCount,
    ka: &Vec<String>,
    b: &FileLineCount,
    kb: &Vec<String>,
    col: LineCountSortColumn,
    dir: SortDirection,
) -> (r: bool)
    requires
        col == LineCountSortColumn::Path ==> views(ka@) == path_key(a.path@) && views(kb@)
            == path_key(b.path@),
    ensures
        r == (row_order(col, dir))(*a, *b),
{
    let (x, y, kx, ky) = match dir {
        SortDirection::Ascending => (a, b, ka, kb),
        SortDirection::Descending => (b, a, kb, ka),
    };
    match col {
        LineCountSortColumn::Path => !components_less(ky, kx),
        LineCountSortColumn::Lines => x.lines <= y.lines,
        LineCountSortColumn::CodeLines => x.code_lines <= y.code_lines,
        LineCountSortColumn::CommentLines => x.lines.saturating_sub(x.code_lines) <= y.lines.saturating_sub(
            y.code_lines,
        ),
        LineCountSortColumn::Bytes => x.bytes <= y.bytes,
    }
}

/// The rows of the line-count table, sorted by `col` in direction `dir`
/// as a stable sort orders them: tied rows keep their order.
pub fn sorted_rows(files: &[FileLineCount], col: LineCountSortColumn, dir: SortDirection) -> (r: Vec<
    FileLineCount,
>)
    ensures
        r@ == sort_by_relation(files@, row_order(col, dir)),
{
    let ghost before = row_order(col, dir);
    proof {
        lemma_row_order_total_preorder(col, dir);
        assert(files@.take(0) =~= Seq::<FileLineCount>::empty());
    }
    let n = files.len();
    let mut out: Vec<FileLineCount> = Vec::new();
    let mut keys: Vec<Vec<String>> = Vec::new();
    let mut i: usize = 0;
    while i < n
        invariant
            n == files@.len(),
            i <= n,
            before == row_order(col, dir),
            is_total_preorder(before),
            out@ == sort_by_relation(files@.take(i as int), before),
            keys@.len() == out@.len(),
            col == LineCountSortColumn::Path ==> forall|j: int|
                0 <= j < out@.len() ==> views(#[trigger] keys@[j]@) == path_key(out@[j].path@),
        decreases n - i,
    {
        let x = copy_row(&files[i]);
        let kx = if col == LineCountSortColumn::Path {
            path_order_key(x.path.as_str())
        } else {
            Vec::new()
        };
        proof {
            lemma_sort_by_relation_sorted(files@.take(i as int), before);
        }
        let mut lo: usize = 0;
        let mut hi: usize = out.len();
        while lo < hi
            invariant
                lo <= hi <= out@.len(),
                before == row_order(col, dir),
                is_total_preorder(before),
                is_sorted_by(out@, before),
                keys@.len() == out@.len(),
                col == LineCountSortColumn::Path ==> forall|j: int|
                    0 <= j < out@.len() ==> views(#[trigger] keys@[j]@) == path_key(out@[j].path@),
                col == LineCountSortColumn::Path ==> views(kx@) == path_key(x.path@),
                forall|j: int| 0 <= j < lo ==> before(#[trigger] out@[j], x),
                forall|j: int| hi <= j < out@.len() ==> !before(#[trigger] out@[j], x),
            decreases hi - lo,
        {
            let mid = lo + (hi - lo) / 2;
            if row_goes_before(&out[mid], &keys[mid], &x, &kx, col, dir) {
                assert forall|j: int| 0 <= j < mid + 1 implies before(#[trigger] out@[j], x) by {
                    if j < mid {
                        assert(before(out@[j], out@[mid as int]));
                    }
                }
                lo = mid + 1;
            } else {
                assert forall|j: int| mid <= j < out@.len() implies !before(#[trigger] out@[j], x) by {
                    if j > mid {
                        assert(before(out@[mid as int], out@[j]));
                        if before(out@[j], x) {
                            assert(before(out@[mid as int], x));
                        }
                    }
                }
                hi = mid;
            }
        }
        proof {
            lemma_insert_pos_by_unique(out@, x, before, lo as int);
            assert(files@.take(i + 1).drop_last() =~= files@.take(i as int));
            assert(files@.take(i + 1).last() == x);
        }
        let ghost old_keys = keys@;
        let ghost old_out = out@;
        out.insert(lo, x);
        keys.insert(lo, kx);
        proof {
            if col == LineCountSortColumn::Path {
                assert forall|j: int| 0 <= j < out@.len() implies views(#[trigger] keys@[j]@) == path_key(
                    out@[j].path@,
                ) by {
                    if j < lo {
                        assert(keys@[j] == old_keys[j] && out@[j] == old_out[j]);
                    } else if j > lo {
                        assert(keys@[j] == old_keys[j - 1] && out@[j] == old_out[j - 1]);
                    }
                }
            }
        }
        i = i + 1;
    }
    proof {
        assert(files@.take(n as int) =~= files@);
    }
    out
}

} // verus!
