//! Source-line counting: how many lines a file has, and how many of them hold
//! code rather than only blanks or comments.
use vstd::prelude::*;

use crate::error::Error;
use crate::ordering::{Ranked, goes_before, is_ranked, lemma_sort_ranked_is_ranked, lemma_sort_ranked_permutes, sort_by_rank, sort_ranked};
use crate::paths::extension_of;
use crate::scanner::metadata::{EntryKind, FileEntry};
use crate::text::{lower, skip_leading_dots};

verus! {

broadcast use vstd::seq_lib::group_seq_properties;

/// Per-language comment syntax used when classifying code vs. comment lines.
#[derive(Debug, Clone, Copy, PartialEq, Eq, Structural)]
pub enum CommentSyntax {
    /// `//` line comments and `/* ... */` block comments (C-family).
    Slash,
    /// `#` line comments (Python and similar).
    Hash,
    /// No known comment syntax: every non-blank line counts as code.
    Plain,
}

/// Line counts of one file.
#[derive(Debug, Clone)]
pub struct FileLineCount {
    pub path: String,
    pub lines: u64,
    pub code_lines: u64,
    pub bytes: u64,
}

/// Line counts over a set of files.
#[derive(Debug, Clone)]
pub struct LineCountReport {
    pub per_file: Vec<FileLineCount>,
    pub total_lines: u64,
    pub total_code_lines: u64,
    /// Files with at least the monolith threshold of lines, most lines first.
    pub monolithic: Vec<FileLineCount>,
}

impl Ranked for FileLineCount {
    open spec fn rank(&self) -> int {
        self.lines as int
    }

    fn rank_value(&self) -> (r: u64) {
        self.lines
    }
}

impl FileLineCount {
    /// A field-by-field copy.
    pub fn duplicate(&self) -> (r: Self)
        ensures
            r == *self,
    {
        FileLineCount {
            path: self.path.clone(),
            lines: self.lines,
            code_lines: self.code_lines,
            bytes: self.bytes,
        }
    }
}

/// Extensions whose files use `//` and `/* */` comments.
pub open spec fn slash_extensions() -> Seq<Seq<char>> {
    seq![
        "rs"@, "ts"@, "tsx"@, "js"@, "jsx"@, "go"@, "java"@, "c"@, "cpp"@, "cc"@, "cxx"@,
        "h"@, "hpp"@, "hh"@, "hxx"@, "swift"@, "kt"@, "kts"@, "scala"@, "cs"@, "m"@, "mm"@
    ]
}

/// Extensions whose files use `#` comments.
pub open spec fn hash_extensions() -> Seq<Seq<char>> {
    seq!["py"@, "rb"@, "sh"@, "bash"@, "zsh"@, "pl"@, "yaml"@, "yml"@, "toml"@]
}

/// The comment syntax of files with extension `ext`.
pub open spec fn syntax_for(ext: Seq<char>) -> CommentSyntax {
    if slash_extensions().contains(ext) {
        CommentSyntax::Slash
    } else if hash_extensions().contains(ext) {
        CommentSyntax::Hash
    } else {
        CommentSyntax::Plain
    }
}

/// The views of a sequence of string slices.
pub open spec fn str_views(v: Seq<&str>) -> Seq<Seq<char>> {
    v.map_values(|s: &str| s@)
}

fn listed(ext: &str, list: &Vec<&str>) -> (r: bool)
    ensures
        r == str_views(list@).contains(ext@),
{
    let mut i: usize = 0;
    while i < list.len()
        invariant
            i <= list.len(),
            forall|j: int| 0 <= j < i ==> list@[j]@ != ext@,
        decreases list.len() - i,
    {
        if crate::text::str_eq(list[i], ext) {
            assert(str_views(list@)[i as int] == ext@);
            return true;
        }
        i += 1;
    }
    assert forall|j: int| 0 <= j < str_views(list@).len() implies str_views(list@)[j] != ext@ by {
        assert(str_views(list@)[j] == list@[j]@);
    }
    false
}

/// The comment syntax used by files with extension `ext` (lower case, no dot).
pub fn comment_syntax_for(ext: &str) -> (r: CommentSyntax)
    ensures
        r == syntax_for(ext@),
        ext@ == "rs"@ || ext@ == "ts"@ || ext@ == "tsx"@ || ext@ == "js"@ || ext@ == "jsx"@ || ext@ == "go"@
            || ext@ == "java"@ || ext@ == "c"@ || ext@ == "cpp"@ || ext@ == "cc"@ || ext@ == "cxx"@ || ext@ == "h"@
            || ext@ == "hpp"@ || ext@ == "hh"@ || ext@ == "hxx"@ || ext@ == "swift"@ || ext@ == "kt"@ || ext@
            == "kts"@ || ext@ == "scala"@ || ext@ == "cs"@ || ext@ == "m"@ || ext@ == "mm"@ ==> r
            == CommentSyntax::Slash,
        ext@ == "py"@ || ext@ == "rb"@ || ext@ == "sh"@ || ext@ == "bash"@ || ext@ == "zsh"@ || ext@ == "pl"@
            || ext@ == "yaml"@ || ext@ == "yml"@ || ext@ == "toml"@ ==> r == CommentSyntax::Hash,
{
    proof {
        lemma_comment_syntax_table();
    }
    let slash: Vec<&str> = vec![
        "rs", "ts", "tsx", "js", "jsx", "go", "java", "c", "cpp", "cc", "cxx", "h", "hpp", "hh",
        "hxx", "swift", "kt", "kts", "scala", "cs", "m", "mm",
    ];
    let hash: Vec<&str> = vec!["py", "rb", "sh", "bash", "zsh", "pl", "yaml", "yml", "toml"];
    assert(str_views(slash@) =~= slash_extensions());
    assert(str_views(hash@) =~= hash_extensions());
    if listed(ext, &slash) {
        CommentSyntax::Slash
    } else if listed(ext, &hash) {
        CommentSyntax::Hash
    } else {
        CommentSyntax::Plain
    }
}

// ---------------------------------------------------------------------------
// Byte-level model of a line
// ---------------------------------------------------------------------------

/// Space, tab and carriage return: the bytes trimmed from both ends of a line.
pub open spec fn is_blank(b: u8) -> bool {
    b == 32 || b == 9 || b == 13
}

/// `s` without its leading blanks.
pub open spec fn trim_start(s: Seq<u8>) -> Seq<u8>
    decreases s.len(),
{
    if s.len() > 0 && is_blank(s[0]) {
        trim_start(s.drop_first())
    } else {
        s
    }
}

/// `s` without its trailing blanks.
pub open spec fn trim_end(s: Seq<u8>) -> Seq<u8>
    decreases s.len(),
{
    if s.len() > 0 && is_blank(s.last()) {
        trim_end(s.drop_last())
    } else {
        s
    }
}

/// `s` without blanks at either end.
pub open spec fn trimmed(s: Seq<u8>) -> Seq<u8> {
    trim_end(trim_start(s))
}

/// A raw line without its `\n` terminator and, before that, one `\r`.
pub open spec fn strip_newline(line: Seq<u8>) -> Seq<u8> {
    if line.len() > 0 && line.last() == 10 {
        let l = line.drop_last();
        if l.len() > 0 && l.last() == 13 {
            l.drop_last()
        } else {
            l
        }
    } else {
        line
    }
}

/// `n` occurs in `h` at position `i`.
pub open spec fn occurs_at(h: Seq<u8>, n: Seq<u8>, i: int) -> bool {
    0 <= i && i + n.len() <= h.len() && h.subrange(i, i + n.len()) == n
}

/// First position at or after `i` where `n` occurs in `h`.
pub open spec fn first_occurrence_from(h: Seq<u8>, n: Seq<u8>, i: int) -> Option<int>
    decreases h.len() + 1 - i,
{
    if i < 0 || i + n.len() > h.len() {
        None
    } else if h.subrange(i, i + n.len()) == n {
        Some(i)
    } else {
        first_occurrence_from(h, n, i + 1)
    }
}

/// First position where the non-empty needle `n` occurs in `h`.
pub open spec fn first_occurrence(h: Seq<u8>, n: Seq<u8>) -> Option<int> {
    if n.len() == 0 {
        None
    } else {
        first_occurrence_from(h, n, 0)
    }
}

/// `s` begins with `p`.
pub open spec fn begins_with(s: Seq<u8>, p: Seq<u8>) -> bool {
    p.len() <= s.len() && s.subrange(0, p.len() as int) == p
}

/// The bytes `//`, `/*`, `*/` and `#`.
pub open spec fn line_comment() -> Seq<u8> {
    seq![47u8, 47u8]
}

pub open spec fn block_open() -> Seq<u8> {
    seq![47u8, 42u8]
}

pub open spec fn block_close() -> Seq<u8> {
    seq![42u8, 47u8]
}

pub open spec fn hash_comment() -> Seq<u8> {
    seq![35u8]
}

pub proof fn lemma_trim_len(s: Seq<u8>)
    ensures
        trim_start(s).len() <= s.len(),
        trim_end(s).len() <= s.len(),
        trimmed(s).len() <= s.len(),
    decreases s.len(),
{
    lemma_trim_start_len(s);
    lemma_trim_end_len(s);
    lemma_trim_end_len(trim_start(s));
}

proof fn lemma_trim_start_len(s: Seq<u8>)
    ensures
        trim_start(s).len() <= s.len(),
    decreases s.len(),
{
    if s.len() > 0 && is_blank(s[0]) {
        lemma_trim_start_len(s.drop_first());
    }
}

proof fn lemma_trim_end_len(s: Seq<u8>)
    ensures
        trim_end(s).len() <= s.len(),
    decreases s.len(),
{
    if s.len() > 0 && is_blank(s.last()) {
        lemma_trim_end_len(s.drop_last());
    }
}

pub proof fn lemma_first_occurrence_from(h: Seq<u8>, n: Seq<u8>, i: int)
    ensures
        first_occurrence_from(h, n, i) matches Some(j) ==> i <= j && occurs_at(h, n, j),
    decreases h.len() + 1 - i,
{
    if !(i < 0 || i + n.len() > h.len()) && h.subrange(i, i + n.len()) != n {
        lemma_first_occurrence_from(h, n, i + 1);
    }
}

/// Whether a block comment is left open at the end of `s`, text that starts
/// outside any comment: a `/*` opens one unless a `//` comes first, and the
/// next `*/` closes it again.
pub open spec fn block_left_open(s: Seq<u8>) -> bool
    decreases s.len(),
{
    if s.len() == 0 {
        false
    } else if begins_with(s, line_comment()) {
        false
    } else if begins_with(s, block_open()) {
        let after = s.subrange(2, s.len() as int);
        match first_occurrence(after, block_close()) {
            Some(idx) => {
                proof {
                    lemma_first_occurrence_from(after, block_close(), 0);
                }
                block_left_open(after.subrange(idx + 2, after.len() as int))
            },
            None => true,
        }
    } else {
        block_left_open(s.drop_first())
    }
}

/// Code classification of the trimmed remainder of a line that is not inside
/// a block comment: whether it holds code, and whether a block comment is
/// left open at its end.
pub open spec fn classify_rest(rest: Seq<u8>, syntax: CommentSyntax) -> (bool, bool)
    decreases rest.len(),
{
    if rest.len() == 0 {
        (false, false)
    } else {
        match syntax {
            CommentSyntax::Slash => {
                if begins_with(rest, line_comment()) {
                    (false, false)
                } else if begins_with(rest, block_open()) {
                    let after = rest.subrange(2, rest.len() as int);
                    match first_occurrence(after, block_close()) {
                        Some(idx) => {
                            proof {
                                lemma_first_occurrence_from(after, block_close(), 0);
                                lemma_trim_len(after.subrange(idx + 2, after.len() as int));
                            }
                            classify_rest(
                                trimmed(after.subrange(idx + 2, after.len() as int)),
                                syntax,
                            )
                        },
                        None => (false, true),
                    }
                } else {
                    (true, block_left_open(rest))
                }
            },
            CommentSyntax::Hash => (!begins_with(rest, hash_comment()), false),
            CommentSyntax::Plain => (true, false),
        }
    }
}

/// Classification of one line (without terminator), given whether a block
/// comment is open when it starts: whether the line holds code, and whether
/// a block comment is open when it ends.
pub open spec fn classify_line(line: Seq<u8>, syntax: CommentSyntax, in_block: bool) -> (
    bool,
    bool,
) {
    let rest = trimmed(line);
    if in_block {
        match first_occurrence(rest, block_close()) {
            Some(idx) => classify_rest(trimmed(rest.subrange(idx + 2, rest.len() as int)), syntax),
            None => (false, true),
        }
    } else {
        classify_rest(rest, syntax)
    }
}

/// The end (exclusive) of the raw line that starts at `i`: just past the next
/// `\n`, or the end of the data.
pub open spec fn line_end(data: Seq<u8>, i: int) -> int
    decreases data.len() - i,
{
    if i >= data.len() {
        data.len() as int
    } else if data[i] == 10 {
        i + 1
    } else {
        line_end(data, i + 1)
    }
}

pub proof fn lemma_line_end(data: Seq<u8>, i: int)
    requires
        0 <= i < data.len(),
    ensures
        i < line_end(data, i) <= data.len(),
        forall|j: int| i <= j < line_end(data, i) - 1 ==> data[j] != 10,
        line_end(data, i) < data.len() ==> data[line_end(data, i) - 1] == 10,
    decreases data.len() - i,
{
    if data[i] != 10 {
        if i + 1 < data.len() {
            lemma_line_end(data, i + 1);
        } else {
            assert(line_end(data, i + 1) == data.len());
        }
        assert forall|j: int| i <= j < line_end(data, i) - 1 implies data[j] != 10 by {
            if j > i {
                assert(i + 1 < data.len());
            }
        }
    }
}

/// Lines and code lines of `data` from position `i` on, with `in_block`
/// telling whether a block comment is open at `i`.
pub open spec fn tally_from(data: Seq<u8>, i: int, syntax: CommentSyntax, in_block: bool) -> (
    nat,
    nat,
)
    decreases data.len() - i,
{
    if i < 0 || i >= data.len() {
        (0, 0)
    } else {
        let e = line_end(data, i);
        proof {
            lemma_line_end(data, i);
        }
        let (code, next_block) = classify_line(strip_newline(data.subrange(i, e)), syntax, in_block);
        let (lines, code_lines) = tally_from(data, e, syntax, next_block);
        (lines + 1, code_lines + if code {
            1nat
        } else {
            0nat
        })
    }
}

/// The number of bytes probed for a NUL when deciding that content is binary.
pub const BINARY_PROBE: usize = 8192;

/// Content is binary when a NUL byte occurs within its first 8 KiB.
pub open spec fn is_binary(data: Seq<u8>) -> bool {
    exists|i: int| 0 <= i < data.len() && i < BINARY_PROBE && data[i] == 0
}

/// Line statistics of file content: `None` for binary content, otherwise the
/// number of lines, of code lines, and of bytes.
pub open spec fn text_stats(data: Seq<u8>, syntax: CommentSyntax) -> Option<(nat, nat, nat)> {
    if is_binary(data) {
        None
    } else {
        let (lines, code) = tally_from(data, 0, syntax, false);
        Some((lines, code, data.len()))
    }
}

// ---------------------------------------------------------------------------
// Executable classification
// ---------------------------------------------------------------------------

fn is_blank_byte(b: u8) -> (r: bool)
    ensures
        r == is_blank(b),
{
    b == 32 || b == 9 || b == 13
}

/// Length of `buf` without its line terminator (`\n`, or `\r\n`).
fn trim_trailing_newline(buf: &[u8]) -> (r: usize)
    ensures
        r <= buf@.len(),
        buf@.subrange(0, r as int) == strip_newline(buf@),
{
    let mut end = buf.len();
    if end > 0 && buf[end - 1] == 10 {
        end -= 1;
        if end > 0 && buf[end - 1] == 13 {
            end -= 1;
        }
    }
    proof {
        if buf@.len() > 0 && buf@.last() == 10 {
            assert(buf@.drop_last() =~= buf@.subrange(0, buf@.len() - 1));
            let l = buf@.drop_last();
            if l.len() > 0 && l.last() == 13 {
                assert(l.drop_last() =~= buf@.subrange(0, end as int));
            }
        }
    }
    assert(buf@.subrange(0, buf@.len() as int) =~= buf@);
    end
}

/// `s` without blanks at either end.
fn trim_ascii(s: &[u8]) -> (r: &[u8])
    ensures
        r@ == trimmed(s@),
{
    let mut start: usize = 0;
    let mut end: usize = s.len();
    assert(s@.subrange(0, s@.len() as int) =~= s@);
    while start < end && is_blank_byte(s[start])
        invariant
            start <= end,
            end == s@.len(),
            trim_start(s@) == trim_start(s@.subrange(start as int, end as int)),
        decreases end - start,
    {
        assert(s@.subrange(start as int, end as int).drop_first() =~= s@.subrange(
            start + 1,
            end as int,
        ));
        start += 1;
    }
    assert(trim_start(s@) == s@.subrange(start as int, end as int));
    while end > start && is_blank_byte(s[end - 1])
        invariant
            start <= end <= s@.len(),
            trimmed(s@) == trim_end(s@.subrange(start as int, end as int)),
        decreases end - start,
    {
        assert(s@.subrange(start as int, end as int).drop_last() =~= s@.subrange(
            start as int,
            end - 1,
        ));
        end -= 1;
    }
    &s[start..end]
}

/// First position of the non-empty `needle` in `haystack`.
fn find(haystack: &[u8], needle: &[u8]) -> (r: Option<usize>)
    ensures
        r matches Some(i) ==> first_occurrence(haystack@, needle@) == Some(i as int),
        r is None ==> first_occurrence(haystack@, needle@) is None,
{
    if needle.len() == 0 || haystack.len() < needle.len() {
        return None;
    }
    let n = needle.len();
    let hlen = haystack.len();
    let last = hlen - n;
    let mut i: usize = 0;
    while i <= last
        invariant
            n == needle@.len(),
            n > 0,
            last + n == haystack@.len(),
            hlen == haystack@.len(),
            i <= last + 1,
            first_occurrence(haystack@, needle@) == first_occurrence_from(
                haystack@,
                needle@,
                i as int,
            ),
        decreases last + 1 - i,
    {
        let mut j: usize = 0;
        while j < n && haystack[i + j] == needle[j]
            invariant
                n == needle@.len(),
                i <= last,
                last + n == haystack@.len(),
                i + n <= haystack@.len(),
                hlen == haystack@.len(),
                j <= n,
                forall|k: int| 0 <= k < j ==> haystack@[i + k] == needle@[k],
            decreases n - j,
        {
            j += 1;
        }
        if j == n {
            assert(haystack@.subrange(i as int, i + n) =~= needle@);
            return Some(i);
        }
        assert(haystack@.subrange(i as int, i + n)[j as int] != needle@[j as int]);
        i += 1;
    }
    None
}

fn starts_with_bytes(s: &[u8], a: u8, b: u8) -> (r: bool)
    ensures
        r == begins_with(s@, seq![a, b]),
{
    let r = s.len() >= 2 && s[0] == a && s[1] == b;
    proof {
        if s@.len() >= 2 {
            if r {
                assert(s@.subrange(0, 2) =~= seq![a, b]);
            } else {
                assert(s@.subrange(0, 2)[0] == s@[0]);
                assert(s@.subrange(0, 2)[1] == s@[1]);
            }
        }
    }
    r
}

/// Whether a block comment is left open at the end of `s`, as
/// [`block_left_open`] reads it.
fn leaves_block_open(s: &[u8], close_s: &[u8]) -> (r: bool)
    requires
        close_s@ == block_close(),
    ensures
        r == block_left_open(s@),
{
    let n = s.len();
    let mut i: usize = 0;
    assert(s@.subrange(0, n as int) =~= s@);
    while i < n
        invariant
            i <= n,
            n == s@.len(),
            close_s@ == block_close(),
            block_left_open(s@) == block_left_open(s@.subrange(i as int, n as int)),
        decreases n - i,
    {
        let ghost t = s@.subrange(i as int, n as int);
        if i + 1 < n && s[i] == 47 && s[i + 1] == 47 {
            assert(t.subrange(0, 2) =~= line_comment());
            return false;
        }
        if i + 1 < n && s[i] == 47 && s[i + 1] == 42 {
            assert(t.subrange(0, 2) =~= block_open());
            assert(t.subrange(0, 2)[1] != line_comment()[1]);
            let after = &s[i + 2..n];
            assert(after@ =~= t.subrange(2, t.len() as int));
            match find(after, close_s) {
                Some(idx) => {
                    proof {
                        lemma_first_occurrence_from(after@, block_close(), 0);
                    }
                    assert(after@.subrange(idx + 2, after@.len() as int) =~= s@.subrange(
                        i + 2 + idx + 2,
                        n as int,
                    ));
                    i = i + 2 + idx + 2;
                },
                None => {
                    return true;
                },
            }
        } else {
            proof {
                if t.len() >= 2 {
                    assert(t.subrange(0, 2)[0] == s@[i as int]);
                    assert(t.subrange(0, 2)[1] == s@[i + 1]);
                    assert(line_comment()[0] == 47 && line_comment()[1] == 47);
                    assert(block_open()[0] == 47 && block_open()[1] == 42);
                }
            }
            assert(t.drop_first() =~= s@.subrange(i + 1, n as int));
            i = i + 1;
        }
    }
    false
}

/// Whether `line` holds at least one byte of code, after stripping blanks at
/// both ends and comments that occupy the rest of the line. Block-comment
/// state (`/* ... */`) is carried across calls in `in_block`.
fn is_code_line(line: &[u8], syntax: CommentSyntax, in_block: &mut bool) -> (r: bool)
    ensures
        r == classify_line(line@, syntax, *old(in_block)).0,
        *final(in_block) == classify_line(line@, syntax, *old(in_block)).1,
{
    let close: Vec<u8> = vec![42u8, 47u8];
    let close_s: &[u8] = close.as_slice();
    assert(close_s@ =~= block_close());
    let mut rest = trim_ascii(line);
    let ghost expected = classify_line(line@, syntax, *old(in_block));
    if *in_block {
        match find(rest, close_s) {
            Some(idx) => {
                proof {
                    lemma_first_occurrence_from(rest@, block_close(), 0);
                }
                assert(occurs_at(rest@, block_close(), idx as int));
                *in_block = false;
                let rl = rest.len();
                rest = trim_ascii(&rest[idx + 2..rl]);
            },
            None => {
                return false;
            },
        }
    }
    loop
        invariant
            !*in_block,
            expected == classify_rest(rest@, syntax),
            expected == classify_line(line@, syntax, *old(in_block)),
            close_s@ == block_close(),
        decreases rest@.len(),
    {
        if rest.len() == 0 {
            return false;
        }
        match syntax {
            CommentSyntax::Slash => {
                if starts_with_bytes(rest, 47, 47) {
                    return false;
                }
                if starts_with_bytes(rest, 47, 42) {
                    let after_open = &rest[2..rest.len()];
                    match find(after_open, close_s) {
                        Some(idx) => {
                            proof {
                                lemma_first_occurrence_from(after_open@, block_close(), 0);
                                lemma_trim_len(after_open@.subrange(idx + 2, after_open@.len() as int));
                            }
                            rest = trim_ascii(&after_open[idx + 2..after_open.len()]);
                            continue ;
                        },
                        None => {
                            *in_block = true;
                            return false;
                        },
                    }
                }
                *in_block = leaves_block_open(rest, close_s);
                return true;
            },
            CommentSyntax::Hash => {
                let r = !(rest.len() >= 1 && rest[0] == 35);
                proof {
                    if rest@.len() >= 1 {
                        assert(rest@.subrange(0, 1)[0] == rest@[0]);
                        if rest@[0] == 35 {
                            assert(rest@.subrange(0, 1) =~= hash_comment());
                        }
                    }
                }
                return r;
            },
            CommentSyntax::Plain => {
                return true;
            },
        }
    }
}

/// Line statistics of file content: `None` when a NUL byte occurs within the
/// first 8 KiB (binary content), otherwise `(lines, code_lines, bytes)`.
pub fn count_text(data: &[u8], syntax: CommentSyntax) -> (r: Option<(u64, u64, u64)>)
    ensures
        match text_stats(data@, syntax) {
            None => r is None,
            Some((l, c, b)) => r == Some((l as u64, c as u64, b as u64)),
        },
        r matches Some((l, c, b)) ==> c <= l <= b && b == data@.len(),
{
    let len = data.len();
    let probe_end = if len < BINARY_PROBE {
        len
    } else {
        BINARY_PROBE
    };
    let mut k: usize = 0;
    while k < probe_end
        invariant
            probe_end <= len,
            len == data@.len(),
            probe_end == len || probe_end == BINARY_PROBE,
            probe_end <= BINARY_PROBE,
            forall|j: int| 0 <= j < k ==> data@[j] != 0,
            k <= probe_end,
        decreases probe_end - k,
    {
        if data[k] == 0 {
            assert(is_binary(data@));
            return None;
        }
        k += 1;
    }
    assert(!is_binary(data@));
    let mut i: usize = 0;
    let mut lines: u64 = 0;
    let mut code_lines: u64 = 0;
    let mut in_block = false;
    while i < len
        invariant
            len == data@.len(),
            i <= len,
            lines <= i,
            code_lines <= lines,
            tally_from(data@, 0, syntax, false).0 == lines + tally_from(data@, i as int, syntax, in_block).0,
            tally_from(data@, 0, syntax, false).1 == code_lines + tally_from(data@, i as int, syntax, in_block).1,
        decreases len - i,
    {
        let mut e = i;
        while e < len && data[e] != 10
            invariant
                i <= e <= len,
                len == data@.len(),
                line_end(data@, i as int) == line_end(data@, e as int),
            decreases len - e,
        {
            e += 1;
        }
        if e < len {
            e += 1;
        }
        proof {
            lemma_line_end(data@, i as int);
        }
        assert(e == line_end(data@, i as int));
        let raw = &data[i..e];
        let content_end = trim_trailing_newline(raw);
        let ghost before_block = in_block;
        let code = is_code_line(&raw[0..content_end], syntax, &mut in_block);
        lines += 1;
        if code {
            code_lines += 1;
        }
        i = e;
    }
    Some((lines, code_lines, len as u64))
}

// ---------------------------------------------------------------------------
// Counting over scanned entries
// ---------------------------------------------------------------------------

/// Extensions in the form in which they are compared: without leading dots,
/// lower case.
pub open spec fn normalized_extensions(exts: Seq<String>) -> Seq<Seq<char>> {
    exts.map_values(|e: String| lower(skip_leading_dots(e@)))
}

/// The comment syntax under which an entry is counted, or `None` when it is
/// not counted: it must be a regular file whose lower-cased extension is one
/// of the normalized extensions.
pub open spec fn counted_syntax(e: FileEntry, normalized: Seq<Seq<char>>) -> Option<CommentSyntax> {
    if e.kind != EntryKind::File {
        None
    } else {
        match extension_of(e.path@) {
            Some(x) => if normalized.contains(lower(x)) {
                Some(syntax_for(lower(x)))
            } else {
                None
            },
            None => None,
        }
    }
}

/// The line counts of one entry whose content is `content` (`None` when it
/// could not be read).
pub open spec fn file_count(e: FileEntry, normalized: Seq<Seq<char>>, content: Option<Vec<u8>>) -> Option<FileLineCount> {
    match counted_syntax(e, normalized) {
        Some(syntax) => match content {
            Some(data) => match text_stats(data@, syntax) {
                Some((l, c, b)) => Some(
                    FileLineCount { path: e.path, lines: l as u64, code_lines: c as u64, bytes: b as u64 },
                ),
                None => None,
            },
            None => None,
        },
        None => None,
    }
}

/// The line counts of every counted entry, in entry order.
pub open spec fn per_file_counts(
    entries: Seq<FileEntry>,
    normalized: Seq<Seq<char>>,
    contents: Seq<Option<Vec<u8>>>,
) -> Seq<FileLineCount>
    decreases entries.len(),
{
    if entries.len() == 0 || contents.len() < entries.len() {
        Seq::empty()
    } else {
        let n = entries.len() - 1;
        let prev = per_file_counts(entries.drop_last(), normalized, contents.subrange(0, n));
        match file_count(entries.last(), normalized, contents[n]) {
            Some(f) => prev.push(f),
            None => prev,
        }
    }
}

/// Sum of the line counts.
pub open spec fn sum_lines(s: Seq<FileLineCount>) -> nat
    decreases s.len(),
{
    if s.len() == 0 {
        0
    } else {
        sum_lines(s.drop_last()) + s.last().lines as nat
    }
}

/// Sum of the code-line counts.
pub open spec fn sum_code_lines(s: Seq<FileLineCount>) -> nat
    decreases s.len(),
{
    if s.len() == 0 {
        0
    } else {
        sum_code_lines(s.drop_last()) + s.last().code_lines as nat
    }
}

/// The predicate "has at least `t` lines".
pub open spec fn at_least_lines(t: int) -> spec_fn(FileLineCount) -> bool {
    |f: FileLineCount| f.lines >= t
}

/// The files flagged as monolithic: those with at least `threshold` lines,
/// most lines first, files of equal line count in their original order.
pub open spec fn monolithic_of(per_file: Seq<FileLineCount>, threshold: int) -> Seq<FileLineCount> {
    sort_ranked(per_file.filter(at_least_lines(threshold)), true)
}

/// Every code-line count is at most the line count.
pub open spec fn code_within_lines(s: Seq<FileLineCount>) -> bool {
    forall|i: int| 0 <= i < s.len() ==> s[i].code_lines <= s[i].lines
}

proof fn lemma_sum_code_le(s: Seq<FileLineCount>)
    requires
        code_within_lines(s),
    ensures
        sum_code_lines(s) <= sum_lines(s),
    decreases s.len(),
{
    if s.len() > 0 {
        lemma_sum_code_le(s.drop_last());
    }
}

/// The extensions in their compared form.
pub fn normalize_extensions(extensions: &[String]) -> (r: Vec<String>)
    ensures
        crate::paths::views(r@) == normalized_extensions(extensions@),
{
    let mut out: Vec<String> = Vec::new();
    let mut i: usize = 0;
    while i < extensions.len()
        invariant
            i <= extensions@.len(),
            crate::paths::views(out@) =~= normalized_extensions(extensions@.subrange(0, i as int)),
        decreases extensions.len() - i,
    {
        let e = crate::text::normalize_extension(extensions[i].as_str());
        let ghost before = crate::paths::views(out@);
        out.push(e);
        assert(crate::paths::views(out@) =~= before.push(e@));
        assert(extensions@.subrange(0, i + 1) =~= extensions@.subrange(0, i as int).push(extensions@[i as int]));
        i += 1;
    }
    assert(extensions@.subrange(0, extensions@.len() as int) =~= extensions@);
    out
}

fn contains_string(list: &Vec<String>, s: &String) -> (r: bool)
    ensures
        r == crate::paths::views(list@).contains(s@),
{
    let mut i: usize = 0;
    while i < list.len()
        invariant
            i <= list.len(),
            forall|j: int| 0 <= j < i ==> list@[j]@ != s@,
        decreases list.len() - i,
    {
        if crate::text::str_eq(list[i].as_str(), s.as_str()) {
            assert(crate::paths::views(list@)[i as int] == s@);
            return true;
        }
        i += 1;
    }
    assert forall|j: int| 0 <= j < crate::paths::views(list@).len() implies crate::paths::views(list@)[j] != s@ by {
        assert(crate::paths::views(list@)[j] == list@[j]@);
    }
    false
}

/// The comment syntax under which `entry` is counted, or `None` when it is
/// not counted (not a regular file, or an extension outside `normalized`).
pub fn line_count_syntax(entry: &FileEntry, normalized: &Vec<String>) -> (r: Option<CommentSyntax>)
    ensures
        r == counted_syntax(*entry, crate::paths::views(normalized@)),
{
    if !entry.is_file() {
        return None;
    }
    match crate::paths::path_extension(entry.path.as_str()) {
        Some(x) => {
            let ext = crate::text::to_ascii_lower(x.as_str());
            if contains_string(normalized, &ext) {
                Some(comment_syntax_for(ext.as_str()))
            } else {
                None
            }
        },
        None => None,
    }
}

/// Count lines across `entries` whose extension matches one of `extensions`
/// (case-insensitive, leading dots ignored). `contents[i]` holds the content
/// of `entries[i]`, or `None` when it could not be read; content with a NUL
/// byte in its first 8 KiB is binary and skipped. Files with at least
/// `monolith_threshold` lines are also listed as monolithic, most lines first.
pub fn count_entries(
    entries: &[FileEntry],
    extensions: &[String],
    monolith_threshold: usize,
    contents: &[Option<Vec<u8>>],
) -> (r: Result<LineCountReport, Error>)
    requires
        contents@.len() == entries@.len(),
        sum_lines(
            per_file_counts(entries@, normalized_extensions(extensions@), contents@),
        ) <= u64::MAX,
    ensures
        r matches Ok(rep) && {
            let per_file = per_file_counts(entries@, normalized_extensions(extensions@), contents@);
            &&& rep.per_file@ == per_file
            &&& rep.total_lines == sum_lines(per_file)
            &&& rep.total_code_lines == sum_code_lines(per_file)
            &&& rep.monolithic@ == monolithic_of(per_file, monolith_threshold as int)
            &&& forall|i: int, j: int|
                0 <= i < j < rep.monolithic@.len() ==> (#[trigger] rep.monolithic@[i]).lines
                    >= (#[trigger] rep.monolithic@[j]).lines
            &&& forall|i: int| 0 <= i < rep.monolithic@.len() ==> (#[trigger] rep.monolithic@[i]).lines >= monolith_threshold
        },
{
    proof {
        lemma_monolithic_most_lines_first(
            per_file_counts(entries@, normalized_extensions(extensions@), contents@),
            monolith_threshold as int,
        );
    }
    let normalized = normalize_extensions(extensions);
    let ghost norm = normalized_extensions(extensions@);
    let mut per_file: Vec<FileLineCount> = Vec::new();
    let mut i: usize = 0;
    assert(entries@.subrange(0, 0) =~= Seq::<FileEntry>::empty());
    while i < entries.len()
        invariant
            i <= entries@.len(),
            contents@.len() == entries@.len(),
            crate::paths::views(normalized@) == norm,
            per_file@ == per_file_counts(
                entries@.subrange(0, i as int),
                norm,
                contents@.subrange(0, i as int),
            ),
            code_within_lines(per_file@),
        decreases entries.len() - i,
    {
        let ghost pre_e = entries@.subrange(0, i as int);
        let ghost post_e = entries@.subrange(0, i + 1);
        let ghost post_c = contents@.subrange(0, i + 1);
        assert(post_e.drop_last() =~= pre_e);
        assert(post_c.subrange(0, i as int) =~= contents@.subrange(0, i as int));
        assert(post_e.last() == entries@[i as int]);
        assert(post_c[i as int] == contents@[i as int]);
        let entry = &entries[i];
        match line_count_syntax(entry, &normalized) {
            Some(syntax) => match &contents[i] {
                Some(data) => match count_text(data.as_slice(), syntax) {
                    Some((lines, code_lines, bytes)) => {
                        per_file.push(
                            FileLineCount { path: entry.path.clone(), lines, code_lines, bytes },
                        );
                    },
                    None => {},
                },
                None => {},
            },
            None => {},
        }
        i += 1;
    }
    assert(entries@.subrange(0, entries@.len() as int) =~= entries@);
    assert(contents@.subrange(0, contents@.len() as int) =~= contents@);
    let ghost all = per_file@;
    proof {
        lemma_sum_code_le(all);
    }
    let mut total_lines: u64 = 0;
    let mut total_code_lines: u64 = 0;
    let mut flagged: Vec<FileLineCount> = Vec::new();
    let threshold = monolith_threshold as u64;
    let mut k: usize = 0;
    assert(all.subrange(0, 0) =~= Seq::<FileLineCount>::empty());
    while k < per_file.len()
        invariant
            all == per_file@,
            k <= all.len(),
            sum_lines(all) <= u64::MAX,
            sum_code_lines(all) <= sum_lines(all),
            code_within_lines(all),
            threshold as int == monolith_threshold as int,
            total_lines == sum_lines(all.subrange(0, k as int)),
            total_code_lines == sum_code_lines(all.subrange(0, k as int)),
            flagged@ == all.subrange(0, k as int).filter(at_least_lines(monolith_threshold as int)),
        decreases all.len() - k,
    {
        let ghost pre = all.subrange(0, k as int);
        let ghost post = all.subrange(0, k + 1);
        assert(post.drop_last() =~= pre);
        assert(post.last() == all[k as int]);
        proof {
            lemma_sum_prefix_le(all, k + 1);
            pre.lemma_filter_push(all[k as int], at_least_lines(monolith_threshold as int));
            assert(post =~= pre.push(all[k as int]));
        }
        let f = &per_file[k];
        total_lines = total_lines + f.lines;
        total_code_lines = total_code_lines + f.code_lines;
        if f.lines >= threshold {
            flagged.push(f.duplicate());
        }
        k += 1;
    }
    assert(all.subrange(0, all.len() as int) =~= all);
    let monolithic = sort_by_rank(flagged, true);
    Ok(LineCountReport { per_file, total_lines, total_code_lines, monolithic })
}

/// Count the matching files of a scan. The program walks the root and
/// reads the contents of the files that `count_entries` looks at
/// (`contents`, aligned with the entries of `report`).
pub fn count(
    report: &crate::scanner::walker::ScanReport,
    extensions: &[String],
    monolith_threshold: usize,
    contents: &[Option<Vec<u8>>],
) -> (r: Result<LineCountReport, Error>)
    requires
        contents@.len() == report.entries@.len(),
        sum_lines(
            per_file_counts(report.entries@, normalized_extensions(extensions@), contents@),
        ) <= u64::MAX,
    ensures
        r matches Ok(rep) && {
            let per_file = per_file_counts(report.entries@, normalized_extensions(extensions@), contents@);
            &&& rep.per_file@ == per_file
            &&& rep.total_lines == sum_lines(per_file)
            &&& rep.total_code_lines == sum_code_lines(per_file)
            &&& rep.monolithic@ == monolithic_of(per_file, monolith_threshold as int)
            &&& forall|i: int, j: int|
                0 <= i < j < rep.monolithic@.len() ==> (#[trigger] rep.monolithic@[i]).lines
                    >= (#[trigger] rep.monolithic@[j]).lines
            &&& forall|i: int| 0 <= i < rep.monolithic@.len() ==> (#[trigger] rep.monolithic@[i]).lines >= monolith_threshold
        },
{
    count_entries(report.entries.as_slice(), extensions, monolith_threshold, contents)
}

proof fn lemma_sum_prefix_le(s: Seq<FileLineCount>, k: int)
    requires
        0 <= k <= s.len(),
        code_within_lines(s),
    ensures
        sum_lines(s.subrange(0, k)) <= sum_lines(s),
        sum_code_lines(s.subrange(0, k)) <= sum_lines(s.subrange(0, k)),
    decreases s.len() - k,
{
    if k < s.len() {
        lemma_sum_prefix_le(s, k + 1);
        assert(s.subrange(0, k + 1).drop_last() =~= s.subrange(0, k));
    } else {
        assert(s.subrange(0, k) =~= s);
    }
    assert forall|i: int| 0 <= i < s.subrange(0, k).len() implies s.subrange(0, k)[i].code_lines
        <= s.subrange(0, k)[i].lines by {
        assert(s.subrange(0, k)[i] == s[i]);
    }
    lemma_sum_code_le(s.subrange(0, k));
}


/// The monolithic files are ordered by line count, most lines first; each
/// has at least `threshold` lines, and they are exactly the files of
/// `per_file` with that many lines, each as often as it occurs there.
pub proof fn lemma_monolithic_most_lines_first(per_file: Seq<FileLineCount>, threshold: int)
    ensures
        forall|i: int, j: int|
            0 <= i < j < monolithic_of(per_file, threshold).len() ==> (#[trigger] monolithic_of(per_file, threshold)[i]).lines
                >= (#[trigger] monolithic_of(per_file, threshold)[j]).lines,
        forall|i: int|
            0 <= i < monolithic_of(per_file, threshold).len() ==> (#[trigger] monolithic_of(per_file, threshold)[i]).lines
                >= threshold,
        monolithic_of(per_file, threshold).to_multiset() == per_file.filter(|f: FileLineCount| f.lines >= threshold).to_multiset(),
{
    let flagged = per_file.filter(at_least_lines(threshold));
    lemma_sort_ranked_is_ranked(flagged, true);
    lemma_sort_ranked_permutes(flagged, true);
    let m = monolithic_of(per_file, threshold);
    assert(is_ranked(m, true));
    assert forall|i: int, j: int| 0 <= i < j < m.len() implies (#[trigger] m[i]).lines >= (#[trigger] m[j]).lines by {
        assert(goes_before(m[i].rank(), m[j].rank(), true));
    }
    broadcast use vstd::seq_lib::group_to_multiset_ensures;

    assert forall|i: int| 0 <= i < m.len() implies (#[trigger] m[i]).lines >= threshold by {
        assert(m.to_multiset().count(m[i]) > 0);
        assert(flagged.to_multiset().count(m[i]) > 0);
        assert(flagged.contains(m[i]));
        let k = choose|k: int| 0 <= k < flagged.len() && flagged[k] == m[i];
        per_file.filter_lemma(at_least_lines(threshold));
        assert(at_least_lines(threshold)(flagged[k]));
    }
    assert(at_least_lines(threshold) == (|f: FileLineCount| f.lines >= threshold));
}

/// Shifting: the lines of `a + b` from position `a.len() + j` are the lines
/// of `b` from `j`.
proof fn lemma_line_end_shift(a: Seq<u8>, b: Seq<u8>, j: int)
    requires
        0 <= j,
    ensures
        line_end(a + b, a.len() + j) == a.len() + line_end(b, j),
    decreases b.len() - j,
{
    let d = a + b;
    if j < b.len() {
        assert(d[a.len() + j] == b[j]);
        if b[j] != 10 {
            lemma_line_end_shift(a, b, j + 1);
        }
    }
}

proof fn lemma_tally_shift(a: Seq<u8>, b: Seq<u8>, j: int, syntax: CommentSyntax, in_block: bool)
    requires
        0 <= j,
    ensures
        tally_from(a + b, a.len() + j, syntax, in_block) == tally_from(b, j, syntax, in_block),
    decreases b.len() - j,
{
    let d = a + b;
    if j < b.len() {
        lemma_line_end_shift(a, b, j);
        lemma_line_end(b, j);
        let e = line_end(b, j);
        assert(d.subrange(a.len() + j, a.len() + e) =~= b.subrange(j, e));
        let (code, next) = classify_line(strip_newline(b.subrange(j, e)), syntax, in_block);
        lemma_tally_shift(a, b, e, syntax, next);
    }
}

/// Under `//` syntax, a line outside a block comment whose text (after
/// leading and trailing blanks) begins with `//` holds no code and opens no
/// block comment, whatever follows the two slashes.
pub proof fn lemma_line_comment_is_not_code(line: Seq<u8>)
    requires
        trimmed(line).len() >= 2,
        trimmed(line)[0] == 47u8,
        trimmed(line)[1] == 47u8,
    ensures
        classify_line(line, CommentSyntax::Slash, false) == (false, false),
{
    assert(trimmed(line).subrange(0, 2) =~= line_comment());
}

/// How lines are told apart, for every syntax: a blank line is never code;
/// with `#` comments a line is code exactly when its text does not begin
/// with `#`; with no comment syntax every non-blank line is code; with `//`
/// comments a line outside a block comment whose text begins with anything
/// but `/` is code; and inside a block comment a line without `*/` is no code
/// and leaves the block open.
pub proof fn lemma_line_classes(line: Seq<u8>)
    ensures
        trimmed(line).len() == 0 ==> classify_line(line, CommentSyntax::Slash, false) == (false, false)
            && classify_line(line, CommentSyntax::Hash, false) == (false, false) && classify_line(
            line,
            CommentSyntax::Plain,
            false,
        ) == (false, false),
        trimmed(line).len() > 0 ==> classify_line(line, CommentSyntax::Hash, false) == (trimmed(line)[0] != 35u8, false),
        trimmed(line).len() > 0 ==> classify_line(line, CommentSyntax::Plain, false) == (true, false),
        trimmed(line).len() > 0 && trimmed(line)[0] != 47u8 ==> classify_line(line, CommentSyntax::Slash, false).0,
        (forall|k: int| 0 <= k + 1 < line.len() ==> !(#[trigger] line[k] == 42u8 && line[k + 1] == 47u8)) ==> classify_line(
            line,
            CommentSyntax::Slash,
            true,
        ) == (false, true),
{
    let t = trimmed(line);
    if t.len() > 0 {
        assert(t.len() >= 1 ==> t.subrange(0, 1)[0] == t[0]);
        if t[0] == 35u8 {
            assert(t.subrange(0, 1) =~= hash_comment());
        }
        if t.len() >= 2 {
            assert(t.subrange(0, 2)[0] == t[0]);
        }
    }
    if forall|k: int| 0 <= k + 1 < line.len() ==> !(#[trigger] line[k] == 42u8 && line[k + 1] == 47u8) {
        lemma_no_close(line);
    }
}

/// A line without `*/` has none after trimming either.
proof fn lemma_no_close(line: Seq<u8>)
    requires
        forall|k: int| 0 <= k + 1 < line.len() ==> !(#[trigger] line[k] == 42u8 && line[k + 1] == 47u8),
    ensures
        first_occurrence(trimmed(line), block_close()) is None,
{
    let t = trimmed(line);
    let (a, b) = lemma_trim_bounds(line);
    lemma_first_occurrence_from(t, block_close(), 0);
    match first_occurrence(t, block_close()) {
        Some(idx) => {
            assert(t.subrange(idx, idx + 2) == block_close());
            assert(t.subrange(idx, idx + 2)[0] == t[idx]);
            assert(t.subrange(idx, idx + 2)[1] == t[idx + 1]);
            assert(t[idx] == line[a + idx]);
            assert(t[idx + 1] == line[a + idx + 1]);
        },
        None => {},
    }
}

proof fn lemma_trim_start_suffix(s: Seq<u8>) -> (a: int)
    ensures
        0 <= a <= s.len(),
        trim_start(s) == s.subrange(a, s.len() as int),
    decreases s.len(),
{
    if s.len() > 0 && is_blank(s[0]) {
        let a1 = lemma_trim_start_suffix(s.drop_first());
        assert(s.drop_first().subrange(a1, s.drop_first().len() as int) =~= s.subrange(a1 + 1, s.len() as int));
        a1 + 1
    } else {
        assert(s.subrange(0, s.len() as int) =~= s);
        0
    }
}

proof fn lemma_trim_end_prefix(s: Seq<u8>) -> (b: int)
    ensures
        0 <= b <= s.len(),
        trim_end(s) == s.subrange(0, b),
    decreases s.len(),
{
    if s.len() > 0 && is_blank(s.last()) {
        let b1 = lemma_trim_end_prefix(s.drop_last());
        assert(s.drop_last().subrange(0, b1) =~= s.subrange(0, b1));
        b1
    } else {
        assert(s.subrange(0, s.len() as int) =~= s);
        s.len() as int
    }
}

proof fn lemma_trim_bounds(line: Seq<u8>) -> (r: (int, int))
    ensures
        0 <= r.0 <= r.1 <= line.len(),
        trimmed(line) == line.subrange(r.0, r.1),
{
    let a = lemma_trim_start_suffix(line);
    let x = trim_start(line);
    let b = lemma_trim_end_prefix(x);
    assert(trim_end(x) =~= line.subrange(a, a + b));
    (a, a + b)
}

/// Under `//` syntax, a `//` comment line followed by more text adds one
/// line and no code line to the counts of that text.
pub proof fn lemma_comment_line_adds_no_code(line: Seq<u8>, rest: Seq<u8>)
    requires
        forall|i: int| 0 <= i < line.len() ==> line[i] != 10u8,
        trimmed(line).len() >= 2,
        trimmed(line)[0] == 47u8,
        trimmed(line)[1] == 47u8,
    ensures
        tally_from(line + seq![10u8] + rest, 0, CommentSyntax::Slash, false) == (
            tally_from(rest, 0, CommentSyntax::Slash, false).0 + 1,
            tally_from(rest, 0, CommentSyntax::Slash, false).1,
        ),
{
    let head = line + seq![10u8];
    let d = head + rest;
    assert(d =~= line + seq![10u8] + rest);
    assert forall|k: int| 0 <= k < line.len() implies d[k] != 10u8 by {
        assert(d[k] == line[k]);
    }
    assert(line_end(d, 0) == line.len() + 1) by {
        lemma_line_end(d, 0);
        assert(d[line.len() as int] == 10u8);
        if line_end(d, 0) < line.len() + 1 {
            assert(d[line_end(d, 0) - 1] == 10u8);
        }
    }
    assert(d.subrange(0, line.len() + 1int) =~= head);
    assert(head.drop_last() =~= line);
    assert(head.last() == 10u8);
    let stripped = strip_newline(head);
    if line.len() > 0 && line.last() == 13u8 {
        // A trailing carriage return is blank: trimming drops it either way.
        assert(stripped == line.drop_last());
        lemma_trim_cr(line);
    } else {
        assert(stripped == line);
    }
    lemma_line_comment_is_not_code(stripped);
    lemma_tally_shift(head, rest, 0, CommentSyntax::Slash, false);
}

proof fn lemma_trim_cr(line: Seq<u8>)
    requires
        line.len() > 0,
        line.last() == 13u8,
        trimmed(line).len() >= 2,
        trimmed(line)[0] == 47u8,
        trimmed(line)[1] == 47u8,
    ensures
        trimmed(line.drop_last()) == trimmed(line),
{
    lemma_trim_start_drop_last(line);
    let x = trim_start(line);
    assert(x.last() == 13u8);
    assert(trim_end(x) == trim_end(x.drop_last()));
}

proof fn lemma_trim_start_drop_last(s: Seq<u8>)
    requires
        trim_end(trim_start(s)).len() > 0,
        s.len() > 0,
    ensures
        trim_start(s.drop_last()) == trim_start(s).drop_last(),
        trim_start(s).len() > 0,
        trim_start(s).last() == s.last(),
    decreases s.len(),
{
    lemma_trim_len(trim_start(s));
    if is_blank(s[0]) {
        if s.len() == 1 {
            assert(s.drop_first() =~= Seq::<u8>::empty());
            assert(trim_start(s.drop_first()) =~= Seq::<u8>::empty());
            assert(trim_start(s) =~= Seq::<u8>::empty());
            assert(trim_end(Seq::<u8>::empty()) =~= Seq::<u8>::empty());
        }
        lemma_trim_start_drop_last(s.drop_first());
        if s.len() >= 2 {
            assert(s.drop_last().drop_first() =~= s.drop_first().drop_last());
            assert(s.drop_last()[0] == s[0]);
        }
    } else if s.len() >= 2 {
        assert(s.drop_last()[0] == s[0]);
    } else {
        assert(s.drop_last() =~= Seq::<u8>::empty());
    }
}

proof fn lemma_not_slash_py()
    ensures
        !slash_extensions().contains("py"@),
{
    reveal_strlit("rs");
    reveal_strlit("ts");
    reveal_strlit("tsx");
    reveal_strlit("js");
    reveal_strlit("jsx");
    reveal_strlit("go");
    reveal_strlit("java");
    reveal_strlit("c");
    reveal_strlit("cpp");
    reveal_strlit("cc");
    reveal_strlit("cxx");
    reveal_strlit("h");
    reveal_strlit("hpp");
    reveal_strlit("hh");
    reveal_strlit("hxx");
    reveal_strlit("swift");
    reveal_strlit("kt");
    reveal_strlit("kts");
    reveal_strlit("scala");
    reveal_strlit("cs");
    reveal_strlit("m");
    reveal_strlit("mm");
    reveal_strlit("py");
    reveal_strlit("rb");
    reveal_strlit("sh");
    reveal_strlit("bash");
    reveal_strlit("zsh");
    reveal_strlit("pl");
    reveal_strlit("yaml");
    reveal_strlit("yml");
    reveal_strlit("toml");
    reveal_strlit("txt");
    reveal_strlit("md");
    let sl = slash_extensions();
    let hl = hash_extensions();
    assert(sl[0][0] != "py"@[0]);
    assert(sl[1][0] != "py"@[0]);
    assert(sl[2].len() != "py"@.len());
    assert(sl[3][0] != "py"@[0]);
    assert(sl[4].len() != "py"@.len());
    assert(sl[5][0] != "py"@[0]);
    assert(sl[6].len() != "py"@.len());
    assert(sl[7].len() != "py"@.len());
    assert(sl[8].len() != "py"@.len());
    assert(sl[9][0] != "py"@[0]);
    assert(sl[10].len() != "py"@.len());
    assert(sl[11].len() != "py"@.len());
    assert(sl[12].len() != "py"@.len());
    assert(sl[13][0] != "py"@[0]);
    assert(sl[14].len() != "py"@.len());
    assert(sl[15].len() != "py"@.len());
    assert(sl[16][0] != "py"@[0]);
    assert(sl[17].len() != "py"@.len());
    assert(sl[18].len() != "py"@.len());
    assert(sl[19][0] != "py"@[0]);
    assert(sl[20].len() != "py"@.len());
    assert(sl[21][0] != "py"@[0]);
}

proof fn lemma_not_slash_rb()
    ensures
        !slash_extensions().contains("rb"@),
{
    reveal_strlit("rs");
    reveal_strlit("ts");
    reveal_strlit("tsx");
    reveal_strlit("js");
    reveal_strlit("jsx");
    reveal_strlit("go");
    reveal_strlit("java");
    reveal_strlit("c");
    reveal_strlit("cpp");
    reveal_strlit("cc");
    reveal_strlit("cxx");
    reveal_strlit("h");
    reveal_strlit("hpp");
    reveal_strlit("hh");
    reveal_strlit("hxx");
    reveal_strlit("swift");
    reveal_strlit("kt");
    reveal_strlit("kts");
    reveal_strlit("scala");
    reveal_strlit("cs");
    reveal_strlit("m");
    reveal_strlit("mm");
    reveal_strlit("py");
    reveal_strlit("rb");
    reveal_strlit("sh");
    reveal_strlit("bash");
    reveal_strlit("zsh");
    reveal_strlit("pl");
    reveal_strlit("yaml");
    reveal_strlit("yml");
    reveal_strlit("toml");
    reveal_strlit("txt");
    reveal_strlit("md");
    let sl = slash_extensions();
    let hl = hash_extensions();
    assert(sl[0][1] != "rb"@[1]);
    assert(sl[1][0] != "rb"@[0]);
    assert(sl[2].len() != "rb"@.len());
    assert(sl[3][0] != "rb"@[0]);
    assert(sl[4].len() != "rb"@.len());
    assert(sl[5][0] != "rb"@[0]);
    assert(sl[6].len() != "rb"@.len());
    assert(sl[7].len() != "rb"@.len());
    assert(sl[8].len() != "rb"@.len());
    assert(sl[9][0] != "rb"@[0]);
    assert(sl[10].len() != "rb"@.len());
    assert(sl[11].len() != "rb"@.len());
    assert(sl[12].len() != "rb"@.len());
    assert(sl[13][0] != "rb"@[0]);
    assert(sl[14].len() != "rb"@.len());
    assert(sl[15].len() != "rb"@.len());
    assert(sl[16][0] != "rb"@[0]);
    assert(sl[17].len() != "rb"@.len());
    assert(sl[18].len() != "rb"@.len());
    assert(sl[19][0] != "rb"@[0]);
    assert(sl[20].len() != "rb"@.len());
    assert(sl[21][0] != "rb"@[0]);
}

proof fn lemma_not_slash_sh()
    ensures
        !slash_extensions().contains("sh"@),
{
    reveal_strlit("rs");
    reveal_strlit("ts");
    reveal_strlit("tsx");
    reveal_strlit("js");
    reveal_strlit("jsx");
    reveal_strlit("go");
    reveal_strlit("java");
    reveal_strlit("c");
    reveal_strlit("cpp");
    reveal_strlit("cc");
    reveal_strlit("cxx");
    reveal_strlit("h");
    reveal_strlit("hpp");
    reveal_strlit("hh");
    reveal_strlit("hxx");
    reveal_strlit("swift");
    reveal_strlit("kt");
    reveal_strlit("kts");
    reveal_strlit("scala");
    reveal_strlit("cs");
    reveal_strlit("m");
    reveal_strlit("mm");
    reveal_strlit("py");
    reveal_strlit("rb");
    reveal_strlit("sh");
    reveal_strlit("bash");
    reveal_strlit("zsh");
    reveal_strlit("pl");
    reveal_strlit("yaml");
    reveal_strlit("yml");
    reveal_strlit("toml");
    reveal_strlit("txt");
    reveal_strlit("md");
    let sl = slash_extensions();
    let hl = hash_extensions();
    assert(sl[0][0] != "sh"@[0]);
    assert(sl[1][0] != "sh"@[0]);
    assert(sl[2].len() != "sh"@.len());
    assert(sl[3][0] != "sh"@[0]);
    assert(sl[4].len() != "sh"@.len());
    assert(sl[5][0] != "sh"@[0]);
    assert(sl[6].len() != "sh"@.len());
    assert(sl[7].len() != "sh"@.len());
    assert(sl[8].len() != "sh"@.len());
    assert(sl[9][0] != "sh"@[0]);
    assert(sl[10].len() != "sh"@.len());
    assert(sl[11].len() != "sh"@.len());
    assert(sl[12].len() != "sh"@.len());
    assert(sl[13][0] != "sh"@[0]);
    assert(sl[14].len() != "sh"@.len());
    assert(sl[15].len() != "sh"@.len());
    assert(sl[16][0] != "sh"@[0]);
    assert(sl[17].len() != "sh"@.len());
    assert(sl[18].len() != "sh"@.len());
    assert(sl[19][0] != "sh"@[0]);
    assert(sl[20].len() != "sh"@.len());
    assert(sl[21][0] != "sh"@[0]);
}

proof fn lemma_not_slash_bash()
    ensures
        !slash_extensions().contains("bash"@),
{
    reveal_strlit("rs");
    reveal_strlit("ts");
    reveal_strlit("tsx");
    reveal_strlit("js");
    reveal_strlit("jsx");
    reveal_strlit("go");
    reveal_strlit("java");
    reveal_strlit("c");
    reveal_strlit("cpp");
    reveal_strlit("cc");
    reveal_strlit("cxx");
    reveal_strlit("h");
    reveal_strlit("hpp");
    reveal_strlit("hh");
    reveal_strlit("hxx");
    reveal_strlit("swift");
    reveal_strlit("kt");
    reveal_strlit("kts");
    reveal_strlit("scala");
    reveal_strlit("cs");
    reveal_strlit("m");
    reveal_strlit("mm");
    reveal_strlit("py");
    reveal_strlit("rb");
    reveal_strlit("sh");
    reveal_strlit("bash");
    reveal_strlit("zsh");
    reveal_strlit("pl");
    reveal_strlit("yaml");
    reveal_strlit("yml");
    reveal_strlit("toml");
    reveal_strlit("txt");
    reveal_strlit("md");
    let sl = slash_extensions();
    let hl = hash_extensions();
    assert(sl[0].len() != "bash"@.len());
    assert(sl[1].len() != "bash"@.len());
    assert(sl[2].len() != "bash"@.len());
    assert(sl[3].len() != "bash"@.len());
    assert(sl[4].len() != "bash"@.len());
    assert(sl[5].len() != "bash"@.len());
    assert(sl[6][0] != "bash"@[0]);
    assert(sl[7].len() != "bash"@.len());
    assert(sl[8].len() != "bash"@.len());
    assert(sl[9].len() != "bash"@.len());
    assert(sl[10].len() != "bash"@.len());
    assert(sl[11].len() != "bash"@.len());
    assert(sl[12].len() != "bash"@.len());
    assert(sl[13].len() != "bash"@.len());
    assert(sl[14].len() != "bash"@.len());
    assert(sl[15].len() != "bash"@.len());
    assert(sl[16].len() != "bash"@.len());
    assert(sl[17].len() != "bash"@.len());
    assert(sl[18].len() != "bash"@.len());
    assert(sl[19].len() != "bash"@.len());
    assert(sl[20].len() != "bash"@.len());
    assert(sl[21].len() != "bash"@.len());
}

proof fn lemma_not_slash_zsh()
    ensures
        !slash_extensions().contains("zsh"@),
{
    reveal_strlit("rs");
    reveal_strlit("ts");
    reveal_strlit("tsx");
    reveal_strlit("js");
    reveal_strlit("jsx");
    reveal_strlit("go");
    reveal_strlit("java");
    reveal_strlit("c");
    reveal_strlit("cpp");
    reveal_strlit("cc");
    reveal_strlit("cxx");
    reveal_strlit("h");
    reveal_strlit("hpp");
    reveal_strlit("hh");
    reveal_strlit("hxx");
    reveal_strlit("swift");
    reveal_strlit("kt");
    reveal_strlit("kts");
    reveal_strlit("scala");
    reveal_strlit("cs");
    reveal_strlit("m");
    reveal_strlit("mm");
    reveal_strlit("py");
    reveal_strlit("rb");
    reveal_strlit("sh");
    reveal_strlit("bash");
    reveal_strlit("zsh");
    reveal_strlit("pl");
    reveal_strlit("yaml");
    reveal_strlit("yml");
    reveal_strlit("toml");
    reveal_strlit("txt");
    reveal_strlit("md");
    let sl = slash_extensions();
    let hl = hash_extensions();
    assert(sl[0].len() != "zsh"@.len());
    assert(sl[1].len() != "zsh"@.len());
    assert(sl[2][0] != "zsh"@[0]);
    assert(sl[3].len() != "zsh"@.len());
    assert(sl[4][0] != "zsh"@[0]);
    assert(sl[5].len() != "zsh"@.len());
    assert(sl[6].len() != "zsh"@.len());
    assert(sl[7].len() != "zsh"@.len());
    assert(sl[8][0] != "zsh"@[0]);
    assert(sl[9].len() != "zsh"@.len());
    assert(sl[10][0] != "zsh"@[0]);
    assert(sl[11].len() != "zsh"@.len());
    assert(sl[12][0] != "zsh"@[0]);
    assert(sl[13].len() != "zsh"@.len());
    assert(sl[14][0] != "zsh"@[0]);
    assert(sl[15].len() != "zsh"@.len());
    assert(sl[16].len() != "zsh"@.len());
    assert(sl[17][0] != "zsh"@[0]);
    assert(sl[18].len() != "zsh"@.len());
    assert(sl[19].len() != "zsh"@.len());
    assert(sl[20].len() != "zsh"@.len());
    assert(sl[21].len() != "zsh"@.len());
}

proof fn lemma_not_slash_pl()
    ensures
        !slash_extensions().contains("pl"@),
{
    reveal_strlit("rs");
    reveal_strlit("ts");
    reveal_strlit("tsx");
    reveal_strlit("js");
    reveal_strlit("jsx");
    reveal_strlit("go");
    reveal_strlit("java");
    reveal_strlit("c");
    reveal_strlit("cpp");
    reveal_strlit("cc");
    reveal_strlit("cxx");
    reveal_strlit("h");
    reveal_strlit("hpp");
    reveal_strlit("hh");
    reveal_strlit("hxx");
    reveal_strlit("swift");
    reveal_strlit("kt");
    reveal_strlit("kts");
    reveal_strlit("scala");
    reveal_strlit("cs");
    reveal_strlit("m");
    reveal_strlit("mm");
    reveal_strlit("py");
    reveal_strlit("rb");
    reveal_strlit("sh");
    reveal_strlit("bash");
    reveal_strlit("zsh");
    reveal_strlit("pl");
    reveal_strlit("yaml");
    reveal_strlit("yml");
    reveal_strlit("toml");
    reveal_strlit("txt");
    reveal_strlit("md");
    let sl = slash_extensions();
    let hl = hash_extensions();
    assert(sl[0][0] != "pl"@[0]);
    assert(sl[1][0] != "pl"@[0]);
    assert(sl[2].len() != "pl"@.len());
    assert(sl[3][0] != "pl"@[0]);
    assert(sl[4].len() != "pl"@.len());
    assert(sl[5][0] != "pl"@[0]);
    assert(sl[6].len() != "pl"@.len());
    assert(sl[7].len() != "pl"@.len());
    assert(sl[8].len() != "pl"@.len());
    assert(sl[9][0] != "pl"@[0]);
    assert(sl[10].len() != "pl"@.len());
    assert(sl[11].len() != "pl"@.len());
    assert(sl[12].len() != "pl"@.len());
    assert(sl[13][0] != "pl"@[0]);
    assert(sl[14].len() != "pl"@.len());
    assert(sl[15].len() != "pl"@.len());
    assert(sl[16][0] != "pl"@[0]);
    assert(sl[17].len() != "pl"@.len());
    assert(sl[18].len() != "pl"@.len());
    assert(sl[19][0] != "pl"@[0]);
    assert(sl[20].len() != "pl"@.len());
    assert(sl[21][0] != "pl"@[0]);
}

proof fn lemma_not_slash_yaml()
    ensures
        !slash_extensions().contains("yaml"@),
{
    reveal_strlit("rs");
    reveal_strlit("ts");
    reveal_strlit("tsx");
    reveal_strlit("js");
    reveal_strlit("jsx");
    reveal_strlit("go");
    reveal_strlit("java");
    reveal_strlit("c");
    reveal_strlit("cpp");
    reveal_strlit("cc");
    reveal_strlit("cxx");
    reveal_strlit("h");
    reveal_strlit("hpp");
    reveal_strlit("hh");
    reveal_strlit("hxx");
    reveal_strlit("swift");
    reveal_strlit("kt");
    reveal_strlit("kts");
    reveal_strlit("scala");
    reveal_strlit("cs");
    reveal_strlit("m");
    reveal_strlit("mm");
    reveal_strlit("py");
    reveal_strlit("rb");
    reveal_strlit("sh");
    reveal_strlit("bash");
    reveal_strlit("zsh");
    reveal_strlit("pl");
    reveal_strlit("yaml");
    reveal_strlit("yml");
    reveal_strlit("toml");
    reveal_strlit("txt");
    reveal_strlit("md");
    let sl = slash_extensions();
    let hl = hash_extensions();
    assert(sl[0].len() != "yaml"@.len());
    assert(sl[1].len() != "yaml"@.len());
    assert(sl[2].len() != "yaml"@.len());
    assert(sl[3].len() != "yaml"@.len());
    assert(sl[4].len() != "yaml"@.len());
    assert(sl[5].len() != "yaml"@.len());
    assert(sl[6][0] != "yaml"@[0]);
    assert(sl[7].len() != "yaml"@.len());
    assert(sl[8].len() != "yaml"@.len());
    assert(sl[9].len() != "yaml"@.len());
    assert(sl[10].len() != "yaml"@.len());
    assert(sl[11].len() != "yaml"@.len());
    assert(sl[12].len() != "yaml"@.len());
    assert(sl[13].len() != "yaml"@.len());
    assert(sl[14].len() != "yaml"@.len());
    assert(sl[15].len() != "yaml"@.len());
    assert(sl[16].len() != "yaml"@.len());
    assert(sl[17].len() != "yaml"@.len());
    assert(sl[18].len() != "yaml"@.len());
    assert(sl[19].len() != "yaml"@.len());
    assert(sl[20].len() != "yaml"@.len());
    assert(sl[21].len() != "yaml"@.len());
}

proof fn lemma_not_slash_yml()
    ensures
        !slash_extensions().contains("yml"@),
{
    reveal_strlit("rs");
    reveal_strlit("ts");
    reveal_strlit("tsx");
    reveal_strlit("js");
    reveal_strlit("jsx");
    reveal_strlit("go");
    reveal_strlit("java");
    reveal_strlit("c");
    reveal_strlit("cpp");
    reveal_strlit("cc");
    reveal_strlit("cxx");
    reveal_strlit("h");
    reveal_strlit("hpp");
    reveal_strlit("hh");
    reveal_strlit("hxx");
    reveal_strlit("swift");
    reveal_strlit("kt");
    reveal_strlit("kts");
    reveal_strlit("scala");
    reveal_strlit("cs");
    reveal_strlit("m");
    reveal_strlit("mm");
    reveal_strlit("py");
    reveal_strlit("rb");
    reveal_strlit("sh");
    reveal_strlit("bash");
    reveal_strlit("zsh");
    reveal_strlit("pl");
    reveal_strlit("yaml");
    reveal_strlit("yml");
    reveal_strlit("toml");
    reveal_strlit("txt");
    reveal_strlit("md");
    let sl = slash_extensions();
    let hl = hash_extensions();
    assert(sl[0].len() != "yml"@.len());
    assert(sl[1].len() != "yml"@.len());
    assert(sl[2][0] != "yml"@[0]);
    assert(sl[3].len() != "yml"@.len());
    assert(sl[4][0] != "yml"@[0]);
    assert(sl[5].len() != "yml"@.len());
    assert(sl[6].len() != "yml"@.len());
    assert(sl[7].len() != "yml"@.len());
    assert(sl[8][0] != "yml"@[0]);
    assert(sl[9].len() != "yml"@.len());
    assert(sl[10][0] != "yml"@[0]);
    assert(sl[11].len() != "yml"@.len());
    assert(sl[12][0] != "yml"@[0]);
    assert(sl[13].len() != "yml"@.len());
    assert(sl[14][0] != "yml"@[0]);
    assert(sl[15].len() != "yml"@.len());
    assert(sl[16].len() != "yml"@.len());
    assert(sl[17][0] != "yml"@[0]);
    assert(sl[18].len() != "yml"@.len());
    assert(sl[19].len() != "yml"@.len());
    assert(sl[20].len() != "yml"@.len());
    assert(sl[21].len() != "yml"@.len());
}

proof fn lemma_not_slash_toml()
    ensures
        !slash_extensions().contains("toml"@),
{
    reveal_strlit("rs");
    reveal_strlit("ts");
    reveal_strlit("tsx");
    reveal_strlit("js");
    reveal_strlit("jsx");
    reveal_strlit("go");
    reveal_strlit("java");
    reveal_strlit("c");
    reveal_strlit("cpp");
    reveal_strlit("cc");
    reveal_strlit("cxx");
    reveal_strlit("h");
    reveal_strlit("hpp");
    reveal_strlit("hh");
    reveal_strlit("hxx");
    reveal_strlit("swift");
    reveal_strlit("kt");
    reveal_strlit("kts");
    reveal_strlit("scala");
    reveal_strlit("cs");
    reveal_strlit("m");
    reveal_strlit("mm");
    reveal_strlit("py");
    reveal_strlit("rb");
    reveal_strlit("sh");
    reveal_strlit("bash");
    reveal_strlit("zsh");
    reveal_strlit("pl");
    reveal_strlit("yaml");
    reveal_strlit("yml");
    reveal_strlit("toml");
    reveal_strlit("txt");
    reveal_strlit("md");
    let sl = slash_extensions();
    let hl = hash_extensions();
    assert(sl[0].len() != "toml"@.len());
    assert(sl[1].len() != "toml"@.len());
    assert(sl[2].len() != "toml"@.len());
    assert(sl[3].len() != "toml"@.len());
    assert(sl[4].len() != "toml"@.len());
    assert(sl[5].len() != "toml"@.len());
    assert(sl[6][0] != "toml"@[0]);
    assert(sl[7].len() != "toml"@.len());
    assert(sl[8].len() != "toml"@.len());
    assert(sl[9].len() != "toml"@.len());
    assert(sl[10].len() != "toml"@.len());
    assert(sl[11].len() != "toml"@.len());
    assert(sl[12].len() != "toml"@.len());
    assert(sl[13].len() != "toml"@.len());
    assert(sl[14].len() != "toml"@.len());
    assert(sl[15].len() != "toml"@.len());
    assert(sl[16].len() != "toml"@.len());
    assert(sl[17].len() != "toml"@.len());
    assert(sl[18].len() != "toml"@.len());
    assert(sl[19].len() != "toml"@.len());
    assert(sl[20].len() != "toml"@.len());
    assert(sl[21].len() != "toml"@.len());
}

proof fn lemma_unlisted_txt()
    ensures
        !slash_extensions().contains("txt"@),
        !hash_extensions().contains("txt"@),
{
    reveal_strlit("rs");
    reveal_strlit("ts");
    reveal_strlit("tsx");
    reveal_strlit("js");
    reveal_strlit("jsx");
    reveal_strlit("go");
    reveal_strlit("java");
    reveal_strlit("c");
    reveal_strlit("cpp");
    reveal_strlit("cc");
    reveal_strlit("cxx");
    reveal_strlit("h");
    reveal_strlit("hpp");
    reveal_strlit("hh");
    reveal_strlit("hxx");
    reveal_strlit("swift");
    reveal_strlit("kt");
    reveal_strlit("kts");
    reveal_strlit("scala");
    reveal_strlit("cs");
    reveal_strlit("m");
    reveal_strlit("mm");
    reveal_strlit("py");
    reveal_strlit("rb");
    reveal_strlit("sh");
    reveal_strlit("bash");
    reveal_strlit("zsh");
    reveal_strlit("pl");
    reveal_strlit("yaml");
    reveal_strlit("yml");
    reveal_strlit("toml");
    reveal_strlit("txt");
    reveal_strlit("md");
    let sl = slash_extensions();
    let hl = hash_extensions();
    assert(sl[0].len() != "txt"@.len());
    assert(sl[1].len() != "txt"@.len());
    assert(sl[2][1] != "txt"@[1]);
    assert(sl[3].len() != "txt"@.len());
    assert(sl[4][0] != "txt"@[0]);
    assert(sl[5].len() != "txt"@.len());
    assert(sl[6].len() != "txt"@.len());
    assert(sl[7].len() != "txt"@.len());
    assert(sl[8][0] != "txt"@[0]);
    assert(sl[9].len() != "txt"@.len());
    assert(sl[10][0] != "txt"@[0]);
    assert(sl[11].len() != "txt"@.len());
    assert(sl[12][0] != "txt"@[0]);
    assert(sl[13].len() != "txt"@.len());
    assert(sl[14][0] != "txt"@[0]);
    assert(sl[15].len() != "txt"@.len());
    assert(sl[16].len() != "txt"@.len());
    assert(sl[17][0] != "txt"@[0]);
    assert(sl[18].len() != "txt"@.len());
    assert(sl[19].len() != "txt"@.len());
    assert(sl[20].len() != "txt"@.len());
    assert(sl[21].len() != "txt"@.len());
    assert(hl[0].len() != "txt"@.len());
    assert(hl[1].len() != "txt"@.len());
    assert(hl[2].len() != "txt"@.len());
    assert(hl[3].len() != "txt"@.len());
    assert(hl[4][0] != "txt"@[0]);
    assert(hl[5].len() != "txt"@.len());
    assert(hl[6].len() != "txt"@.len());
    assert(hl[7][0] != "txt"@[0]);
    assert(hl[8].len() != "txt"@.len());
}

proof fn lemma_unlisted_md()
    ensures
        !slash_extensions().contains("md"@),
        !hash_extensions().contains("md"@),
{
    reveal_strlit("rs");
    reveal_strlit("ts");
    reveal_strlit("tsx");
    reveal_strlit("js");
    reveal_strlit("jsx");
    reveal_strlit("go");
    reveal_strlit("java");
    reveal_strlit("c");
    reveal_strlit("cpp");
    reveal_strlit("cc");
    reveal_strlit("cxx");
    reveal_strlit("h");
    reveal_strlit("hpp");
    reveal_strlit("hh");
    reveal_strlit("hxx");
    reveal_strlit("swift");
    reveal_strlit("kt");
    reveal_strlit("kts");
    reveal_strlit("scala");
    reveal_strlit("cs");
    reveal_strlit("m");
    reveal_strlit("mm");
    reveal_strlit("py");
    reveal_strlit("rb");
    reveal_strlit("sh");
    reveal_strlit("bash");
    reveal_strlit("zsh");
    reveal_strlit("pl");
    reveal_strlit("yaml");
    reveal_strlit("yml");
    reveal_strlit("toml");
    reveal_strlit("txt");
    reveal_strlit("md");
    let sl = slash_extensions();
    let hl = hash_extensions();
    assert(sl[0][0] != "md"@[0]);
    assert(sl[1][0] != "md"@[0]);
    assert(sl[2].len() != "md"@.len());
    assert(sl[3][0] != "md"@[0]);
    assert(sl[4].len() != "md"@.len());
    assert(sl[5][0] != "md"@[0]);
    assert(sl[6].len() != "md"@.len());
    assert(sl[7].len() != "md"@.len());
    assert(sl[8].len() != "md"@.len());
    assert(sl[9][0] != "md"@[0]);
    assert(sl[10].len() != "md"@.len());
    assert(sl[11].len() != "md"@.len());
    assert(sl[12].len() != "md"@.len());
    assert(sl[13][0] != "md"@[0]);
    assert(sl[14].len() != "md"@.len());
    assert(sl[15].len() != "md"@.len());
    assert(sl[16][0] != "md"@[0]);
    assert(sl[17].len() != "md"@.len());
    assert(sl[18].len() != "md"@.len());
    assert(sl[19][0] != "md"@[0]);
    assert(sl[20].len() != "md"@.len());
    assert(sl[21][1] != "md"@[1]);
    assert(hl[0][0] != "md"@[0]);
    assert(hl[1][0] != "md"@[0]);
    assert(hl[2][0] != "md"@[0]);
    assert(hl[3].len() != "md"@.len());
    assert(hl[4].len() != "md"@.len());
    assert(hl[5][0] != "md"@[0]);
    assert(hl[6].len() != "md"@.len());
    assert(hl[7].len() != "md"@.len());
    assert(hl[8].len() != "md"@.len());
}

proof fn lemma_unlisted_empty()
    ensures
        !slash_extensions().contains(Seq::<char>::empty()),
        !hash_extensions().contains(Seq::<char>::empty()),
{
    reveal_strlit("rs");
    reveal_strlit("ts");
    reveal_strlit("tsx");
    reveal_strlit("js");
    reveal_strlit("jsx");
    reveal_strlit("go");
    reveal_strlit("java");
    reveal_strlit("c");
    reveal_strlit("cpp");
    reveal_strlit("cc");
    reveal_strlit("cxx");
    reveal_strlit("h");
    reveal_strlit("hpp");
    reveal_strlit("hh");
    reveal_strlit("hxx");
    reveal_strlit("swift");
    reveal_strlit("kt");
    reveal_strlit("kts");
    reveal_strlit("scala");
    reveal_strlit("cs");
    reveal_strlit("m");
    reveal_strlit("mm");
    reveal_strlit("py");
    reveal_strlit("rb");
    reveal_strlit("sh");
    reveal_strlit("bash");
    reveal_strlit("zsh");
    reveal_strlit("pl");
    reveal_strlit("yaml");
    reveal_strlit("yml");
    reveal_strlit("toml");
    reveal_strlit("txt");
    reveal_strlit("md");
    let sl = slash_extensions();
    let hl = hash_extensions();
    assert(sl[0].len() != Seq::<char>::empty().len());
    assert(sl[1].len() != Seq::<char>::empty().len());
    assert(sl[2].len() != Seq::<char>::empty().len());
    assert(sl[3].len() != Seq::<char>::empty().len());
    assert(sl[4].len() != Seq::<char>::empty().len());
    assert(sl[5].len() != Seq::<char>::empty().len());
    assert(sl[6].len() != Seq::<char>::empty().len());
    assert(sl[7].len() != Seq::<char>::empty().len());
    assert(sl[8].len() != Seq::<char>::empty().len());
    assert(sl[9].len() != Seq::<char>::empty().len());
    assert(sl[10].len() != Seq::<char>::empty().len());
    assert(sl[11].len() != Seq::<char>::empty().len());
    assert(sl[12].len() != Seq::<char>::empty().len());
    assert(sl[13].len() != Seq::<char>::empty().len());
    assert(sl[14].len() != Seq::<char>::empty().len());
    assert(sl[15].len() != Seq::<char>::empty().len());
    assert(sl[16].len() != Seq::<char>::empty().len());
    assert(sl[17].len() != Seq::<char>::empty().len());
    assert(sl[18].len() != Seq::<char>::empty().len());
    assert(sl[19].len() != Seq::<char>::empty().len());
    assert(sl[20].len() != Seq::<char>::empty().len());
    assert(sl[21].len() != Seq::<char>::empty().len());
    assert(hl[0].len() != Seq::<char>::empty().len());
    assert(hl[1].len() != Seq::<char>::empty().len());
    assert(hl[2].len() != Seq::<char>::empty().len());
    assert(hl[3].len() != Seq::<char>::empty().len());
    assert(hl[4].len() != Seq::<char>::empty().len());
    assert(hl[5].len() != Seq::<char>::empty().len());
    assert(hl[6].len() != Seq::<char>::empty().len());
    assert(hl[7].len() != Seq::<char>::empty().len());
    assert(hl[8].len() != Seq::<char>::empty().len());
}

/// The comment syntax of each extension of the language table: `//` and
/// `/* */` for the C family, `#` for scripting and configuration
/// languages, none for other extensions.
pub proof fn lemma_comment_syntax_table()
    ensures
        syntax_for("rs"@) == CommentSyntax::Slash,
        syntax_for("ts"@) == CommentSyntax::Slash,
        syntax_for("tsx"@) == CommentSyntax::Slash,
        syntax_for("js"@) == CommentSyntax::Slash,
        syntax_for("jsx"@) == CommentSyntax::Slash,
        syntax_for("go"@) == CommentSyntax::Slash,
        syntax_for("java"@) == CommentSyntax::Slash,
        syntax_for("c"@) == CommentSyntax::Slash,
        syntax_for("cpp"@) == CommentSyntax::Slash,
        syntax_for("cc"@) == CommentSyntax::Slash,
        syntax_for("cxx"@) == CommentSyntax::Slash,
        syntax_for("h"@) == CommentSyntax::Slash,
        syntax_for("hpp"@) == CommentSyntax::Slash,
        syntax_for("hh"@) == CommentSyntax::Slash,
        syntax_for("hxx"@) == CommentSyntax::Slash,
        syntax_for("swift"@) == CommentSyntax::Slash,
        syntax_for("kt"@) == CommentSyntax::Slash,
        syntax_for("kts"@) == CommentSyntax::Slash,
        syntax_for("scala"@) == CommentSyntax::Slash,
        syntax_for("cs"@) == CommentSyntax::Slash,
        syntax_for("m"@) == CommentSyntax::Slash,
        syntax_for("mm"@) == CommentSyntax::Slash,
        syntax_for("py"@) == CommentSyntax::Hash,
        syntax_for("rb"@) == CommentSyntax::Hash,
        syntax_for("sh"@) == CommentSyntax::Hash,
        syntax_for("bash"@) == CommentSyntax::Hash,
        syntax_for("zsh"@) == CommentSyntax::Hash,
        syntax_for("pl"@) == CommentSyntax::Hash,
        syntax_for("yaml"@) == CommentSyntax::Hash,
        syntax_for("yml"@) == CommentSyntax::Hash,
        syntax_for("toml"@) == CommentSyntax::Hash,
        syntax_for("txt"@) == CommentSyntax::Plain,
        syntax_for("md"@) == CommentSyntax::Plain,
        syntax_for(Seq::empty()) == CommentSyntax::Plain,
{
    reveal_strlit("rs");
    reveal_strlit("ts");
    reveal_strlit("tsx");
    reveal_strlit("js");
    reveal_strlit("jsx");
    reveal_strlit("go");
    reveal_strlit("java");
    reveal_strlit("c");
    reveal_strlit("cpp");
    reveal_strlit("cc");
    reveal_strlit("cxx");
    reveal_strlit("h");
    reveal_strlit("hpp");
    reveal_strlit("hh");
    reveal_strlit("hxx");
    reveal_strlit("swift");
    reveal_strlit("kt");
    reveal_strlit("kts");
    reveal_strlit("scala");
    reveal_strlit("cs");
    reveal_strlit("m");
    reveal_strlit("mm");
    reveal_strlit("py");
    reveal_strlit("rb");
    reveal_strlit("sh");
    reveal_strlit("bash");
    reveal_strlit("zsh");
    reveal_strlit("pl");
    reveal_strlit("yaml");
    reveal_strlit("yml");
    reveal_strlit("toml");
    reveal_strlit("txt");
    reveal_strlit("md");
    lemma_not_slash_py();
    lemma_not_slash_rb();
    lemma_not_slash_sh();
    lemma_not_slash_bash();
    lemma_not_slash_zsh();
    lemma_not_slash_pl();
    lemma_not_slash_yaml();
    lemma_not_slash_yml();
    lemma_not_slash_toml();
    lemma_unlisted_txt();
    lemma_unlisted_md();
    lemma_unlisted_empty();
    let sl = slash_extensions();
    let hl = hash_extensions();
    assert(sl[0] == "rs"@);
    assert(sl[1] == "ts"@);
    assert(sl[2] == "tsx"@);
    assert(sl[3] == "js"@);
    assert(sl[4] == "jsx"@);
    assert(sl[5] == "go"@);
    assert(sl[6] == "java"@);
    assert(sl[7] == "c"@);
    assert(sl[8] == "cpp"@);
    assert(sl[9] == "cc"@);
    assert(sl[10] == "cxx"@);
    assert(sl[11] == "h"@);
    assert(sl[12] == "hpp"@);
    assert(sl[13] == "hh"@);
    assert(sl[14] == "hxx"@);
    assert(sl[15] == "swift"@);
    assert(sl[16] == "kt"@);
    assert(sl[17] == "kts"@);
    assert(sl[18] == "scala"@);
    assert(sl[19] == "cs"@);
    assert(sl[20] == "m"@);
    assert(sl[21] == "mm"@);
    assert(hl[0] == "py"@);
    assert(hl[1] == "rb"@);
    assert(hl[2] == "sh"@);
    assert(hl[3] == "bash"@);
    assert(hl[4] == "zsh"@);
    assert(hl[5] == "pl"@);
    assert(hl[6] == "yaml"@);
    assert(hl[7] == "yml"@);
    assert(hl[8] == "toml"@);
}

} // verus!
