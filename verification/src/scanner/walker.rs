//! Scan options and the flat report a filesystem scan produces.
use vstd::prelude::*;

use crate::error::Error;
use crate::paths::{file_name_of, path_starts_with};
use crate::scanner::metadata::{EntryKind, FileEntry};

verus! {

/// What to scan and how.
#[derive(Debug, Clone)]
pub struct ScanOptions {
    pub roots: Vec<String>,
    pub max_depth: Option<usize>,
    pub follow_symlinks: bool,
    pub excludes: Vec<String>,
    pub threads: Option<usize>,
}

impl Default for ScanOptions {
    fn default() -> (r: Self)
        ensures
            r.roots@.len() == 0,
            r.max_depth is None,
            !r.follow_symlinks,
            r.excludes@.len() == 0,
            r.threads is None,
    {
        ScanOptions {
            roots: Vec::new(),
            max_depth: None,
            follow_symlinks: false,
            excludes: Vec::new(),
            threads: None,
        }
    }
}

/// The flat result of a scan.
#[derive(Debug, Clone)]
pub struct ScanReport {
    pub entries: Vec<FileEntry>,
    pub total_bytes: u64,
    pub file_count: u64,
    pub dir_count: u64,
    pub errors: Vec<String>,
}

impl ScanReport {
    /// The report of a scan that found nothing.
    pub open spec fn is_empty_report(&self) -> bool {
        &&& self.entries@.len() == 0
        &&& self.total_bytes == 0
        &&& self.file_count == 0
        &&& self.dir_count == 0
        &&& self.errors@.len() == 0
    }
}

impl Default for ScanReport {
    fn default() -> (r: Self)
        ensures
            r.is_empty_report(),
    {
        ScanReport {
            entries: Vec::new(),
            total_bytes: 0,
            file_count: 0,
            dir_count: 0,
            errors: Vec::new(),
        }
    }
}

/// `s` matches the glob pattern `p`: `*` stands for any run of characters,
/// `?` for any one character, every other character for itself.
pub open spec fn glob_match(p: Seq<char>, s: Seq<char>) -> bool
    decreases p.len() + s.len(),
{
    if p.len() == 0 {
        s.len() == 0
    } else if p[0] == '*' {
        glob_match(p.drop_first(), s) || (s.len() > 0 && glob_match(p, s.drop_first()))
    } else if s.len() == 0 {
        false
    } else if p[0] == '?' || p[0] == s[0] {
        glob_match(p.drop_first(), s.drop_first())
    } else {
        false
    }
}

/// The entry at `path` is excluded by the pattern `g`: `g` matches the
/// whole path or its file name.
pub open spec fn excluded_by(g: Seq<char>, path: Seq<char>) -> bool {
    glob_match(g, path) || (file_name_of(path) matches Some(n) && glob_match(g, n))
}

/// The entry at `path` is excluded by one of the patterns `excludes`.
pub open spec fn is_excluded_spec(path: Seq<char>, excludes: Seq<String>) -> bool {
    exists|i: int| 0 <= i < excludes.len() && excluded_by(#[trigger] excludes[i]@, path)
}

/// Whether `p[i..]` matches `s[j..]`.
fn glob_from(p: &Vec<char>, i: usize, s: &Vec<char>, j: usize) -> (r: bool)
    requires
        i <= p@.len(),
        j <= s@.len(),
    ensures
        r == glob_match(p@.skip(i as int), s@.skip(j as int)),
    decreases p@.len() - i + s@.len() - j,
{
    let ghost ps = p@.skip(i as int);
    let ghost ss = s@.skip(j as int);
    if i == p.len() {
        return j == s.len();
    }
    assert(ps[0] == p@[i as int]);
    assert(ps.drop_first() =~= p@.skip(i + 1));
    if j < s.len() {
        assert(ss[0] == s@[j as int]);
        assert(ss.drop_first() =~= s@.skip(j + 1));
    }
    if p[i] == '*' {
        if glob_from(p, i + 1, s, j) {
            return true;
        }
        j < s.len() && glob_from(p, i, s, j + 1)
    } else if j == s.len() {
        false
    } else if p[i] == '?' || p[i] == s[j] {
        glob_from(p, i + 1, s, j + 1)
    } else {
        false
    }
}

/// `s` matches the glob pattern `p`.
pub fn glob_matches(p: &str, s: &str) -> (r: bool)
    ensures
        r == glob_match(p@, s@),
{
    let pc = crate::config_text::chars_of(p);
    let sc = crate::config_text::chars_of(s);
    assert(pc@.skip(0) =~= pc@);
    assert(sc@.skip(0) =~= sc@);
    glob_from(&pc, 0, &sc, 0)
}

/// The entry at `path` is excluded by one of `excludes`: a pattern matches
/// its whole path or its file name.
pub fn is_excluded(path: &str, excludes: &Vec<String>) -> (r: bool)
    ensures
        r == is_excluded_spec(path@, excludes@),
{
    let name = crate::paths::file_name(path);
    let mut i: usize = 0;
    while i < excludes.len()
        invariant
            i <= excludes@.len(),
            name matches Some(n) ==> file_name_of(path@) == Some(n@),
            name is None ==> file_name_of(path@) is None,
            forall|k: int| 0 <= k < i ==> !excluded_by(#[trigger] excludes@[k]@, path@),
        decreases excludes@.len() - i,
    {
        let g = excludes[i].as_str();
        let hit = glob_matches(g, path) || match &name {
            Some(n) => glob_matches(g, n.as_str()),
            None => false,
        };
        if hit {
            assert(excluded_by(excludes@[i as int]@, path@));
            return true;
        }
        i = i + 1;
    }
    false
}

/// The entry `e` stays in a report: no pattern of `excludes` excludes it,
/// and it lies at or below `root` when there is one.
pub open spec fn admitted(e: FileEntry, excludes: Seq<String>, root: Option<Seq<char>>) -> bool {
    &&& !is_excluded_spec(e.path@, excludes)
    &&& match root {
        Some(b) => path_starts_with(e.path@, b),
        None => true,
    }
}

/// The entries of `found` that stay in a report, in order.
pub open spec fn admitted_entries(found: Seq<FileEntry>, excludes: Seq<String>, root: Option<Seq<char>>) -> Seq<
    FileEntry,
> {
    found.filter(|e: FileEntry| admitted(e, excludes, root))
}

/// Total size of the regular files of `entries`.
pub open spec fn file_bytes(entries: Seq<FileEntry>) -> nat
    decreases entries.len(),
{
    if entries.len() == 0 {
        0
    } else {
        file_bytes(entries.drop_last()) + if entries.last().kind == EntryKind::File {
            entries.last().size as nat
        } else {
            0nat
        }
    }
}

/// Number of entries of `entries` of the kind `k`.
pub open spec fn kind_count(entries: Seq<FileEntry>, k: EntryKind) -> nat
    decreases entries.len(),
{
    if entries.len() == 0 {
        0
    } else {
        kind_count(entries.drop_last(), k) + if entries.last().kind == k {
            1nat
        } else {
            0nat
        }
    }
}

/// `r` is the report of the entries `entries` and the errors `errors`: the
/// total size of the regular files (`u64::MAX` when it does not fit), and
/// the numbers of regular files and of directories.
pub open spec fn report_of(r: ScanReport, entries: Seq<FileEntry>, errors: Seq<String>) -> bool {
    &&& r.entries@ == entries
    &&& r.total_bytes == if file_bytes(entries) > u64::MAX {
        u64::MAX as nat
    } else {
        file_bytes(entries)
    }
    &&& r.file_count == kind_count(entries, EntryKind::File)
    &&& r.dir_count == kind_count(entries, EntryKind::Directory)
    &&& r.errors@ == errors
}

/// The report of `entries`, in their order.
fn assemble(entries: Vec<FileEntry>, errors: Vec<String>) -> (r: ScanReport)
    requires
        entries@.len() <= u64::MAX,
    ensures
        report_of(r, entries@, errors@),
{
    let mut total: u64 = 0;
    let mut files: u64 = 0;
    let mut dirs: u64 = 0;
    let mut i: usize = 0;
    assert(entries@.take(0) =~= Seq::<FileEntry>::empty());
    while i < entries.len()
        invariant
            i <= entries@.len() <= u64::MAX,
            total == if file_bytes(entries@.take(i as int)) > u64::MAX {
                u64::MAX as nat
            } else {
                file_bytes(entries@.take(i as int))
            },
            files == kind_count(entries@.take(i as int), EntryKind::File),
            dirs == kind_count(entries@.take(i as int), EntryKind::Directory),
            files + dirs <= i,
        decreases entries@.len() - i,
    {
        let e = &entries[i];
        assert(entries@.take(i + 1).drop_last() =~= entries@.take(i as int));
        assert(entries@.take(i + 1).last() == entries@[i as int]);
        match e.kind {
            EntryKind::File => {
                total = total.saturating_add(e.size);
                files = files + 1;
            },
            EntryKind::Directory => {
                dirs = dirs + 1;
            },
            _ => {},
        }
        i = i + 1;
    }
    assert(entries@.take(entries@.len() as int) =~= entries@);
    ScanReport { entries, total_bytes: total, file_count: files, dir_count: dirs, errors }
}

/// Keep the entries of `found` that `keep` admits.
fn keep_entries(found: Vec<FileEntry>, excludes: &Vec<String>, root: Option<&str>) -> (r: Vec<FileEntry>)
    ensures
        r@ == admitted_entries(
            found@,
            excludes@,
            match root {
                Some(b) => Some(b@),
                None => None,
            },
        ),
{
    let ghost rootv = match root {
        Some(b) => Some(b@),
        None => None,
    };
    let ghost pred = |e: FileEntry| admitted(e, excludes@, rootv);
    // The entries in reverse, so that taking them in order is a `pop`.
    let mut src = found;
    let mut rev: Vec<FileEntry> = Vec::new();
    assert(found@ =~= src@ + rev@.reverse());
    while src.len() > 0
        invariant
            found@ == src@ + rev@.reverse(),
        decreases src.len(),
    {
        let ghost s0 = src@;
        let ghost r0 = rev@;
        let x = src.pop().unwrap();
        rev.push(x);
        assert(rev@.reverse() =~= seq![x] + r0.reverse());
        assert(s0 =~= src@.push(x));
        assert(found@ =~= src@ + rev@.reverse());
    }
    assert(rev@.reverse() =~= found@);
    let n = rev.len();
    let mut out: Vec<FileEntry> = Vec::new();
    let mut i: usize = 0;
    assert(found@.take(0).filter(pred) =~= Seq::<FileEntry>::empty());
    assert(rev@ =~= found@.skip(0).reverse());
    while i < n
        invariant
            n == found@.len(),
            i <= n,
            rev@ == found@.skip(i as int).reverse(),
            out@ == found@.take(i as int).filter(pred),
            pred == (|e: FileEntry| admitted(e, excludes@, rootv)),
            rootv == match root {
                Some(b) => Some(b@),
                None => None,
            },
        decreases n - i,
    {
        let ghost r0 = rev@;
        assert(r0.len() == n - i);
        assert(r0.last() == found@[i as int]);
        let e = rev.pop().unwrap();
        assert(rev@ =~= found@.skip(i + 1).reverse());
        let inside = match root {
            Some(b) => crate::paths::path_has_prefix(e.path.as_str(), b),
            None => true,
        };
        let keep = inside && !is_excluded(e.path.as_str(), excludes);
        proof {
            reveal_with_fuel(Seq::filter, 1);
        }
        assert(found@.take(i + 1).drop_last() =~= found@.take(i as int));
        assert(found@.take(i + 1).last() == found@[i as int]);
        assert(keep == pred(found@[i as int]));
        let ghost o0 = out@;
        if keep {
            out.push(e);
        }
        i = i + 1;
        proof {
            found@.take(i - 1).lemma_filter_push(found@[i - 1], pred);
            assert(found@.take(i as int) =~= found@.take(i - 1).push(found@[i - 1]));
        }
    }
    assert(found@.take(n as int) =~= found@);
    out
}

/// The report of a filesystem walk. The program walks the roots of `opts`
/// (to `max_depth`, following symlinks when asked, not descending into
/// excluded directories) and hands over the entries it `found`, in walk
/// order, and the `errors` it met. The report keeps the entries that no
/// pattern of `opts.excludes` excludes, with their totals and counts.
pub fn scan(opts: &ScanOptions, found: Vec<FileEntry>, errors: Vec<String>) -> (r: ScanReport)
    requires
        found@.len() <= u64::MAX,
    ensures
        report_of(r, admitted_entries(found@, opts.excludes@, None), errors@),
{
    let kept = keep_entries(found, &opts.excludes, None);
    proof {
        found@.lemma_filter_len(|e: FileEntry| admitted(e, opts.excludes@, None));
    }
    assemble(kept, errors)
}

/// The report of the walk of the single root `root`: as [`scan`], keeping
/// only the entries at or below `root`.
pub fn scan_root(root: &str, opts: &ScanOptions, found: Vec<FileEntry>, errors: Vec<String>) -> (r: ScanReport)
    requires
        found@.len() <= u64::MAX,
    ensures
        report_of(r, admitted_entries(found@, opts.excludes@, Some(root@)), errors@),
{
    let kept = keep_entries(found, &opts.excludes, Some(root));
    proof {
        found@.lemma_filter_len(|e: FileEntry| admitted(e, opts.excludes@, Some(root@)));
    }
    assemble(kept, errors)
}

} // verus!
