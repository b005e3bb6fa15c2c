//! Differences between two snapshots.
use vstd::prelude::*;

use crate::error::Error;
use crate::history::snapshot::Snapshot;
use crate::scanner::metadata::FileEntry;

verus! {

/// What changed between two snapshots.
#[derive(Debug, Clone)]
pub struct DiffReport {
    pub added: Vec<PathDelta>,
    pub removed: Vec<PathDelta>,
    pub grown: Vec<PathDelta>,
    pub shrunk: Vec<PathDelta>,
    pub total_delta_bytes: i64,
}

/// The size of one path before and after.
#[derive(Debug, Clone)]
pub struct PathDelta {
    pub path: String,
    pub before: u64,
    pub after: u64,
    pub delta: i64,
}

impl DiffReport {
    /// The report of no change at all.
    pub open spec fn is_unchanged(&self) -> bool {
        &&& self.added@.len() == 0
        &&& self.removed@.len() == 0
        &&& self.grown@.len() == 0
        &&& self.shrunk@.len() == 0
        &&& self.total_delta_bytes == 0
    }
}

impl Default for DiffReport {
    fn default() -> (r: Self)
        ensures
            r.is_unchanged(),
    {
        DiffReport {
            added: Vec::new(),
            removed: Vec::new(),
            grown: Vec::new(),
            shrunk: Vec::new(),
            total_delta_bytes: 0,
        }
    }
}

/// The size recorded for `path` in `entries` (its first entry).
pub open spec fn size_in(entries: Seq<FileEntry>, path: Seq<char>) -> Option<u64>
    decreases entries.len(),
{
    if entries.len() == 0 {
        None
    } else if entries[0].path@ == path {
        Some(entries[0].size)
    } else {
        size_in(entries.drop_first(), path)
    }
}

/// `x` limited to the range of `i64`.
pub open spec fn clamp_i64(x: int) -> i64 {
    if x > i64::MAX {
        i64::MAX
    } else if x < i64::MIN {
        i64::MIN
    } else {
        x as i64
    }
}

/// The change of one path.
pub open spec fn delta_of(path: String, before: u64, after: u64) -> PathDelta {
    PathDelta { path, before, after, delta: clamp_i64(after - before) }
}

/// The kinds of change: a path that appeared, grew, shrank, or disappeared.
#[derive(Debug, Clone, Copy, PartialEq, Eq, Structural)]
pub enum ChangeKind {
    Added,
    Grown,
    Shrunk,
    Removed,
}

/// The change of kind `kind` that entry `e` shows against `others` (the
/// other snapshot's entries), when its size moved by at least `min_delta`.
/// For `Removed`, `e` is an entry of the earlier snapshot and `others` those
/// of the later one; otherwise the other way round.
pub open spec fn change_of(e: FileEntry, others: Seq<FileEntry>, min_delta: u64, kind: ChangeKind) -> Option<PathDelta> {
    match size_in(others, e.path@) {
        None => match kind {
            ChangeKind::Added => if e.size >= min_delta {
                Some(delta_of(e.path, 0, e.size))
            } else {
                None
            },
            ChangeKind::Removed => if e.size >= min_delta {
                Some(delta_of(e.path, e.size, 0))
            } else {
                None
            },
            _ => None,
        },
        Some(b) => match kind {
            ChangeKind::Grown => if e.size > b && e.size - b >= min_delta {
                Some(delta_of(e.path, b, e.size))
            } else {
                None
            },
            ChangeKind::Shrunk => if b > e.size && b - e.size >= min_delta {
                Some(delta_of(e.path, b, e.size))
            } else {
                None
            },
            _ => None,
        },
    }
}

/// The changes of kind `kind` shown by the entries `xs`, in their order.
pub open spec fn changes(xs: Seq<FileEntry>, others: Seq<FileEntry>, min_delta: u64, kind: ChangeKind) -> Seq<PathDelta>
    decreases xs.len(),
{
    if xs.len() == 0 {
        Seq::empty()
    } else {
        let prev = changes(xs.drop_last(), others, min_delta, kind);
        match change_of(xs.last(), others, min_delta, kind) {
            Some(d) => prev.push(d),
            None => prev,
        }
    }
}

fn size_in_entries(entries: &Vec<FileEntry>, path: &str) -> (r: Option<u64>)
    ensures
        r == size_in(entries@, path@),
{
    let mut i: usize = 0;
    assert(entries@.skip(0) =~= entries@);
    while i < entries.len()
        invariant
            i <= entries@.len(),
            size_in(entries@, path@) == size_in(entries@.skip(i as int), path@),
        decreases entries.len() - i,
    {
        assert(entries@.skip(i as int)[0] == entries@[i as int]);
        if crate::text::str_eq(entries[i].path.as_str(), path) {
            return Some(entries[i].size);
        }
        assert(entries@.skip(i as int).drop_first() =~= entries@.skip(i + 1));
        i += 1;
    }
    None
}

fn clamped_delta(before: u64, after: u64) -> (r: i64)
    ensures
        r == clamp_i64(after - before),
{
    let d: i128 = after as i128 - before as i128;
    if d > 0x7fff_ffff_ffff_ffffi128 {
        0x7fff_ffff_ffff_ffffi64
    } else if d < -0x8000_0000_0000_0000i128 {
        -0x8000_0000_0000_0000i64
    } else {
        d as i64
    }
}

fn change_in(e: &FileEntry, others: &Vec<FileEntry>, min_delta: u64, kind: &ChangeKind) -> (r: Option<PathDelta>)
    ensures
        r == change_of(*e, others@, min_delta, *kind),
{
    let mk = |b: u64, a: u64| -> (d: PathDelta)
        ensures
            d == delta_of(e.path, b, a),
        { PathDelta { path: e.path.clone(), before: b, after: a, delta: clamped_delta(b, a) } };
    match size_in_entries(others, e.path.as_str()) {
        None => match kind {
            ChangeKind::Added => if e.size >= min_delta {
                Some(mk(0, e.size))
            } else {
                None
            },
            ChangeKind::Removed => if e.size >= min_delta {
                Some(mk(e.size, 0))
            } else {
                None
            },
            _ => None,
        },
        Some(b) => match kind {
            ChangeKind::Grown => if e.size > b && e.size - b >= min_delta {
                Some(mk(b, e.size))
            } else {
                None
            },
            ChangeKind::Shrunk => if b > e.size && b - e.size >= min_delta {
                Some(mk(b, e.size))
            } else {
                None
            },
            _ => None,
        },
    }
}

fn changes_in(xs: &Vec<FileEntry>, others: &Vec<FileEntry>, min_delta: u64, kind: ChangeKind) -> (r: Vec<PathDelta>)
    ensures
        r@ == changes(xs@, others@, min_delta, kind),
{
    let mut out: Vec<PathDelta> = Vec::new();
    let mut i: usize = 0;
    assert(xs@.take(0) =~= Seq::<FileEntry>::empty());
    while i < xs.len()
        invariant
            i <= xs@.len(),
            out@ == changes(xs@.take(i as int), others@, min_delta, kind),
        decreases xs.len() - i,
    {
        assert(xs@.take(i + 1).drop_last() =~= xs@.take(i as int));
        assert(xs@.take(i + 1).last() == xs@[i as int]);
        match change_in(&xs[i], others, min_delta, &kind) {
            Some(d) => out.push(d),
            None => {},
        }
        i += 1;
    }
    assert(xs@.take(xs@.len() as int) =~= xs@);
    out
}

/// `d` is the diff of `before` and `after` with changes of at least
/// `min_delta` bytes.
pub open spec fn is_diff(d: DiffReport, before: Snapshot, after: Snapshot, min_delta: u64) -> bool {
    let b = before.report.entries@;
    let a = after.report.entries@;
    &&& d.added@ == changes(a, b, min_delta, ChangeKind::Added)
    &&& d.removed@ == changes(b, a, min_delta, ChangeKind::Removed)
    &&& d.grown@ == changes(a, b, min_delta, ChangeKind::Grown)
    &&& d.shrunk@ == changes(a, b, min_delta, ChangeKind::Shrunk)
    &&& d.total_delta_bytes == clamp_i64(after.report.total_bytes - before.report.total_bytes)
}

/// Diff two snapshots, path by path (a path's size is that of its first
/// entry): paths only in `after` were added, paths only in `before` were
/// removed, and paths in both grew or shrank. Changes smaller than
/// `min_delta` bytes are left out. The total is the change of the total size,
/// limited to the range of `i64`.
pub fn diff(before: &Snapshot, after: &Snapshot, min_delta: u64) -> (r: Result<DiffReport, Error>)
    ensures
        r matches Ok(d) && is_diff(d, *before, *after, min_delta),
{
    let b = &before.report.entries;
    let a = &after.report.entries;
    Ok(
        DiffReport {
            added: changes_in(a, b, min_delta, ChangeKind::Added),
            removed: changes_in(b, a, min_delta, ChangeKind::Removed),
            grown: changes_in(a, b, min_delta, ChangeKind::Grown),
            shrunk: changes_in(a, b, min_delta, ChangeKind::Shrunk),
            total_delta_bytes: clamped_delta(before.report.total_bytes, after.report.total_bytes),
        },
    )
}

} // verus!
