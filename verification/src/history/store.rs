//! Storage of snapshots.
use vstd::prelude::*;

use crate::error::Error;
use crate::history::snapshot::Snapshot;
use crate::scanner::metadata::FileEntry;
use crate::scanner::walker::ScanReport;

verus! {

/// Snapshot store. Snapshots are looked up by `id` or by label. The store
/// holds its snapshots in memory, in the order they were put; no database
/// file is read or written.
pub struct SnapshotStore {
    snapshots: Vec<Snapshot>,
}

/// A snapshot as a value: its id, label, root and time, and its report's
/// entries, totals and errors.
pub type SnapshotValue = (String, Option<String>, String, i64, Seq<FileEntry>, u64, u64, u64, Seq<String>);

/// The value of a snapshot.
pub open spec fn snapshot_value(s: Snapshot) -> SnapshotValue {
    (
        s.id,
        s.label,
        s.root,
        s.taken_at,
        s.report.entries@,
        s.report.total_bytes,
        s.report.file_count,
        s.report.dir_count,
        s.report.errors@,
    )
}

/// The values of snapshots.
pub open spec fn snapshot_values(v: Seq<Snapshot>) -> Seq<SnapshotValue> {
    v.map_values(|s: Snapshot| snapshot_value(s))
}

impl View for SnapshotStore {
    type V = Seq<SnapshotValue>;

    closed spec fn view(&self) -> Seq<SnapshotValue> {
        snapshot_values(self.snapshots@)
    }
}

/// `s` is the snapshot named `key`, by id or by label.
pub open spec fn snapshot_matches(s: SnapshotValue, key: Seq<char>) -> bool {
    s.0@ == key || (s.1 matches Some(l) && l@ == key)
}

/// The first snapshot of `v` named `key`.
pub open spec fn first_match(v: Seq<SnapshotValue>, key: Seq<char>) -> Option<SnapshotValue>
    decreases v.len(),
{
    if v.len() == 0 {
        None
    } else if snapshot_matches(v[0], key) {
        Some(v[0])
    } else {
        first_match(v.drop_first(), key)
    }
}

/// The predicate "not named `key`".
pub open spec fn other_than(key: Seq<char>) -> spec_fn(SnapshotValue) -> bool {
    |s: SnapshotValue| !snapshot_matches(s, key)
}

fn copy_strings(v: &Vec<String>) -> (r: Vec<String>)
    ensures
        r@ == v@,
{
    let mut r: Vec<String> = Vec::new();
    let mut i: usize = 0;
    while i < v.len()
        invariant
            i <= v@.len(),
            r@ == v@.take(i as int),
        decreases v.len() - i,
    {
        r.push(v[i].clone());
        assert(r@ =~= v@.take(i + 1));
        i += 1;
    }
    assert(v@.take(v@.len() as int) =~= v@);
    r
}

fn copy_text(t: &Option<String>) -> (r: Option<String>)
    ensures
        r == *t,
{
    match t {
        Some(s) => Some(s.clone()),
        None => None,
    }
}

fn copy_entry(e: &FileEntry) -> (r: FileEntry)
    ensures
        r == *e,
{
    FileEntry {
        path: e.path.clone(),
        size: e.size,
        size_on_disk: e.size_on_disk,
        kind: e.kind,
        modified: e.modified,
        line_count: e.line_count,
    }
}

fn copy_report(rep: &ScanReport) -> (r: ScanReport)
    ensures
        r.entries@ == rep.entries@,
        r.total_bytes == rep.total_bytes,
        r.file_count == rep.file_count,
        r.dir_count == rep.dir_count,
        r.errors@ == rep.errors@,
{
    let mut entries: Vec<FileEntry> = Vec::new();
    let mut i: usize = 0;
    while i < rep.entries.len()
        invariant
            i <= rep.entries@.len(),
            entries@ == rep.entries@.take(i as int),
        decreases rep.entries.len() - i,
    {
        entries.push(copy_entry(&rep.entries[i]));
        assert(entries@ =~= rep.entries@.take(i + 1));
        i += 1;
    }
    assert(rep.entries@.take(rep.entries@.len() as int) =~= rep.entries@);
    ScanReport {
        entries,
        total_bytes: rep.total_bytes,
        file_count: rep.file_count,
        dir_count: rep.dir_count,
        errors: copy_strings(&rep.errors),
    }
}

fn copy_snapshot(s: &Snapshot) -> (r: Snapshot)
    ensures
        snapshot_value(r) == snapshot_value(*s),
{
    Snapshot {
        id: s.id.clone(),
        label: copy_text(&s.label),
        root: s.root.clone(),
        taken_at: s.taken_at,
        report: copy_report(&s.report),
    }
}

fn is_named(s: &Snapshot, key: &str) -> (r: bool)
    ensures
        r == snapshot_matches(snapshot_value(*s), key@),
{
    crate::text::str_eq(s.id.as_str(), key) || match &s.label {
        Some(l) => crate::text::str_eq(l.as_str(), key),
        None => false,
    }
}

impl SnapshotStore {
    /// Open the store at `path`: an empty store.
    pub fn open(_path: &str) -> (r: Result<Self, Error>)
        ensures
            r matches Ok(s) && s@.len() == 0,
    {
        Ok(SnapshotStore { snapshots: Vec::new() })
    }

    /// Store a snapshot after those already held.
    pub fn put(&mut self, snapshot: &Snapshot) -> (r: Result<(), Error>)
        ensures
            r is Ok,
            final(self)@ == old(self)@.push(snapshot_value(*snapshot)),
    {
        let ghost before = self.snapshots@;
        self.snapshots.push(copy_snapshot(snapshot));
        assert(snapshot_values(self.snapshots@) =~= snapshot_values(before).push(snapshot_value(*snapshot)));
        Ok(())
    }

    /// The first stored snapshot whose id or label is `id_or_label`.
    pub fn get(&self, id_or_label: &str) -> (r: Result<Option<Snapshot>, Error>)
        ensures
            r matches Ok(found) && match found {
                Some(s) => first_match(self@, id_or_label@) == Some(snapshot_value(s)),
                None => first_match(self@, id_or_label@) is None,
            },
    {
        let v = &self.snapshots;
        let ghost vals = snapshot_values(v@);
        let mut i: usize = 0;
        assert(vals.skip(0) =~= vals);
        while i < v.len()
            invariant
                i <= v@.len(),
                vals == snapshot_values(v@),
                vals == self@,
                first_match(vals, id_or_label@) == first_match(vals.skip(i as int), id_or_label@),
            decreases v.len() - i,
        {
            assert(vals.skip(i as int).len() > 0);
            assert(vals.skip(i as int)[0] == snapshot_value(v@[i as int]));
            if is_named(&v[i], id_or_label) {
                let c = copy_snapshot(&v[i]);
                assert(first_match(vals.skip(i as int), id_or_label@) == Some(vals.skip(i as int)[0]));
                return Ok(Some(c));
            }
            assert(vals.skip(i as int).drop_first() =~= vals.skip(i + 1));
            i += 1;
        }
        Ok(None)
    }

    /// All stored snapshots, in the order they were put.
    pub fn list(&self) -> (r: Result<Vec<Snapshot>, Error>)
        ensures
            r matches Ok(v) && snapshot_values(v@) == self@,
    {
        let v = &self.snapshots;
        let mut out: Vec<Snapshot> = Vec::new();
        let mut i: usize = 0;
        while i < v.len()
            invariant
                i <= v@.len(),
                snapshot_values(out@) == snapshot_values(v@).take(i as int),
            decreases v.len() - i,
        {
            let ghost before = out@;
            out.push(copy_snapshot(&v[i]));
            assert(snapshot_values(out@) =~= snapshot_values(before).push(snapshot_value(v@[i as int])));
            assert(snapshot_values(v@).take(i + 1) =~= snapshot_values(v@).take(i as int).push(
                snapshot_value(v@[i as int]),
            ));
            i += 1;
        }
        assert(snapshot_values(v@).take(v@.len() as int) =~= snapshot_values(v@));
        Ok(out)
    }

    /// Delete every stored snapshot whose id or label is `id_or_label`;
    /// `true` when there was one.
    pub fn delete(&mut self, id_or_label: &str) -> (r: Result<bool, Error>)
        ensures
            r matches Ok(b) && b == old(self)@.any(|s: SnapshotValue| snapshot_matches(s, id_or_label@)),
            final(self)@ == old(self)@.filter(other_than(id_or_label@)),
    {
        let ghost pred = other_than(id_or_label@);
        let ghost key = id_or_label@;
        let ghost vals = snapshot_values(self.snapshots@);
        let n = self.snapshots.len();
        let mut kept: Vec<Snapshot> = Vec::new();
        let mut found = false;
        let mut i: usize = 0;
        proof {
            reveal(Seq::filter);
            assert(vals.take(0) =~= Seq::<SnapshotValue>::empty());
            assert(snapshot_values(kept@) =~= Seq::<SnapshotValue>::empty());
        }
        while i < n
            invariant
                n == self.snapshots@.len(),
                vals == snapshot_values(self.snapshots@),
                i <= n,
                pred == other_than(key),
                key == id_or_label@,
                snapshot_values(kept@) == vals.take(i as int).filter(pred),
                found == vals.take(i as int).any(|s: SnapshotValue| snapshot_matches(s, key)),
            decreases n - i,
        {
            let named = is_named(&self.snapshots[i], id_or_label);
            let ghost x = vals[i as int];
            assert(x == snapshot_value(self.snapshots@[i as int]));
            proof {
                assert(vals.take(i + 1) =~= vals.take(i as int).push(x));
                vals.take(i as int).lemma_filter_push(x, pred);
                let f = |s: SnapshotValue| snapshot_matches(s, key);
                let t0 = vals.take(i as int);
                let t1 = vals.take(i + 1);
                if t0.any(f) {
                    let j = choose|j: int| 0 <= j < t0.len() && f(#[trigger] t0[j]);
                    assert(t1[j] == t0[j]);
                }
                if f(x) {
                    assert(t1[i as int] == x);
                }
                if t1.any(f) {
                    let j = choose|j: int| 0 <= j < t1.len() && f(#[trigger] t1[j]);
                    if j < i {
                        assert(t0[j] == t1[j]);
                    }
                }
            }
            if named {
                found = true;
            } else {
                let ghost before = kept@;
                kept.push(copy_snapshot(&self.snapshots[i]));
                assert(snapshot_values(kept@) =~= snapshot_values(before).push(x));
            }
            i += 1;
        }
        assert(vals.take(n as int) =~= vals);
        self.snapshots = kept;
        Ok(found)
    }
}

/// Looking a name up after storing a snapshot of that name, when none was
/// stored before, gives that snapshot.
pub proof fn lemma_get_after_put(v: Seq<SnapshotValue>, s: SnapshotValue, key: Seq<char>)
    requires
        snapshot_matches(s, key),
        first_match(v, key) is None,
    ensures
        first_match(v.push(s), key) == Some(s),
    decreases v.len(),
{
    if v.len() == 0 {
        assert(v.push(s)[0] == s);
    } else {
        assert(v.push(s)[0] == v[0]);
        assert(v.push(s).drop_first() =~= v.drop_first().push(s));
        lemma_get_after_put(v.drop_first(), s, key);
    }
}

/// After deleting a name, looking it up finds nothing.
pub proof fn lemma_get_after_delete(v: Seq<SnapshotValue>, key: Seq<char>)
    ensures
        first_match(v.filter(other_than(key)), key) is None,
    decreases v.len(),
{
    let pred = other_than(key);
    if v.len() == 0 {
        reveal(Seq::filter);
        assert(v.filter(pred) =~= Seq::<SnapshotValue>::empty());
    } else {
        lemma_get_after_delete(v.drop_last(), key);
        assert(v =~= v.drop_last().push(v.last()));
        v.drop_last().lemma_filter_push(v.last(), pred);
        if pred(v.last()) {
            lemma_first_match_push_other(v.drop_last().filter(pred), v.last(), key);
        }
    }
}

/// A snapshot of another name, stored last, does not change a lookup that
/// found nothing.
proof fn lemma_first_match_push_other(v: Seq<SnapshotValue>, s: SnapshotValue, key: Seq<char>)
    requires
        !snapshot_matches(s, key),
        first_match(v, key) is None,
    ensures
        first_match(v.push(s), key) is None,
    decreases v.len(),
{
    if v.len() > 0 {
        assert(v.push(s)[0] == v[0]);
        assert(v.push(s).drop_first() =~= v.drop_first().push(s));
        lemma_first_match_push_other(v.drop_first(), s, key);
    } else {
        assert(v.push(s)[0] == s);
        assert(v.push(s).drop_first() =~= Seq::<SnapshotValue>::empty());
        reveal_with_fuel(first_match, 2);
    }
}

} // verus!
