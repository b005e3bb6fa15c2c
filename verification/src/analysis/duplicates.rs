//! Duplicate-file detection.
use vstd::prelude::*;

use crate::analysis::hasher::{fingerprint, fingerprint_of, Fingerprint};
use crate::cli::args::HashAlgo;
use crate::error::Error;
use crate::scanner::metadata::{EntryKind, FileEntry};
use crate::scanner::walker::ScanReport;

verus! {

/// Groups of files with identical content.
#[derive(Debug, Clone)]
pub struct DuplicatesReport {
    pub groups: Vec<DuplicateGroup>,
    /// Total bytes that could be reclaimed by deduplicating (keeps one copy).
    pub reclaimable_bytes: u64,
}

/// Files that share one content fingerprint and size.
#[derive(Debug, Clone)]
pub struct DuplicateGroup {
    pub fingerprint: Fingerprint,
    pub size: u64,
    pub paths: Vec<String>,
}

impl Default for DuplicatesReport {
    fn default() -> (r: Self)
        ensures
            r.groups@.len() == 0,
            r.reclaimable_bytes == 0,
    {
        DuplicatesReport { groups: Vec::new(), reclaimable_bytes: 0 }
    }
}

/// The digest a command-line algorithm choice stands for.
pub open spec fn digest_of(algo: HashAlgo) -> crate::analysis::hasher::HashAlgo {
    match algo {
        HashAlgo::Blake3 => crate::analysis::hasher::HashAlgo::Blake3,
        HashAlgo::Xxh3 => crate::analysis::hasher::HashAlgo::Xxh3,
    }
}

/// A regular file of at least `min_size` bytes whose content was read.
pub open spec fn readable_candidate(e: FileEntry, content: Option<Vec<u8>>, min_size: u64) -> bool {
    e.kind == EntryKind::File && e.size >= min_size && content is Some
}

/// Entry `i` is a candidate and another candidate has its size: only such
/// files are hashed.
pub open spec fn shares_size(
    entries: Seq<FileEntry>,
    contents: Seq<Option<Vec<u8>>>,
    min_size: u64,
    i: int,
) -> bool {
    &&& readable_candidate(entries[i], contents[i], min_size)
    &&& exists|j: int|
        0 <= j < entries.len() && j != i && readable_candidate(#[trigger] entries[j], contents[j], min_size)
            && entries[j].size == entries[i].size
}

/// A group as a value: fingerprint, size, paths.
pub type GroupValue = (Seq<char>, u64, Seq<String>);

/// The value of a group.
pub open spec fn group_value(g: DuplicateGroup) -> GroupValue {
    (g.fingerprint@, g.size, g.paths@)
}

/// The values of groups.
pub open spec fn group_values(gs: Seq<DuplicateGroup>) -> Seq<GroupValue> {
    gs.map_values(|g: DuplicateGroup| group_value(g))
}

/// The first group of `gs` with this size and fingerprint.
pub open spec fn group_index(gs: Seq<GroupValue>, size: u64, fp: Seq<char>) -> Option<int>
    decreases gs.len(),
{
    if gs.len() == 0 {
        None
    } else if gs.last().1 == size && gs.last().0 == fp && group_index(gs.drop_last(), size, fp) is None {
        Some(gs.len() - 1)
    } else {
        group_index(gs.drop_last(), size, fp)
    }
}

/// The files of the first `n` entries that share a size, grouped by size and
/// content fingerprint, groups in the order their first file comes, paths in
/// entry order.
pub open spec fn grouped(
    entries: Seq<FileEntry>,
    contents: Seq<Option<Vec<u8>>>,
    min_size: u64,
    algo: HashAlgo,
    n: int,
) -> Seq<GroupValue>
    decreases n,
{
    if n <= 0 {
        Seq::empty()
    } else {
        let prev = grouped(entries, contents, min_size, algo, n - 1);
        let i = n - 1;
        if shares_size(entries, contents, min_size, i) {
            let e = entries[i];
            let fp = fingerprint_of(contents[i]->Some_0@, digest_of(algo));
            match group_index(prev, e.size, fp) {
                Some(k) => prev.update(k, (prev[k].0, prev[k].1, prev[k].2.push(e.path))),
                None => prev.push((fp, e.size, seq![e.path])),
            }
        } else {
            prev
        }
    }
}

/// The predicate "holds at least two files".
pub open spec fn is_duplicate() -> spec_fn(GroupValue) -> bool {
    |g: GroupValue| g.2.len() >= 2
}

/// Bytes freed by keeping one file of each group.
pub open spec fn reclaimable(gs: Seq<GroupValue>) -> nat
    decreases gs.len(),
{
    if gs.len() == 0 {
        0
    } else {
        reclaimable(gs.drop_last()) + gs.last().1 as nat * (gs.last().2.len() - 1) as nat
    }
}

proof fn lemma_group_index(gs: Seq<GroupValue>, size: u64, fp: Seq<char>)
    ensures
        group_index(gs, size, fp) matches Some(k) ==> 0 <= k < gs.len() && gs[k].1 == size && gs[k].0 == fp,
        group_index(gs, size, fp) is None ==> forall|k: int| 0 <= k < gs.len() ==> !(#[trigger] gs[k].1 == size && gs[k].0 == fp),
    decreases gs.len(),
{
    if gs.len() > 0 {
        lemma_group_index(gs.drop_last(), size, fp);
        assert forall|k: int| 0 <= k < gs.len() - 1 implies gs[k] == gs.drop_last()[k] by {}
    }
}

/// Whether entry `i` shares its size with another readable candidate.
fn size_is_shared(entries: &Vec<FileEntry>, contents: &[Option<Vec<u8>>], min_size: u64, i: usize) -> (r: bool)
    requires
        contents@.len() == entries@.len(),
        i < entries@.len(),
    ensures
        r == shares_size(entries@, contents@, min_size, i as int),
{
    let e = &entries[i];
    if !(e.kind == EntryKind::File && e.size >= min_size && contents[i].is_some()) {
        return false;
    }
    let mut j: usize = 0;
    while j < entries.len()
        invariant
            contents@.len() == entries@.len(),
            i < entries@.len(),
            j <= entries@.len(),
            *e == entries@[i as int],
            readable_candidate(entries@[i as int], contents@[i as int], min_size),
            forall|k: int|
                0 <= k < j && k != i ==> !(readable_candidate(#[trigger] entries@[k], contents@[k], min_size)
                    && entries@[k].size == entries@[i as int].size),
        decreases entries.len() - j,
    {
        let f = &entries[j];
        if j != i && f.kind == EntryKind::File && f.size >= min_size && contents[j].is_some() && f.size == e.size {
            assert(readable_candidate(entries@[j as int], contents@[j as int], min_size));
            assert(entries@[j as int].size == entries@[i as int].size);
            return true;
        }
        assert(j == i || !(readable_candidate(entries@[j as int], contents@[j as int], min_size)
            && entries@[j as int].size == entries@[i as int].size));
        j += 1;
    }
    false
}

/// A regular file of at least `min_size` bytes.
pub open spec fn sized_candidate(e: FileEntry, min_size: u64) -> bool {
    e.kind == EntryKind::File && e.size >= min_size
}

/// Which entries [`find`] needs the content of: regular files of at least
/// `min_size` bytes whose size another such file shares.
pub fn needs_content(report: &ScanReport, min_size: u64) -> (r: Vec<bool>)
    ensures
        r@.len() == report.entries@.len(),
        forall|i: int|
            0 <= i < r@.len() ==> (r@[i] <==> sized_candidate(report.entries@[i], min_size) && exists|j: int|
                0 <= j < report.entries@.len() && j != i && sized_candidate(#[trigger] report.entries@[j], min_size)
                    && report.entries@[j].size == report.entries@[i].size),
{
    let entries = &report.entries;
    let n = entries.len();
    let mut r: Vec<bool> = Vec::new();
    let mut i: usize = 0;
    while i < n
        invariant
            n == entries@.len(),
            i <= n,
            r@.len() == i,
            forall|k: int|
                0 <= k < i ==> (r@[k] <==> sized_candidate(entries@[k], min_size) && exists|j: int|
                    0 <= j < n && j != k && sized_candidate(#[trigger] entries@[j], min_size)
                        && entries@[j].size == entries@[k].size),
        decreases n - i,
    {
        let e = &entries[i];
        let mut shared = false;
        if e.kind == EntryKind::File && e.size >= min_size {
            let mut j: usize = 0;
            while j < n && !shared
                invariant
                    n == entries@.len(),
                    i < n,
                    j <= n,
                    *e == entries@[i as int],
                    shared ==> exists|m: int|
                        0 <= m < n && m != i && sized_candidate(#[trigger] entries@[m], min_size)
                            && entries@[m].size == entries@[i as int].size,
                    !shared ==> forall|m: int|
                        0 <= m < j && m != i ==> !(sized_candidate(#[trigger] entries@[m], min_size)
                            && entries@[m].size == entries@[i as int].size),
                decreases n - j,
            {
                let f = &entries[j];
                if j != i && f.kind == EntryKind::File && f.size >= min_size && f.size == e.size {
                    assert(sized_candidate(entries@[j as int], min_size));
                    shared = true;
                }
                j += 1;
            }
        }
        r.push(shared);
        i += 1;
    }
    r
}

/// Find duplicate files in a scan report: regular files of at least
/// `min_size` bytes with the same size and the same content fingerprint.
/// Files are grouped by size first; only files that share their size with
/// another are hashed. `contents` holds what was read of each entry (`None`
/// when it was not read). Groups come in the order of their first file and
/// list their paths in entry order; the reclaimable bytes (keeping one file
/// per group) saturate at `u64::MAX`.
pub fn find(report: &ScanReport, min_size: u64, algo: HashAlgo, contents: &[Option<Vec<u8>>]) -> (r:
    Result<DuplicatesReport, Error>)
    requires
        contents@.len() == report.entries@.len(),
    ensures
        r matches Ok(d) && {
            let gs = grouped(report.entries@, contents@, min_size, algo, report.entries@.len() as int).filter(
                is_duplicate(),
            );
            &&& group_values(d.groups@) == gs
            &&& d.reclaimable_bytes == if reclaimable(gs) <= u64::MAX {
                reclaimable(gs)
            } else {
                u64::MAX as nat
            }
        },
{
    let entries = &report.entries;
    let n = entries.len();
    let digest = match algo {
        HashAlgo::Blake3 => crate::analysis::hasher::HashAlgo::Blake3,
        HashAlgo::Xxh3 => crate::analysis::hasher::HashAlgo::Xxh3,
    };
    let mut groups: Vec<DuplicateGroup> = Vec::new();
    let mut i: usize = 0;
    assert(group_values(groups@) =~= Seq::<GroupValue>::empty());
    while i < n
        invariant
            n == entries@.len(),
            contents@.len() == entries@.len(),
            i <= n,
            digest == digest_of(algo),
            group_values(groups@) == grouped(entries@, contents@, min_size, algo, i as int),
        decreases n - i,
    {
        let ghost prev = group_values(groups@);
        if size_is_shared(entries, contents, min_size, i) {
            let e = &entries[i];
            let fp = match &contents[i] {
                Some(data) => fingerprint(data.as_slice(), digest),
                None => String::new(),
            };
            proof {
                lemma_group_index(prev, e.size, fp@);
            }
            let ng = groups.len();
            let mut k: usize = ng;
            let mut j: usize = 0;
            while j < ng && k == ng
                invariant
                    ng == groups@.len(),
                    j <= ng,
                    k <= ng,
                    prev == group_values(groups@),
                    k < ng ==> prev[k as int].1 == e.size && prev[k as int].0 == fp@,
                    k < ng ==> forall|m: int| 0 <= m < k ==> !(#[trigger] prev[m].1 == e.size && prev[m].0 == fp@),
                    k == ng ==> forall|m: int| 0 <= m < j ==> !(#[trigger] prev[m].1 == e.size && prev[m].0 == fp@),
                decreases ng - j,
            {
                assert(prev[j as int] == group_value(groups@[j as int]));
                if groups[j].size == e.size && crate::text::str_eq(groups[j].fingerprint.as_str(), fp.as_str()) {
                    k = j;
                }
                j += 1;
            }
            if k < ng {
                proof {
                    lemma_group_index_first(prev, e.size, fp@, k as int);
                }
            } else {
                proof {
                    lemma_group_index_none(prev, e.size, fp@);
                }
            }
            proof {
                assert(grouped(entries@, contents@, min_size, algo, i + 1) == match group_index(prev, e.size, fp@) {
                    Some(kk) => prev.update(kk, (prev[kk].0, prev[kk].1, prev[kk].2.push(e.path))),
                    None => prev.push((fp@, e.size, seq![e.path])),
                });
            }
            if k < groups.len() {
                let mut g = groups.remove(k);
                g.paths.push(e.path.clone());
                groups.insert(k, g);
                proof {
                    assert(group_values(groups@) =~= prev.update(k as int, (prev[k as int].0, prev[k as int].1, prev[k as int].2.push(e.path))));
                }
            } else {
                let mut paths: Vec<String> = Vec::new();
                paths.push(e.path.clone());
                groups.push(DuplicateGroup { fingerprint: fp, size: e.size, paths });
                proof {
                    assert(paths@ =~= seq![e.path]);
                    assert(group_values(groups@) =~= prev.push((fp@, e.size, seq![e.path])));
                }
            }
        } else {
            assert(group_values(groups@) == prev);
        }
        i += 1;
    }
    // Keep the groups of at least two files and add up what they free.
    let ghost all = group_values(groups@);
    let total_groups = groups.len();
    let mut out: Vec<DuplicateGroup> = Vec::new();
    let mut bytes: u64 = 0;
    let mut rest = groups;
    let ghost pred = is_duplicate();
    let mut t: usize = 0;
    proof {
        reveal(Seq::filter);
        assert(all.take(0) =~= Seq::<GroupValue>::empty());
        assert(group_values(out@) =~= Seq::<GroupValue>::empty());
        assert(group_values(rest@) =~= all.skip(0));
    }
    while rest.len() > 0
        invariant
            all.len() == total_groups,
            t <= all.len(),
            group_values(rest@) == all.skip(t as int),
            pred == is_duplicate(),
            group_values(out@) == all.take(t as int).filter(pred),
            bytes as nat == (if reclaimable(all.take(t as int).filter(pred)) <= u64::MAX {
                reclaimable(all.take(t as int).filter(pred))
            } else {
                u64::MAX as nat
            }),
        decreases rest.len(),
    {
        let ghost before_rest = rest@;
        assert(group_values(rest@).len() == rest@.len());
        assert(t < all.len());
        let g = rest.remove(0);
        let ghost x = group_value(g);
        proof {
            assert(all.skip(t as int)[0] == group_values(before_rest)[0]);
            assert(x == all[t as int]);
            assert(group_values(rest@) =~= group_values(before_rest).subrange(1, before_rest.len() as int));
            assert(group_values(rest@) =~= all.skip(t + 1));
            assert(all.take(t + 1) =~= all.take(t as int).push(x));
            all.take(t as int).lemma_filter_push(x, pred);
        }
        if g.paths.len() >= 2 {
            let extra = (g.paths.len() - 1) as u64;
            let freed = match g.size.checked_mul(extra) {
                Some(v) => v,
                None => u64::MAX,
            };
            proof {
                let f = all.take(t as int).filter(pred);
                assert(f.push(x).drop_last() =~= f);
                assert(reclaimable(f.push(x)) == reclaimable(f) + x.1 as nat * (x.2.len() - 1) as nat);
                assert(extra == x.2.len() - 1);
                lemma_saturating_step(bytes, g.size, extra, reclaimable(f));
            }
            bytes = bytes.saturating_add(freed);
            let ghost before_out = out@;
            out.push(g);
            assert(group_values(out@) =~= group_values(before_out).push(x));
        }
        t += 1;
    }
    proof {
        assert(all.take(t as int) =~= all);
    }
    Ok(DuplicatesReport { groups: out, reclaimable_bytes: bytes })
}

/// A running total kept saturated at `u64::MAX` stays the saturation of the
/// exact total.
proof fn lemma_saturating_step(acc: u64, size: u64, count: u64, total: nat)
    requires
        acc as nat == (if total <= u64::MAX {
            total
        } else {
            u64::MAX as nat
        }),
    ensures
        ({
            let freed: nat = if size as nat * count as nat <= u64::MAX {
                size as nat * count as nat
            } else {
                u64::MAX as nat
            };
            let next: nat = if acc as nat + freed <= u64::MAX {
                acc as nat + freed
            } else {
                u64::MAX as nat
            };
            next == (if total + size as nat * count as nat <= u64::MAX {
                total + size as nat * count as nat
            } else {
                u64::MAX as nat
            })
        }),
{
    assert(size as nat * count as nat >= 0) by (nonlinear_arith);
}

/// The first group with a size and fingerprint is the one the scan from the
/// front finds.
proof fn lemma_group_index_first(gs: Seq<GroupValue>, size: u64, fp: Seq<char>, k: int)
    requires
        0 <= k < gs.len(),
        gs[k].1 == size && gs[k].0 == fp,
        forall|m: int| 0 <= m < k ==> !(#[trigger] gs[m].1 == size && gs[m].0 == fp),
    ensures
        group_index(gs, size, fp) == Some(k),
    decreases gs.len(),
{
    if gs.len() - 1 > k {
        assert forall|m: int| 0 <= m < k implies !(#[trigger] gs.drop_last()[m].1 == size && gs.drop_last()[m].0 == fp) by {
            assert(gs.drop_last()[m] == gs[m]);
        }
        lemma_group_index_first(gs.drop_last(), size, fp, k);
    } else {
        lemma_group_index_none(gs.drop_last(), size, fp);
    }
}

proof fn lemma_group_index_none(gs: Seq<GroupValue>, size: u64, fp: Seq<char>)
    requires
        forall|m: int| 0 <= m < gs.len() ==> !(#[trigger] gs[m].1 == size && gs[m].0 == fp),
    ensures
        group_index(gs, size, fp) is None,
    decreases gs.len(),
{
    if gs.len() > 0 {
        assert forall|m: int| 0 <= m < gs.len() - 1 implies !(#[trigger] gs.drop_last()[m].1 == size && gs.drop_last()[m].0 == fp) by {
            assert(gs.drop_last()[m] == gs[m]);
        }
        lemma_group_index_none(gs.drop_last(), size, fp);
        assert(!(gs[gs.len() - 1].1 == size && gs[gs.len() - 1].0 == fp));
    }
}

} // verus!
