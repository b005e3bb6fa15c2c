//! The largest files of a scan ("space hogs").
use vstd::prelude::*;

use crate::ordering::{goes_before, is_ranked, lemma_sort_ranked_is_ranked, lemma_sort_ranked_permutes, sort_by_rank, sort_ranked, Ranked};
use crate::scanner::metadata::{EntryKind, FileEntry};
use crate::scanner::walker::ScanReport;

verus! {

broadcast use vstd::seq_lib::group_seq_properties;

impl Ranked for FileEntry {
    open spec fn rank(&self) -> int {
        self.size as int
    }

    fn rank_value(&self) -> (r: u64) {
        self.size
    }
}

/// A regular file larger than `min_size` bytes (any size when `None`).
pub open spec fn is_candidate(e: FileEntry, min_size: Option<u64>) -> bool {
    e.kind == EntryKind::File && match min_size {
        Some(m) => e.size > m,
        None => true,
    }
}

/// [`is_candidate`] as a predicate value.
pub open spec fn candidate(min_size: Option<u64>) -> spec_fn(FileEntry) -> bool {
    |e: FileEntry| is_candidate(e, min_size)
}

/// The candidate files of `entries`, largest first; files of equal size keep
/// their scan order.
pub open spec fn ranked_candidates(entries: Seq<FileEntry>, min_size: Option<u64>) -> Seq<FileEntry> {
    sort_ranked(entries.filter(candidate(min_size)), true)
}

/// The `n` largest candidate files (all of them when there are fewer).
pub open spec fn top_files(entries: Seq<FileEntry>, n: nat, min_size: Option<u64>) -> Seq<FileEntry> {
    let all = ranked_candidates(entries, min_size);
    if n < all.len() {
        all.subrange(0, n as int)
    } else {
        all
    }
}

/// Return the `n` largest files, sorted descending by size. Only regular
/// files count, and with `min_size` only those larger than it.
pub fn top(report: &ScanReport, n: usize, min_size: Option<u64>) -> (r: Vec<FileEntry>)
    ensures
        r@ == top_files(report.entries@, n as nat, min_size),
{
    let entries = &report.entries;
    let ghost pred = candidate(min_size);
    let mut files: Vec<FileEntry> = Vec::new();
    let mut i: usize = 0;
    assert(entries@.subrange(0, 0) =~= Seq::<FileEntry>::empty());
    proof { reveal(Seq::filter); }
    while i < entries.len()
        invariant
            i <= entries@.len(),
            pred == candidate(min_size),
            files@ == entries@.subrange(0, i as int).filter(pred),
        decreases entries.len() - i,
    {
        let e = &entries[i];
        let keep = e.is_file() && match min_size {
            Some(m) => e.size > m,
            None => true,
        };
        proof {
            entries@.subrange(0, i as int).lemma_filter_push(entries@[i as int], pred);
            assert(entries@.subrange(0, i + 1) =~= entries@.subrange(0, i as int).push(entries@[i as int]));
        }
        if keep {
            files.push(e.duplicate());
        }
        i += 1;
    }
    assert(entries@.subrange(0, entries@.len() as int) =~= entries@);
    let mut sorted = sort_by_rank(files, true);
    sorted.truncate(n);
    sorted
}

/// The largest-files list is ordered by size, largest first.
pub proof fn lemma_top_is_descending(entries: Seq<FileEntry>, n: nat, min_size: Option<u64>)
    ensures
        forall|i: int, j: int|
            0 <= i < j < top_files(entries, n, min_size).len() ==> top_files(entries, n, min_size)[i].size
                >= top_files(entries, n, min_size)[j].size,
{
    let all = ranked_candidates(entries, min_size);
    lemma_sort_ranked_is_ranked(entries.filter(candidate(min_size)), true);
    let t = top_files(entries, n, min_size);
    assert forall|i: int, j: int| 0 <= i < j < t.len() implies t[i].size >= t[j].size by {
        assert(t[i] == all[i] && t[j] == all[j]);
        assert(goes_before(all[i].rank(), all[j].rank(), true));
    }
}

/// The largest-files list holds `min(n, candidates)` files, each a candidate
/// from the scan, and no candidate left out is larger than the smallest
/// file listed.
pub proof fn lemma_top_selects_largest(entries: Seq<FileEntry>, n: nat, min_size: Option<u64>)
    ensures
        ({
            let cands = entries.filter(candidate(min_size));
            let t = top_files(entries, n, min_size);
            &&& t.len() == if n < cands.len() {
                n
            } else {
                cands.len()
            }
            &&& forall|i: int| 0 <= i < t.len() ==> #[trigger] cands.contains(t[i])
            &&& forall|i: int| 0 <= i < t.len() ==> is_candidate(#[trigger] t[i], min_size)
            &&& forall|x: FileEntry|
                t.len() > 0 && #[trigger] cands.to_multiset().count(x) > t.to_multiset().count(x)
                    ==> x.size <= t.last().size
        }),
{
    broadcast use vstd::seq_lib::group_to_multiset_ensures;
    broadcast use vstd::seq_lib::lemma_multiset_commutative;

    let cands = entries.filter(candidate(min_size));
    let all = ranked_candidates(entries, min_size);
    let t = top_files(entries, n, min_size);
    lemma_sort_ranked_is_ranked(cands, true);
    lemma_sort_ranked_permutes(cands, true);
    assert forall|i: int| 0 <= i < t.len() implies #[trigger] cands.contains(t[i]) by {
        assert(t[i] == all[i]);
        assert(all.to_multiset().count(all[i]) > 0);
        assert(cands.to_multiset().count(all[i]) > 0);
    }
    assert forall|i: int| 0 <= i < t.len() implies is_candidate(#[trigger] t[i], min_size) by {
        assert(cands.contains(t[i]));
        let k = choose|k: int| 0 <= k < cands.len() && cands[k] == t[i];
        entries.lemma_filter_pred(candidate(min_size), k);
    }
    assert forall|x: FileEntry|
        t.len() > 0 && #[trigger] cands.to_multiset().count(x) > t.to_multiset().count(x)
            implies x.size <= t.last().size by {
        let k = t.len() as int;
        let rest = all.subrange(k, all.len() as int);
        assert(all =~= t + rest);
        assert(all.to_multiset().count(x) == t.to_multiset().count(x) + rest.to_multiset().count(x));
        assert(rest.to_multiset().count(x) > 0);
        assert(rest.contains(x));
        let j = choose|j: int| 0 <= j < rest.len() && rest[j] == x;
        assert(all[k + j] == x);
        assert(goes_before(all[k - 1].rank(), all[k + j].rank(), true));
        assert(t.last() == all[k - 1]);
    }
}

} // verus!
