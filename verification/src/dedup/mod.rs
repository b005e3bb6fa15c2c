//! Applying a deduplication strategy to a duplicates report.
use vstd::prelude::*;

use crate::analysis::duplicates::{DuplicateGroup, DuplicatesReport};
use crate::paths::views;
pub use crate::cli::args::DedupStrategy;
use crate::error::Error;

verus! {

/// What a deduplication run did.
#[derive(Debug, Clone)]
pub struct DedupOutcome {
    pub kept: usize,
    pub deleted: usize,
    pub hardlinked: usize,
    pub symlinked: usize,
    pub bytes_reclaimed: u64,
    pub errors: Vec<String>,
}

impl DedupOutcome {
    /// The outcome of a run that did nothing.
    pub open spec fn is_nothing(&self) -> bool {
        &&& self.kept == 0
        &&& self.deleted == 0
        &&& self.hardlinked == 0
        &&& self.symlinked == 0
        &&& self.bytes_reclaimed == 0
        &&& self.errors@.len() == 0
    }
}

impl Default for DedupOutcome {
    fn default() -> (r: Self)
        ensures
            r.is_nothing(),
    {
        DedupOutcome { kept: 0, deleted: 0, hardlinked: 0, symlinked: 0, bytes_reclaimed: 0, errors: Vec::new() }
    }
}

impl DedupStrategy {
    /// The menu text of a strategy.
    pub fn label(self) -> (r: &'static str)
        ensures
            r@ == strategy_label(self),
    {
        match self {
            DedupStrategy::DryRun => "Dry run",
            DedupStrategy::Delete => "Delete duplicates",
            DedupStrategy::Hardlink => "Replace with hardlinks",
            DedupStrategy::Symlink => "Replace with symlinks",
        }
    }

    /// Every strategy, in menu order.
    pub fn all() -> (r: Vec<DedupStrategy>)
        ensures
            r@ == seq![
                DedupStrategy::DryRun,
                DedupStrategy::Delete,
                DedupStrategy::Hardlink,
                DedupStrategy::Symlink,
            ],
    {
        let r = vec![
            DedupStrategy::DryRun,
            DedupStrategy::Delete,
            DedupStrategy::Hardlink,
            DedupStrategy::Symlink,
        ];
        assert(r@ =~= seq![
            DedupStrategy::DryRun,
            DedupStrategy::Delete,
            DedupStrategy::Hardlink,
            DedupStrategy::Symlink,
        ]);
        r
    }
}

impl Default for DedupStrategy {
    fn default() -> (r: Self)
        ensures
            r == DedupStrategy::DryRun,
    {
        DedupStrategy::DryRun
    }
}

/// The menu text of a strategy.
pub open spec fn strategy_label(s: DedupStrategy) -> Seq<char> {
    match s {
        DedupStrategy::DryRun => "Dry run"@,
        DedupStrategy::Delete => "Delete duplicates"@,
        DedupStrategy::Hardlink => "Replace with hardlinks"@,
        DedupStrategy::Symlink => "Replace with symlinks"@,
    }
}

/// One redundant copy to resolve: `target` is replaced (or removed) in favour
/// of `keep`, the canonical file of its group; both are `size` bytes.
#[derive(Debug, Clone)]
pub struct DedupStep {
    pub keep: String,
    pub target: String,
    pub size: u64,
}

/// The steps of one group: its first path is kept, every other path is a
/// redundant copy of it.
pub open spec fn group_steps(g: DuplicateGroup) -> Seq<DedupStep> {
    if g.paths@.len() == 0 {
        Seq::empty()
    } else {
        Seq::new(
            (g.paths@.len() - 1) as nat,
            |i: int| DedupStep { keep: g.paths@[0], target: g.paths@[i + 1], size: g.size },
        )
    }
}

/// The steps of all groups, group by group.
pub open spec fn planned_steps(groups: Seq<DuplicateGroup>) -> Seq<DedupStep>
    decreases groups.len(),
{
    if groups.len() == 0 {
        Seq::empty()
    } else {
        planned_steps(groups.drop_last()) + group_steps(groups.last())
    }
}

/// The number of groups that keep a file (those with at least one path).
pub open spec fn kept_count(groups: Seq<DuplicateGroup>) -> nat
    decreases groups.len(),
{
    if groups.len() == 0 {
        0
    } else {
        kept_count(groups.drop_last()) + if groups.last().paths@.len() > 0 {
            1nat
        } else {
            0nat
        }
    }
}

/// Among the first `n` outcomes, how many steps were carried out (`None`).
pub open spec fn done_count(failures: Seq<Option<String>>, n: int) -> nat
    decreases n,
{
    if n <= 0 {
        0
    } else {
        done_count(failures, n - 1) + if failures[n - 1] is None {
            1nat
        } else {
            0nat
        }
    }
}

/// Bytes freed by the steps carried out among the first `n`.
pub open spec fn reclaimed(steps: Seq<DedupStep>, failures: Seq<Option<String>>, n: int) -> nat
    decreases n,
{
    if n <= 0 {
        0
    } else {
        reclaimed(steps, failures, n - 1) + if failures[n - 1] is None {
            steps[n - 1].size as nat
        } else {
            0nat
        }
    }
}

/// The messages of the steps that failed among the first `n`, in order.
pub open spec fn failure_texts(failures: Seq<Option<String>>, n: int) -> Seq<Seq<char>>
    decreases n,
{
    if n <= 0 {
        Seq::empty()
    } else {
        match failures[n - 1] {
            Some(m) => failure_texts(failures, n - 1).push(m@),
            None => failure_texts(failures, n - 1),
        }
    }
}

/// What a run of `strategy` did, given the outcome of each planned step
/// (`None` for done, `Some(message)` for failed).
pub open spec fn outcome_matches(
    o: DedupOutcome,
    groups: Seq<DuplicateGroup>,
    strategy: DedupStrategy,
    failures: Seq<Option<String>>,
) -> bool {
    let n = failures.len() as int;
    let done = done_count(failures, n);
    let freed = reclaimed(planned_steps(groups), failures, n);
    &&& o.kept == kept_count(groups)
    &&& o.deleted == (if strategy == DedupStrategy::Delete { done } else { 0 })
    &&& o.hardlinked == (if strategy == DedupStrategy::Hardlink { done } else { 0 })
    &&& o.symlinked == (if strategy == DedupStrategy::Symlink { done } else { 0 })
    &&& o.bytes_reclaimed == (if strategy == DedupStrategy::DryRun {
        0
    } else if freed <= u64::MAX {
        freed
    } else {
        u64::MAX as nat
    })
    &&& views(o.errors@) == (if strategy == DedupStrategy::DryRun {
        Seq::empty()
    } else {
        failure_texts(failures, n)
    })
}

/// The steps that resolve every duplicate group: one per redundant copy, the
/// first path of each group being the one kept.
pub fn plan(report: &DuplicatesReport) -> (r: Vec<DedupStep>)
    ensures
        r@ == planned_steps(report.groups@),
{
    let groups = &report.groups;
    let mut out: Vec<DedupStep> = Vec::new();
    let mut gi: usize = 0;
    assert(groups@.take(0) =~= Seq::<DuplicateGroup>::empty());
    while gi < groups.len()
        invariant
            gi <= groups@.len(),
            out@ == planned_steps(groups@.take(gi as int)),
        decreases groups.len() - gi,
    {
        let g = &groups[gi];
        let ghost before = out@;
        let np = g.paths.len();
        if np > 0 {
            let mut j: usize = 1;
            assert(group_steps(*g).take(0) =~= Seq::<DedupStep>::empty());
            assert(before + group_steps(*g).take(0) =~= before);
            while j < np
                invariant
                    1 <= j <= np,
                    np == g.paths@.len(),
                    out@ == before + group_steps(*g).take(j - 1),
                decreases np - j,
            {
                let step = DedupStep { keep: g.paths[0].clone(), target: g.paths[j].clone(), size: g.size };
                out.push(step);
                assert(group_steps(*g).take(j as int) =~= group_steps(*g).take(j - 1).push(step));
                j += 1;
            }
            assert(group_steps(*g).take(np - 1) =~= group_steps(*g));
        } else {
            assert(before + group_steps(*g) =~= before);
        }
        assert(groups@.take(gi + 1).drop_last() =~= groups@.take(gi as int));
        assert(groups@.take(gi + 1).last() == *g);
        gi += 1;
    }
    assert(groups@.take(groups@.len() as int) =~= groups@);
    out
}

/// Apply `strategy` to every duplicate group, keeping one canonical file per
/// group: `DryRun` changes nothing, `Delete` unlinks redundant copies,
/// `Hardlink` and `Symlink` replace them with links. The file operations are
/// the caller's: `failures` holds the outcome of each step of [`plan`], in
/// order (`None` when it was carried out); a dry run performs none and reads
/// none. The outcome counts the groups kept, the steps carried out under the
/// strategy, the bytes they freed (saturating at `u64::MAX`) and the
/// messages of the steps that failed.
pub fn apply(report: &DuplicatesReport, strategy: DedupStrategy, failures: &[Option<String>]) -> (r:
    Result<DedupOutcome, Error>)
    requires
        strategy != DedupStrategy::DryRun ==> failures@.len() == planned_steps(report.groups@).len(),
    ensures
        r matches Ok(o) && outcome_matches(
            o,
            report.groups@,
            strategy,
            if strategy == DedupStrategy::DryRun {
                Seq::empty()
            } else {
                failures@
            },
        ),
{
    let groups = &report.groups;
    let mut kept: usize = 0;
    let mut gi: usize = 0;
    assert(groups@.take(0) =~= Seq::<DuplicateGroup>::empty());
    while gi < groups.len()
        invariant
            gi <= groups@.len(),
            kept == kept_count(groups@.take(gi as int)),
            kept <= gi,
        decreases groups.len() - gi,
    {
        assert(groups@.take(gi + 1).drop_last() =~= groups@.take(gi as int));
        if groups[gi].paths.len() > 0 {
            kept += 1;
        }
        gi += 1;
    }
    assert(groups@.take(groups@.len() as int) =~= groups@);
    let ghost fs: Seq<Option<String>> = if strategy == DedupStrategy::DryRun {
        Seq::empty()
    } else {
        failures@
    };
    if strategy == DedupStrategy::DryRun {
        let errors: Vec<String> = Vec::new();
        assert(views(errors@) =~= Seq::<Seq<char>>::empty());
        return Ok(
            DedupOutcome { kept, deleted: 0, hardlinked: 0, symlinked: 0, bytes_reclaimed: 0, errors },
        );
    }
    let steps = plan(report);
    let n = failures.len();
    let mut done: usize = 0;
    let mut bytes: u64 = 0;
    let mut errors: Vec<String> = Vec::new();
    let mut i: usize = 0;
    assert(views(errors@) =~= Seq::<Seq<char>>::empty());
    while i < n
        invariant
            i <= n,
            n == failures@.len(),
            n == steps@.len(),
            steps@ == planned_steps(report.groups@),
            done == done_count(failures@, i as int),
            done <= i,
            bytes as nat == (if reclaimed(steps@, failures@, i as int) <= u64::MAX {
                reclaimed(steps@, failures@, i as int)
            } else {
                u64::MAX as nat
            }),
            views(errors@) == failure_texts(failures@, i as int),
        decreases n - i,
    {
        match &failures[i] {
            None => {
                done += 1;
                bytes = bytes.saturating_add(steps[i].size);
            },
            Some(m) => {
                let ghost before = errors@;
                errors.push(m.clone());
                assert(views(errors@) =~= views(before).push(m@));
            },
        }
        i += 1;
    }
    let (deleted, hardlinked, symlinked) = match strategy {
        DedupStrategy::Delete => (done, 0, 0),
        DedupStrategy::Hardlink => (0, done, 0),
        _ => (0, 0, done),
    };
    Ok(DedupOutcome { kept, deleted, hardlinked, symlinked, bytes_reclaimed: bytes, errors })
}

} // verus!
