//! A stored scan, for later comparison.
use vstd::prelude::*;

use crate::scanner::walker::ScanReport;

verus! {

/// A scan of `root` taken at one moment.
#[derive(Debug, Clone)]
pub struct Snapshot {
    pub id: String,
    pub label: Option<String>,
    pub root: String,
    /// When the scan was taken, in seconds since the Unix epoch (UTC).
    pub taken_at: i64,
    pub report: ScanReport,
}

/// Capture a snapshot from a fresh scan of `root`. The program scans the
/// root (`report`), names the snapshot (`id`) and reads the clock
/// (`taken_at`); an empty label counts as no label.
pub fn take(root: String, label: Option<String>, id: String, taken_at: i64, report: ScanReport) -> (r: Snapshot)
    ensures
        r.id == id,
        r.root == root,
        r.taken_at == taken_at,
        r.report == report,
        r.label == match label {
            Some(l) => if l@.len() == 0 {
                None
            } else {
                Some(l)
            },
            None => None,
        },
{
    let label = match label {
        Some(l) => if l.unicode_len() == 0 {
            None
        } else {
            Some(l)
        },
        None => None,
    };
    Snapshot { id, label, root, taken_at, report }
}

} // verus!
