//! Every event the UI can emit. The enum is kept flat.
use vstd::prelude::*;

use std::sync::Arc;

use crate::analysis::duplicates::DuplicatesReport;
use crate::cli::args::ExportFormat;
use crate::dedup::{DedupOutcome, DedupStrategy};
use crate::history::compare::DiffReport;
use crate::history::snapshot::Snapshot;
use crate::scanner::line_counter::LineCountReport;
use crate::scanner::walker::ScanReport;
use crate::ui::views::{LineCountSortColumn, Screen};

verus! {

/// An event of the user interface, or the result of background work.
#[derive(Debug, Clone)]
pub enum Message {
    /// Sidebar navigation.
    Navigate(Screen),
    // --- Scan ---
    PickScanRoot,
    ScanRootPicked(Option<String>),
    StartScan,
    ScanProgress(ScanProgress),
    ScanFinished(Arc<ScanReport>),
    ScanFailed(String),
    CancelScan,
    // --- Treemap ---
    /// Drill into a subdirectory by clicking its tile.
    TreemapTileClicked(String),
    /// Pop the focus up one level (toward the scan root).
    TreemapFocusUp,
    /// Reset focus back to the scan root.
    TreemapFocusRoot,
    /// Show more detail (more tiles).
    TreemapZoomIn,
    /// Show less detail (fewer tiles, larger long-tail aggregate).
    TreemapZoomOut,
    // --- Largest files ---
    LargestLimitChanged(usize),
    LargestMinSizeChanged(Option<u64>),
    LargestFileSelected(String),
    // --- Duplicates / dedupe ---
    FindDuplicates,
    DuplicatesFound(Arc<DuplicatesReport>),
    DuplicatesFailed(String),
    DedupStrategyChanged(DedupStrategy),
    ApplyDedup,
    DedupFinished(DedupOutcome),
    // --- Line counter ---
    LineCountExtToggled(String, bool),
    LineCountThresholdChanged(usize),
    LineCountSortBy(LineCountSortColumn),
    RunLineCount,
    LineCountFinished(Arc<LineCountReport>),
    // --- History ---
    SnapshotLabelChanged(String),
    TakeSnapshot,
    SnapshotTaken(Snapshot),
    SnapshotSelectedBefore(String),
    SnapshotSelectedAfter(String),
    CompareSnapshots,
    CompareFinished(Arc<DiffReport>),
    // --- Reports / export ---
    PickExportPath,
    ExportPathPicked(Option<String>),
    ExportFormatChanged(ExportFormat),
    StartExport,
    ExportFinished(ExportOutcome),
    // --- Scheduler ---
    ScheduleCronChanged(String),
    ScheduleNameChanged(String),
    InstallSchedule,
    RemoveSchedule(String),
    ScheduleUpdated,
    // --- Settings ---
    ToggleFollowSymlinks(bool),
    AddIgnoreGlob(String),
    RemoveIgnoreGlob(usize),
    SaveSettings,
    /// Nothing to do.
    NoOp,
}

/// How an export ended: the path written, or the error text.
#[derive(Debug, Clone)]
pub enum ExportOutcome {
    Written(String),
    Failed(String),
}

/// Progress emitted while a scan is running.
#[derive(Debug, Clone)]
pub struct ScanProgress {
    pub files_seen: u64,
    pub bytes_seen: u64,
    pub current_path: Option<String>,
}

impl Default for ScanProgress {
    fn default() -> (r: Self)
        ensures
            r.files_seen == 0,
            r.bytes_seen == 0,
            r.current_path is None,
    {
        ScanProgress { files_seen: 0, bytes_seen: 0, current_path: None }
    }
}

} // verus!
