//! Top-level application state and its update rules.
//!
//! `App::update` is the reducer: it applies one message to the state and
//! returns the background work ([`Action`]) that the program around the
//! library is to start. The rules are stated by [`update_post`].
use vstd::prelude::*;

use std::sync::Arc;

use crate::analysis::duplicates::DuplicatesReport;
use crate::analysis::hasher::HashAlgo;
use crate::analysis::tree::{DirNode, SizeTree};
use crate::cli::args::ExportFormat;
use crate::config::Config;
use crate::config_text::config_text;
use crate::dedup::{DedupOutcome, DedupStrategy};
use crate::history::compare::{diff, is_diff, DiffReport};
use crate::history::snapshot::Snapshot;
use crate::paths::{path_starts_with, same_path};
use crate::scanner::line_counter::LineCountReport;
use crate::scanner::walker::{ScanOptions, ScanReport};
use crate::ui::message::{ExportOutcome, Message, ScanProgress};
use vstd::string::StringExecFns;
use crate::ui::theme::ThemeChoice;
use crate::ui::views::{LineCountSortColumn, Screen, SortDirection};

verus! {

// ---------------------------------------------------------------------------
// Navigation in the size tree
// ---------------------------------------------------------------------------

/// Index of the first child, at `i` or after, whose path is a component-wise
/// prefix of `target`.
pub open spec fn first_prefix_child_from(children: Seq<DirNode>, target: Seq<char>, i: int) -> Option<int>
    decreases children.len() - i,
{
    if i < 0 || i >= children.len() {
        None
    } else if path_starts_with(target, children[i].path@) {
        Some(i)
    } else {
        first_prefix_child_from(children, target, i + 1)
    }
}

pub proof fn lemma_first_prefix_child_from(children: Seq<DirNode>, target: Seq<char>, i: int)
    ensures
        first_prefix_child_from(children, target, i) matches Some(k) ==> 0 <= i <= k < children.len(),
    decreases children.len() - i,
{
    if 0 <= i < children.len() && !path_starts_with(target, children[i].path@) {
        lemma_first_prefix_child_from(children, target, i + 1);
    }
}

/// The directory of `root`'s subtree whose path is `target`, found by
/// descending into the first child whose path is a prefix of `target`.
pub open spec fn find_dir_of(root: DirNode, target: Seq<char>) -> Option<DirNode>
    decreases root,
{
    if same_path(root.path@, target) {
        Some(root)
    } else {
        match first_prefix_child_from(root.children@, target, 0) {
            Some(i) => {
                proof {
                    lemma_first_prefix_child_from(root.children@, target, 0);
                    assert(decreases_to!(root => root.children));
                    assert(decreases_to!(root.children => root.children@));
                    assert(decreases_to!(root.children@ => root.children@[i]));
                }
                find_dir_of(root.children@[i], target)
            },
            None => None,
        }
    }
}

/// Walk `root`'s subtree looking for a directory whose path matches `target`.
pub fn find_dir<'a>(root: &'a DirNode, target: &str) -> (r: Option<&'a DirNode>)
    ensures
        match find_dir_of(*root, target@) {
            Some(d) => r matches Some(x) && *x == d,
            None => r is None,
        },
    decreases root,
{
    if crate::paths::paths_equal(root.path.as_str(), target) {
        return Some(root);
    }
    let n = root.children.len();
    let mut i: usize = 0;
    while i < n
        invariant
            n == root.children@.len(),
            i <= n,
            !same_path(root.path@, target@),
            first_prefix_child_from(root.children@, target@, 0) == first_prefix_child_from(
                root.children@,
                target@,
                i as int,
            ),
        decreases n - i,
    {
        if crate::paths::path_has_prefix(target, root.children[i].path.as_str()) {
            proof {
                assert(decreases_to!(*root => root.children));
                assert(decreases_to!(root.children => root.children@));
                assert(decreases_to!(root.children@ => root.children@[i as int]));
                assert(first_prefix_child_from(root.children@, target@, i as int) == Some(i as int));
                assert(find_dir_of(*root, target@) == find_dir_of(root.children@[i as int], target@));
            }
            return find_dir(&root.children[i], target);
        }
        i += 1;
    }
    None
}

/// One step toward `root` from `current`: the parent of `current`, unless
/// `current` has none, its parent is the root, or the parent is not a
/// directory of the tree.
pub open spec fn parent_focus_of(root: DirNode, current: Seq<char>) -> Option<Seq<char>> {
    match crate::paths::parent_of(current) {
        Some(q) => if !same_path(q, root.path@) && find_dir_of(root, q) is Some {
            Some(q)
        } else {
            None
        },
        None => None,
    }
}

/// One step toward `root` from `current`. `None` when `current` is the root
/// (or unreachable), which the view reads as "no Up button".
pub fn parent_focus(root: &DirNode, current: &str) -> (r: Option<String>)
    ensures
        match parent_focus_of(*root, current@) {
            Some(q) => r matches Some(p) && p@ == q,
            None => r is None,
        },
{
    let parent = match crate::paths::parent_path(current) {
        Some(p) => p,
        None => {
            return None;
        },
    };
    if crate::paths::paths_equal(parent.as_str(), root.path.as_str()) {
        return None;
    }
    if find_dir(root, parent.as_str()).is_some() {
        Some(parent)
    } else {
        None
    }
}

// ---------------------------------------------------------------------------
// Application state
// ---------------------------------------------------------------------------

/// The whole state of the application.
pub struct App {
    pub screen: Screen,
    pub config: Config,
    pub theme: ThemeChoice,
    // --- Scan ---
    pub scan_root: Option<String>,
    pub scan_in_progress: bool,
    pub scan_progress: ScanProgress,
    pub last_scan: Option<Arc<ScanReport>>,
    pub last_size_tree: Option<Arc<SizeTree>>,
    pub last_error: Option<String>,
    // --- Treemap navigation ---
    /// Directory the treemap is focused on; `None` is the root of
    /// `last_size_tree`.
    pub treemap_focus: Option<String>,
    /// Maximum number of tiles the treemap shows (zoom controls).
    pub treemap_max_tiles: usize,
    // --- Duplicates / dedupe ---
    pub duplicates: Option<Arc<DuplicatesReport>>,
    pub dedup_strategy: DedupStrategy,
    pub dedup_outcome: Option<DedupOutcome>,
    // --- Largest files ---
    pub largest_limit: usize,
    pub largest_min_size: Option<u64>,
    pub largest_selected: Option<String>,
    // --- Line counter ---
    pub line_count_extensions: Vec<(String, bool)>,
    pub line_count_threshold: usize,
    pub line_count_sort_column: LineCountSortColumn,
    pub line_count_sort_direction: SortDirection,
    pub last_line_count: Option<Arc<LineCountReport>>,
    // --- History ---
    pub snapshot_label: String,
    pub snapshots: Vec<Snapshot>,
    pub compare_before: Option<String>,
    pub compare_after: Option<String>,
    pub last_diff: Option<Arc<DiffReport>>,
    // --- Reports / export ---
    pub export_path: Option<String>,
    pub export_format: ExportFormat,
    pub last_export: Option<String>,
    // --- Scheduler ---
    pub schedule_cron: String,
    pub schedule_name: String,
}

/// Background work an update asks for.
#[derive(Debug)]
pub enum Action {
    /// Nothing to start.
    Idle,
    /// Open the folder picker; answer with `ScanRootPicked`.
    PickFolder,
    /// Scan with these options; answer with `ScanFinished` or `ScanFailed`.
    Scan(ScanOptions),
    /// Look for duplicates in the last scan; answer with `DuplicatesFound`
    /// or `DuplicatesFailed`.
    FindDuplicates { min_size: u64, algo: HashAlgo },
    /// Apply the strategy to the duplicates found; answer with
    /// `DedupFinished` or `DuplicatesFailed`.
    ApplyDedup(DedupStrategy),
    /// Open the save-file picker for this format; answer with
    /// `ExportPathPicked`.
    PickSavePath(ExportFormat),
    /// Export the last scan to `path`; answer with `ExportFinished`.
    Export { path: String, format: ExportFormat },
    /// Write this text to the configuration file.
    SaveConfig(String),
    /// Take a snapshot of `root` from the last scan; answer with
    /// `SnapshotTaken`.
    TakeSnapshot { root: String, label: Option<String> },
}

/// Index of the first snapshot, at `i` or after, with the id `id`.
pub open spec fn snapshot_index(s: Seq<Snapshot>, id: Seq<char>, i: int) -> Option<int>
    decreases s.len() - i,
{
    if i < 0 || i >= s.len() {
        None
    } else if s[i].id@ == id {
        Some(i)
    } else {
        snapshot_index(s, id, i + 1)
    }
}

/// The position of the first snapshot with the id `id`.
fn find_snapshot(s: &Vec<Snapshot>, id: &str) -> (r: Option<usize>)
    ensures
        r matches Some(k) ==> snapshot_index(s@, id@, 0) == Some(k as int) && k < s@.len(),
        r is None ==> snapshot_index(s@, id@, 0) is None,
{
    let mut i: usize = 0;
    while i < s.len()
        invariant
            i <= s@.len(),
            snapshot_index(s@, id@, 0) == snapshot_index(s@, id@, i as int),
        decreases s@.len() - i,
    {
        if crate::text::str_eq(s[i].id.as_str(), id) {
            return Some(i);
        }
        i = i + 1;
    }
    None
}

/// Index of the first extension entry, at `i` or after, named `ext`.
pub open spec fn find_extension_from(s: Seq<(String, bool)>, ext: Seq<char>, i: int) -> Option<int>
    decreases s.len() - i,
{
    if i < 0 || i >= s.len() {
        None
    } else if s[i].0@ == ext {
        Some(i)
    } else {
        find_extension_from(s, ext, i + 1)
    }
}

pub proof fn lemma_find_extension_from(s: Seq<(String, bool)>, ext: Seq<char>, i: int)
    ensures
        find_extension_from(s, ext, i) matches Some(k) ==> 0 <= i <= k < s.len() && s[k].0@ == ext,
    decreases s.len() - i,
{
    if 0 <= i < s.len() && s[i].0@ != ext {
        lemma_find_extension_from(s, ext, i + 1);
    }
}

/// The extension list after switching `ext` on or off: the first entry
/// named `ext` takes the new setting; an unknown extension is appended when
/// switched on and ignored when switched off.
pub open spec fn toggled_extensions(s: Seq<(String, bool)>, ext: String, on: bool) -> Seq<(String, bool)> {
    match find_extension_from(s, ext@, 0) {
        Some(i) => s.update(i, (s[i].0, on)),
        None => if on {
            s.push((ext, true))
        } else {
            s
        },
    }
}

/// `a` is the scan the `StartScan` message starts on `root` with `config`.
pub open spec fn scan_action(a: Action, root: String, config: Config) -> bool {
    a matches Action::Scan(o) && {
        &&& o.roots@ == seq![root]
        &&& o.max_depth is None
        &&& o.follow_symlinks == config.follow_symlinks
        &&& o.excludes@ == config.ignore_globs@
        &&& o.threads is None
    }
}

/// The update rules: `t` is the state and `a` the action after applying
/// message `m` to state `s`.
pub open spec fn update_post(s: App, m: Message, t: App, a: Action) -> bool {
    match m {
        Message::Navigate(screen) => t == App { screen, ..s } && a is Idle,
        Message::PickScanRoot => t == s && a is PickFolder,
        Message::ScanRootPicked(path) => t == App { scan_root: path, ..s } && a is Idle,
        Message::StartScan => match s.scan_root {
            None => t == s && a is Idle,
            Some(root) => {
                &&& t == App {
                    scan_in_progress: true,
                    scan_progress: t.scan_progress,
                    last_error: None,
                    ..s
                }
                &&& t.scan_progress.files_seen == 0
                &&& t.scan_progress.bytes_seen == 0
                &&& t.scan_progress.current_path is None
                &&& scan_action(a, root, s.config)
            },
        },
        Message::ScanProgress(p) => t == App { scan_progress: p, ..s } && a is Idle,
        Message::ScanFinished(report) => {
            &&& t == App {
                scan_in_progress: false,
                last_size_tree: t.last_size_tree,
                last_scan: Some(report),
                treemap_focus: None,
                ..s
            }
            &&& match t.last_size_tree {
                Some(tree) => crate::analysis::tree::is_tree_of(*tree, report.entries@),
                None => crate::analysis::tree::tree_bytes(report.entries@) > u64::MAX,
            }
            &&& a is Idle
        },
        Message::ScanFailed(err) => t == App {
            scan_in_progress: false,
            last_error: Some(err),
            ..s
        } && a is Idle,
        Message::CancelScan => t == App { scan_in_progress: false, ..s } && a is Idle,
        Message::TreemapTileClicked(path) => {
            &&& a is Idle
            &&& match s.last_size_tree {
                Some(tree) => if find_dir_of(tree.root, path@) is Some {
                    t == App { treemap_focus: Some(path), ..s }
                } else {
                    t == s
                },
                None => t == s,
            }
        },
        Message::TreemapFocusUp => {
            &&& a is Idle
            &&& match (s.last_size_tree, s.treemap_focus) {
                (Some(tree), Some(cur)) => {
                    &&& t == App { treemap_focus: t.treemap_focus, ..s }
                    &&& match parent_focus_of(tree.root, cur@) {
                        Some(q) => t.treemap_focus matches Some(p) && p@ == q,
                        None => t.treemap_focus is None,
                    }
                },
                _ => t == s,
            }
        },
        Message::TreemapFocusRoot => t == App { treemap_focus: None, ..s } && a is Idle,
        Message::TreemapZoomIn => t == App {
            treemap_max_tiles: if s.treemap_max_tiles + 100 < 2000 {
                (s.treemap_max_tiles + 100) as usize
            } else {
                2000
            },
            ..s
        } && a is Idle,
        Message::TreemapZoomOut => t == App {
            treemap_max_tiles: if s.treemap_max_tiles >= 120 {
                (s.treemap_max_tiles - 100) as usize
            } else {
                20
            },
            ..s
        } && a is Idle,
        Message::LargestLimitChanged(n) => t == App { largest_limit: n, ..s } && a is Idle,
        Message::LargestMinSizeChanged(min) => t == App { largest_min_size: min, ..s } && a is Idle,
        Message::LargestFileSelected(p) => t == App { largest_selected: Some(p), ..s } && a is Idle,
        Message::FindDuplicates => t == s && if s.last_scan is Some {
            a == (Action::FindDuplicates { min_size: 1024, algo: HashAlgo::Blake3 })
        } else {
            a is Idle
        },
        Message::DuplicatesFound(d) => t == App { duplicates: Some(d), ..s } && a is Idle,
        Message::DuplicatesFailed(err) => t == App { last_error: Some(err), ..s } && a is Idle,
        Message::DedupStrategyChanged(st) => t == App { dedup_strategy: st, ..s } && a is Idle,
        Message::ApplyDedup => t == s && if s.duplicates is Some {
            a == Action::ApplyDedup(s.dedup_strategy)
        } else {
            a is Idle
        },
        Message::DedupFinished(o) => t == App { dedup_outcome: Some(o), ..s } && a is Idle,
        Message::LineCountExtToggled(ext, on) => {
            &&& t == App { line_count_extensions: t.line_count_extensions, ..s }
            &&& t.line_count_extensions@ == toggled_extensions(s.line_count_extensions@, ext, on)
            &&& a is Idle
        },
        Message::LineCountThresholdChanged(th) => t == App { line_count_threshold: th, ..s } && a is Idle,
        Message::LineCountSortBy(col) => a is Idle && if col == s.line_count_sort_column {
            t == App {
                line_count_sort_direction: match s.line_count_sort_direction {
                    SortDirection::Ascending => SortDirection::Descending,
                    SortDirection::Descending => SortDirection::Ascending,
                },
                ..s
            }
        } else {
            t == App {
                line_count_sort_column: col,
                line_count_sort_direction: SortDirection::Descending,
                ..s
            }
        },
        Message::RunLineCount => t == s && a is Idle,
        Message::LineCountFinished(r) => t == App { last_line_count: Some(r), ..s } && a is Idle,
        Message::SnapshotLabelChanged(l) => t == App { snapshot_label: l, ..s } && a is Idle,
        Message::TakeSnapshot => t == s && match (s.scan_root, s.last_scan) {
            (Some(root), Some(_)) => (a matches Action::TakeSnapshot { root: r, label: l } && r == root && l == if s.snapshot_label@.len() == 0 {
                None
            } else {
                Some(s.snapshot_label)
            }),
            _ => a is Idle,
        },
        Message::SnapshotTaken(snap) => {
            &&& t == App { snapshots: t.snapshots, ..s }
            &&& t.snapshots@ == s.snapshots@.push(snap)
            &&& a is Idle
        },
        Message::SnapshotSelectedBefore(x) => t == App { compare_before: Some(x), ..s } && a is Idle,
        Message::SnapshotSelectedAfter(x) => t == App { compare_after: Some(x), ..s } && a is Idle,
        Message::CompareSnapshots => a is Idle && match (s.compare_before, s.compare_after) {
            (Some(bid), Some(aid)) => match (
                snapshot_index(s.snapshots@, bid@, 0),
                snapshot_index(s.snapshots@, aid@, 0),
            ) {
                (Some(i), Some(j)) => t == App { last_diff: t.last_diff, ..s } && (t.last_diff matches Some(d)
                    && is_diff(*d, s.snapshots@[i], s.snapshots@[j], 0)),
                _ => t == s,
            },
            _ => t == s,
        },
        Message::CompareFinished(d) => t == App { last_diff: Some(d), ..s } && a is Idle,
        Message::PickExportPath => t == s && a == Action::PickSavePath(s.export_format),
        Message::ExportPathPicked(p) => t == App { export_path: p, ..s } && a is Idle,
        Message::ExportFormatChanged(f) => t == App { export_format: f, ..s } && a is Idle,
        Message::StartExport => t == s && match (s.last_scan, s.export_path) {
            (Some(_), Some(path)) => a matches Action::Export { path: p, format } && p@ == path@
                && format == s.export_format,
            _ => a is Idle,
        },
        Message::ExportFinished(outcome) => a is Idle && match outcome {
            ExportOutcome::Written(path) => t == App { last_export: Some(path), ..s },
            ExportOutcome::Failed(err) => t == App { last_error: Some(err), ..s },
        },
        Message::ScheduleCronChanged(c) => t == App { schedule_cron: c, ..s } && a is Idle,
        Message::ScheduleNameChanged(n) => t == App { schedule_name: n, ..s } && a is Idle,
        Message::InstallSchedule => t == s && a is Idle,
        Message::RemoveSchedule(_) => t == s && a is Idle,
        Message::ScheduleUpdated => t == s && a is Idle,
        Message::ToggleFollowSymlinks(v) => t == App {
            config: Config { follow_symlinks: v, ..s.config },
            ..s
        } && a is Idle,
        Message::AddIgnoreGlob(g) => {
            &&& t == App { config: Config { ignore_globs: t.config.ignore_globs, ..s.config }, ..s }
            &&& t.config.ignore_globs@ == s.config.ignore_globs@.push(g)
            &&& a is Idle
        },
        Message::RemoveIgnoreGlob(i) => {
            &&& t == App { config: Config { ignore_globs: t.config.ignore_globs, ..s.config }, ..s }
            &&& t.config.ignore_globs@ == if i < s.config.ignore_globs@.len() {
                s.config.ignore_globs@.remove(i as int)
            } else {
                s.config.ignore_globs@
            }
            &&& a is Idle
        },
        Message::SaveSettings => t == s && (a matches Action::SaveConfig(text) && text@ == config_text(s.config.value())),
        Message::NoOp => t == s && a is Idle,
    }
}

/// The window title on `screen`.
pub open spec fn title_text(screen: Screen) -> Seq<char> {
    match screen {
        Screen::Dashboard => "FileCanopy"@,
        _ => "FileCanopy — "@ + crate::ui::views::screen_label(screen),
    }
}

impl App {
    /// The state at start-up.
    pub open spec fn is_initial(&self) -> bool {
        &&& self.is_fresh()
        &&& self.config.is_default()
    }

    /// The state at start-up, whatever the configuration.
    pub open spec fn is_fresh(&self) -> bool {
        &&& self.screen == Screen::Dashboard
        &&& self.theme == ThemeChoice::Dark
        &&& self.scan_root is None
        &&& !self.scan_in_progress
        &&& self.scan_progress.files_seen == 0
        &&& self.scan_progress.bytes_seen == 0
        &&& self.scan_progress.current_path is None
        &&& self.last_scan is None
        &&& self.last_size_tree is None
        &&& self.last_error is None
        &&& self.treemap_focus is None
        &&& self.treemap_max_tiles == 200
        &&& self.duplicates is None
        &&& self.dedup_strategy == DedupStrategy::DryRun
        &&& self.dedup_outcome is None
        &&& self.largest_limit == 50
        &&& self.largest_min_size is None
        &&& self.largest_selected is None
        &&& self.line_count_extensions@.len() == crate::ui::views::default_extension_names().len()
        &&& forall|i: int|
            0 <= i < self.line_count_extensions@.len() ==> self.line_count_extensions@[i].0@
                == crate::ui::views::default_extension_names()[i] && !self.line_count_extensions@[i].1
        &&& self.line_count_threshold == 1000
        &&& self.line_count_sort_column == LineCountSortColumn::Lines
        &&& self.line_count_sort_direction == SortDirection::Descending
        &&& self.last_line_count is None
        &&& self.snapshot_label@.len() == 0
        &&& self.snapshots@.len() == 0
        &&& self.compare_before is None
        &&& self.compare_after is None
        &&& self.last_diff is None
        &&& self.export_path is None
        &&& self.export_format == ExportFormat::Pdf
        &&& self.last_export is None
        &&& self.schedule_cron@.len() == 0
        &&& self.schedule_name@ == "filecanopy"@
    }

    /// The start-up state with the default configuration.
    pub fn new() -> (r: App)
        ensures
            r.is_initial(),
    {
        App::with_config(Config::default())
    }

    /// The start-up state with the configuration that was loaded.
    pub fn with_config(config: Config) -> (r: App)
        ensures
            r.is_fresh(),
            r.config == config,
    {
        App {
            screen: Screen::Dashboard,
            config,
            theme: ThemeChoice::Dark,
            scan_root: None,
            scan_in_progress: false,
            scan_progress: ScanProgress::default(),
            last_scan: None,
            last_size_tree: None,
            last_error: None,
            treemap_focus: None,
            treemap_max_tiles: 200,
            duplicates: None,
            dedup_strategy: DedupStrategy::DryRun,
            dedup_outcome: None,
            largest_limit: 50,
            largest_min_size: None,
            largest_selected: None,
            line_count_extensions: crate::ui::views::default_extensions(),
            line_count_threshold: 1000,
            line_count_sort_column: LineCountSortColumn::Lines,
            line_count_sort_direction: SortDirection::Descending,
            last_line_count: None,
            snapshot_label: String::new(),
            snapshots: Vec::new(),
            compare_before: None,
            compare_after: None,
            last_diff: None,
            export_path: None,
            export_format: ExportFormat::Pdf,
            last_export: None,
            schedule_cron: String::new(),
            schedule_name: String::from_str("filecanopy"),
        }
    }

    /// The window title.
    pub fn title(&self) -> (r: String)
        ensures
            r@ == title_text(self.screen),
    {
        match self.screen {
            Screen::Dashboard => String::from_str("FileCanopy"),
            other => {
                let mut t = String::from_str("FileCanopy — ");
                t.append(other.label());
                t
            },
        }
    }

    /// Apply one message to the state; the result is the background work to
    /// start.
    pub fn update(&mut self, message: Message) -> (r: Action)
        requires
            message is TreemapZoomIn ==> old(self).treemap_max_tiles + 100 <= usize::MAX,
        ensures
            update_post(*old(self), message, *final(self), r),
    {
        match message {
            Message::Navigate(screen) => {
                self.screen = screen;
                Action::Idle
            },
            Message::PickScanRoot => Action::PickFolder,
            Message::ScanRootPicked(path) => {
                self.scan_root = path;
                Action::Idle
            },
            Message::StartScan => {
                let root = match &self.scan_root {
                    Some(r) => r.clone(),
                    None => {
                        return Action::Idle;
                    },
                };
                self.scan_in_progress = true;
                self.scan_progress = ScanProgress::default();
                self.last_error = None;
                let mut roots: Vec<String> = Vec::new();
                roots.push(root);
                let excludes = self.config.ignore_globs.clone();
                assert(excludes@ =~= self.config.ignore_globs@);
                Action::Scan(
                    ScanOptions {
                        roots,
                        max_depth: None,
                        follow_symlinks: self.config.follow_symlinks,
                        excludes,
                        threads: None,
                    },
                )
            },
            Message::ScanProgress(p) => {
                self.scan_progress = p;
                Action::Idle
            },
            Message::ScanFinished(report) => {
                self.scan_in_progress = false;
                self.last_size_tree = match crate::analysis::tree::build(&report) {
                    Ok(tree) => Some(Arc::new(tree)),
                    Err(_) => None,
                };
                self.last_scan = Some(report);
                self.treemap_focus = None;
                Action::Idle
            },
            Message::ScanFailed(err) => {
                self.scan_in_progress = false;
                self.last_error = Some(err);
                Action::Idle
            },
            Message::CancelScan => {
                self.scan_in_progress = false;
                Action::Idle
            },
            Message::TreemapTileClicked(path) => {
                let hit = match &self.last_size_tree {
                    Some(tree) => find_dir(&tree.root, path.as_str()).is_some(),
                    None => false,
                };
                if hit {
                    self.treemap_focus = Some(path);
                }
                Action::Idle
            },
            Message::TreemapFocusUp => {
                let next = match (&self.last_size_tree, &self.treemap_focus) {
                    (Some(tree), Some(cur)) => Some(parent_focus(&tree.root, cur.as_str())),
                    _ => None,
                };
                if let Some(n) = next {
                    self.treemap_focus = n;
                }
                Action::Idle
            },
            Message::TreemapFocusRoot => {
                self.treemap_focus = None;
                Action::Idle
            },
            Message::TreemapZoomIn => {
                let v = self.treemap_max_tiles + 100;
                self.treemap_max_tiles = if v < 2000 {
                    v
                } else {
                    2000
                };
                Action::Idle
            },
            Message::TreemapZoomOut => {
                let v = if self.treemap_max_tiles >= 100 {
                    self.treemap_max_tiles - 100
                } else {
                    0
                };
                self.treemap_max_tiles = if v < 20 {
                    20
                } else {
                    v
                };
                Action::Idle
            },
            Message::LargestLimitChanged(n) => {
                self.largest_limit = n;
                Action::Idle
            },
            Message::LargestMinSizeChanged(min) => {
                self.largest_min_size = min;
                Action::Idle
            },
            Message::LargestFileSelected(p) => {
                self.largest_selected = Some(p);
                Action::Idle
            },
            Message::FindDuplicates => {
                if self.last_scan.is_some() {
                    Action::FindDuplicates { min_size: 1024, algo: HashAlgo::Blake3 }
                } else {
                    Action::Idle
                }
            },
            Message::DuplicatesFound(d) => {
                self.duplicates = Some(d);
                Action::Idle
            },
            Message::DuplicatesFailed(err) => {
                self.last_error = Some(err);
                Action::Idle
            },
            Message::DedupStrategyChanged(st) => {
                self.dedup_strategy = st;
                Action::Idle
            },
            Message::ApplyDedup => {
                if self.duplicates.is_some() {
                    Action::ApplyDedup(self.dedup_strategy)
                } else {
                    Action::Idle
                }
            },
            Message::DedupFinished(o) => {
                self.dedup_outcome = Some(o);
                Action::Idle
            },
            Message::LineCountExtToggled(ext, on) => {
                let n = self.line_count_extensions.len();
                let mut i: usize = 0;
                let ghost exts = self.line_count_extensions@;
                while i < n && !crate::text::str_eq(
                    self.line_count_extensions[i].0.as_str(),
                    ext.as_str(),
                )
                    invariant
                        n == exts.len(),
                        i <= n,
                        find_extension_from(exts, ext@, 0) == find_extension_from(exts, ext@, i as int),
                        self.line_count_extensions@ == exts,
                    decreases n - i,
                {
                    i += 1;
                }
                if i < n {
                    proof { lemma_find_extension_from(exts, ext@, i as int); }
                    let name = self.line_count_extensions[i].0.clone();
                    self.line_count_extensions.set(i, (name, on));
                } else if on {
                    self.line_count_extensions.push((ext, true));
                }
                Action::Idle
            },
            Message::LineCountThresholdChanged(th) => {
                self.line_count_threshold = th;
                Action::Idle
            },
            Message::LineCountSortBy(col) => {
                if col == self.line_count_sort_column {
                    self.line_count_sort_direction = self.line_count_sort_direction.toggle();
                } else {
                    self.line_count_sort_column = col;
                    self.line_count_sort_direction = SortDirection::Descending;
                }
                Action::Idle
            },
            Message::RunLineCount => Action::Idle,
            Message::LineCountFinished(r) => {
                self.last_line_count = Some(r);
                Action::Idle
            },
            Message::SnapshotLabelChanged(l) => {
                self.snapshot_label = l;
                Action::Idle
            },
            Message::TakeSnapshot => match (&self.scan_root, &self.last_scan) {
                (Some(root), Some(_)) => {
                    let label = if self.snapshot_label.unicode_len() == 0 {
                        None
                    } else {
                        Some(self.snapshot_label.clone())
                    };
                    Action::TakeSnapshot { root: root.clone(), label }
                },
                _ => Action::Idle,
            },
            Message::SnapshotTaken(snap) => {
                self.snapshots.push(snap);
                Action::Idle
            },
            Message::SnapshotSelectedBefore(x) => {
                self.compare_before = Some(x);
                Action::Idle
            },
            Message::SnapshotSelectedAfter(x) => {
                self.compare_after = Some(x);
                Action::Idle
            },
            Message::CompareSnapshots => {
                let found = match (&self.compare_before, &self.compare_after) {
                    (Some(b), Some(a)) => match (
                        find_snapshot(&self.snapshots, b.as_str()),
                        find_snapshot(&self.snapshots, a.as_str()),
                    ) {
                        (Some(i), Some(j)) => Some((i, j)),
                        _ => None,
                    },
                    _ => None,
                };
                match found {
                    Some((i, j)) => match diff(&self.snapshots[i], &self.snapshots[j], 0) {
                        Ok(d) => {
                            self.last_diff = Some(Arc::new(d));
                        },
                        Err(_) => {},
                    },
                    None => {},
                }
                Action::Idle
            },
            Message::CompareFinished(d) => {
                self.last_diff = Some(d);
                Action::Idle
            },
            Message::PickExportPath => Action::PickSavePath(self.export_format),
            Message::ExportPathPicked(p) => {
                self.export_path = p;
                Action::Idle
            },
            Message::ExportFormatChanged(f) => {
                self.export_format = f;
                Action::Idle
            },
            Message::StartExport => {
                match (&self.last_scan, &self.export_path) {
                    (Some(_), Some(path)) => Action::Export {
                        path: path.clone(),
                        format: self.export_format,
                    },
                    _ => Action::Idle,
                }
            },
            Message::ExportFinished(outcome) => {
                match outcome {
                    ExportOutcome::Written(path) => {
                        self.last_export = Some(path);
                    },
                    ExportOutcome::Failed(err) => {
                        self.last_error = Some(err);
                    },
                }
                Action::Idle
            },
            Message::ScheduleCronChanged(c) => {
                self.schedule_cron = c;
                Action::Idle
            },
            Message::ScheduleNameChanged(n) => {
                self.schedule_name = n;
                Action::Idle
            },
            Message::InstallSchedule => Action::Idle,
            Message::RemoveSchedule(_name) => Action::Idle,
            Message::ScheduleUpdated => Action::Idle,
            Message::ToggleFollowSymlinks(v) => {
                self.config.follow_symlinks = v;
                Action::Idle
            },
            Message::AddIgnoreGlob(g) => {
                self.config.ignore_globs.push(g);
                Action::Idle
            },
            Message::RemoveIgnoreGlob(i) => {
                if i < self.config.ignore_globs.len() {
                    self.config.ignore_globs.remove(i);
                }
                Action::Idle
            },
            Message::SaveSettings => Action::SaveConfig(self.config.save()),
            Message::NoOp => Action::Idle,
        }
    }
}


/// The treemap tile budget stays between 20 and 2000 through every message.
pub proof fn lemma_tile_budget_stays_in_range(s: App, m: Message, t: App, a: Action)
    requires
        update_post(s, m, t, a),
        20 <= s.treemap_max_tiles <= 2000,
    ensures
        20 <= t.treemap_max_tiles <= 2000,
{
}

/// Zooming out right after zooming in restores the state, while the budget
/// has room for one more step.
pub proof fn lemma_zoom_out_undoes_zoom_in(s: App, t: App, a: Action, u: App, b: Action)
    requires
        update_post(s, Message::TreemapZoomIn, t, a),
        update_post(t, Message::TreemapZoomOut, u, b),
        20 <= s.treemap_max_tiles < 1900,
    ensures
        u == s,
{
}

/// Clicking the header of the column the table is sorted by twice leaves
/// the sort as it was.
pub proof fn lemma_sort_header_twice(
    s: App,
    col: LineCountSortColumn,
    t: App,
    a: Action,
    u: App,
    b: Action,
)
    requires
        update_post(s, Message::LineCountSortBy(col), t, a),
        update_post(t, Message::LineCountSortBy(col), u, b),
        s.line_count_sort_column == col,
    ensures
        u == s,
{
}

/// Clicking any header twice in a row sorts by that column, and the second
/// click reverses the direction of the first.
pub proof fn lemma_second_click_reverses(
    s: App,
    col: LineCountSortColumn,
    t: App,
    a: Action,
    u: App,
    b: Action,
)
    requires
        update_post(s, Message::LineCountSortBy(col), t, a),
        update_post(t, Message::LineCountSortBy(col), u, b),
    ensures
        t.line_count_sort_column == col,
        u.line_count_sort_column == col,
        u.line_count_sort_direction != t.line_count_sort_direction,
{
}

} // verus!
