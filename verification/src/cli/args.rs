//! The parsed command line. Parsing itself is done by the program around the
//! library; these are the values it yields.
use vstd::prelude::*;

verus! {

/// The version the program reports for `--version`.
pub fn version() -> (r: &'static str)
    ensures
        r@ == "0.1.0"@,
{
    "0.1.0"
}

/// The name of the program, as `--help` and `--version` show it.
pub fn program_name() -> (r: &'static str)
    ensures
        r@ == "filecanopy"@,
{
    "filecanopy"
}

/// The one-line description `--help` shows.
pub fn about() -> (r: &'static str)
    ensures
        r@ == "Disk space analyzer, treemap visualizer, duplicate finder, and report generator."@,
{
    "Disk space analyzer, treemap visualizer, duplicate finder, and report generator."
}

/// The whole command line.
#[derive(Debug, Clone)]
pub struct Cli {
    /// Path to a custom config file (overrides default location).
    pub config: Option<String>,
    /// Logging verbosity (-v, -vv, -vvv).
    pub verbose: u8,
    /// Suppress all non-error output.
    pub quiet: bool,
    pub command: Command,
}

/// The subcommands.
#[derive(Debug, Clone)]
pub enum Command {
    /// Scan a directory tree and produce a size report.
    Scan(ScanArgs),
    /// Render a treemap chart of disk usage.
    Treemap(TreemapArgs),
    /// List the largest files (top "space hogs").
    Top(TopArgs),
    /// Find duplicate files by content hash.
    Duplicates(DuplicatesArgs),
    /// Deduplicate previously-detected duplicates.
    Dedup(DedupArgs),
    /// Take a snapshot for historical comparison.
    Snapshot(SnapshotArgs),
    /// Compare two snapshots and show what changed.
    Compare(CompareArgs),
    /// Count lines in source files (for code-repo assessments).
    LineCount(LineCountArgs),
    /// Install or remove a scheduled-task entry (cron / Task Scheduler).
    Schedule(ScheduleArgs),
    /// Export the most recent scan result in a chosen format.
    Export(ExportArgs),
}

#[derive(Debug, Clone)]
pub struct ScanArgs {
    /// One or more directory roots to scan.
    pub roots: Vec<String>,
    /// Maximum depth to recurse (unlimited if omitted).
    pub depth: Option<usize>,
    /// Follow symbolic links during traversal.
    pub follow_symlinks: bool,
    /// Glob patterns to exclude.
    pub excludes: Vec<String>,
    /// Number of worker threads (defaults to physical CPUs).
    pub threads: Option<usize>,
    /// Write the result to a file (format inferred from extension).
    pub output: Option<String>,
}

#[derive(Debug, Clone)]
pub struct TreemapArgs {
    pub root: String,
    /// Output SVG or PNG path.
    pub output: String,
    /// Maximum tiles to draw.
    pub max_tiles: usize,
    pub width: u32,
    pub height: u32,
}

#[derive(Debug, Clone)]
pub struct TopArgs {
    pub root: String,
    /// Number of entries to show.
    pub limit: usize,
    /// Only consider files larger than this many bytes.
    pub min_size: Option<u64>,
}

#[derive(Debug, Clone)]
pub struct DuplicatesArgs {
    pub roots: Vec<String>,
    /// Minimum file size to consider (skip empty / tiny files).
    pub min_size: u64,
    /// Hashing algorithm.
    pub algo: HashAlgo,
}

/// Hashing algorithm chosen on the command line.
#[derive(Debug, Clone, Copy, PartialEq, Eq, Structural)]
pub enum HashAlgo {
    Blake3,
    Xxh3,
}

#[derive(Debug, Clone)]
pub struct DedupArgs {
    /// Path to a duplicates report produced by `filecanopy duplicates`.
    pub report: String,
    /// Resolution strategy.
    pub strategy: DedupStrategy,
}

/// How duplicates are resolved.
#[derive(Debug, Clone, Copy, PartialEq, Eq, Structural)]
pub enum DedupStrategy {
    DryRun,
    Delete,
    Hardlink,
    Symlink,
}

#[derive(Debug, Clone)]
pub struct SnapshotArgs {
    pub root: String,
    /// Optional label for this snapshot.
    pub label: Option<String>,
}

#[derive(Debug, Clone)]
pub struct CompareArgs {
    pub before: String,
    pub after: String,
    /// Only show entries whose size changed by at least this many bytes.
    pub min_delta: u64,
}

#[derive(Debug, Clone)]
pub struct LineCountArgs {
    pub root: String,
    /// File extensions to include (e.g. rs, py, ts).
    pub ext: Vec<String>,
    /// Sort threshold for "monolithic file" flagging.
    pub monolith_threshold: usize,
}

#[derive(Debug, Clone)]
pub struct ScheduleArgs {
    pub action: ScheduleAction,
}

#[derive(Debug, Clone)]
pub enum ScheduleAction {
    /// Install a recurring task on the host OS scheduler.
    Install {
        /// Cron expression (Linux) or task interval description.
        cron: String,
        /// Command to run on schedule (passed to filecanopy).
        command: String,
        /// Unique task name.
        name: String,
    },
    /// Remove a previously-installed task.
    Remove { name: String },
    /// List installed filecanopy tasks.
    List,
}

#[derive(Debug, Clone)]
pub struct ExportArgs {
    /// Path to the scan result to export.
    pub input: String,
    /// Destination file (extension inferred unless `format` is set).
    pub output: String,
    pub format: Option<ExportFormat>,
}

/// Report formats.
#[derive(Debug, Clone, Copy, PartialEq, Eq, Structural)]
pub enum ExportFormat {
    Pdf,
    Excel,
    Html,
    Csv,
    Json,
}

/// The display name of a format.
pub open spec fn format_label(f: ExportFormat) -> Seq<char> {
    match f {
        ExportFormat::Pdf => "PDF"@,
        ExportFormat::Excel => "Excel"@,
        ExportFormat::Html => "HTML"@,
        ExportFormat::Csv => "CSV"@,
        ExportFormat::Json => "JSON"@,
    }
}

/// The usual file extension of a format.
pub open spec fn format_extension(f: ExportFormat) -> Seq<char> {
    match f {
        ExportFormat::Pdf => "pdf"@,
        ExportFormat::Excel => "xlsx"@,
        ExportFormat::Html => "html"@,
        ExportFormat::Csv => "csv"@,
        ExportFormat::Json => "json"@,
    }
}

impl ExportFormat {
    /// Every format, in menu order.
    pub fn all() -> (r: Vec<ExportFormat>)
        ensures
            r@ == seq![
                ExportFormat::Pdf,
                ExportFormat::Excel,
                ExportFormat::Html,
                ExportFormat::Csv,
                ExportFormat::Json,
            ],
    {
        let r = vec![
            ExportFormat::Pdf,
            ExportFormat::Excel,
            ExportFormat::Html,
            ExportFormat::Csv,
            ExportFormat::Json,
        ];
        assert(r@ =~= seq![
            ExportFormat::Pdf,
            ExportFormat::Excel,
            ExportFormat::Html,
            ExportFormat::Csv,
            ExportFormat::Json,
        ]);
        r
    }

    /// The display name of the format.
    pub fn label(self) -> (r: &'static str)
        ensures
            r@ == format_label(self),
    {
        match self {
            ExportFormat::Pdf => "PDF",
            ExportFormat::Excel => "Excel",
            ExportFormat::Html => "HTML",
            ExportFormat::Csv => "CSV",
            ExportFormat::Json => "JSON",
        }
    }

    /// The usual file extension of the format (no dot).
    pub fn extension(self) -> (r: &'static str)
        ensures
            r@ == format_extension(self),
    {
        match self {
            ExportFormat::Pdf => "pdf",
            ExportFormat::Excel => "xlsx",
            ExportFormat::Html => "html",
            ExportFormat::Csv => "csv",
            ExportFormat::Json => "json",
        }
    }
}

} // verus!
