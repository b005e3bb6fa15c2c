//! Filesystem entries and per-file metadata, the scan report, and the line counter.
pub mod line_counter;
pub mod metadata;
pub mod walker;

pub use metadata::{EntryKind, FileEntry};
pub use walker::{ScanOptions, ScanReport};
