//! Snapshots of scans and over-time comparison.
pub mod compare;
pub mod snapshot;
pub mod store;

pub use compare::DiffReport;
pub use snapshot::Snapshot;
pub use store::SnapshotStore;
