//! Filesystem queries that differ between Windows and POSIX (allocated size,
//! hardlink count, mount-point detection).
pub mod posix;
pub mod windows;

use vstd::prelude::*;

use crate::error::Error;

pub use posix::Posix;
pub use windows::Win;

verus! {

/// Per-platform filesystem metrics of a path.
pub trait DiskMetrics {
    /// Cluster/allocation size on disk, if the OS can report it.
    fn size_on_disk(path: &str) -> Result<Option<u64>, Error>;

    fn hardlink_count(path: &str) -> Result<u64, Error>;

    fn is_mount_point(path: &str) -> Result<bool, Error>;
}

} // verus!
