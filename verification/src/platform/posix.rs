//! POSIX metrics, computed from the values `lstat` reports. Reading them is
//! the caller's part.
use vstd::prelude::*;

verus! {

/// POSIX filesystem metrics.
pub struct Posix;

impl Posix {
    /// Allocated size from the number of 512-byte blocks `lstat` reports.
    pub fn size_on_disk_from_blocks(blocks: u64) -> (r: Option<u64>)
        requires
            blocks * 512 <= u64::MAX,
        ensures
            r == Some((blocks * 512) as u64),
    {
        Some(blocks * 512)
    }

    /// Whether a path is a mount point, from the device of the path and of
    /// its parent (`None` when it has no parent: the filesystem root, which
    /// is by definition a mount point).
    pub fn mount_point_from_devices(dev: u64, parent_dev: Option<u64>) -> (r: bool)
        ensures
            r == match parent_dev {
                Some(p) => dev != p,
                None => true,
            },
    {
        match parent_dev {
            Some(p) => dev != p,
            None => true,
        }
    }
}

} // verus!
