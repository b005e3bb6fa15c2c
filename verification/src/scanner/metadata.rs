use vstd::prelude::*;

verus! {

/// What kind of filesystem object an entry describes.
#[derive(Debug, Clone, Copy, PartialEq, Eq, Structural)]
pub enum EntryKind {
    File,
    Directory,
    Symlink,
    Other,
}

/// One scanned filesystem object. Paths are held as `/`-separated text.
#[derive(Debug, Clone)]
pub struct FileEntry {
    pub path: String,
    pub size: u64,
    /// Allocation/cluster size on disk; may differ from logical size on Windows.
    pub size_on_disk: Option<u64>,
    pub kind: EntryKind,
    /// Last modification time, in seconds since the Unix epoch.
    pub modified: Option<u64>,
    pub line_count: Option<u64>,
}

impl FileEntry {
    /// `true` exactly when the entry is a regular file.
    pub fn is_file(&self) -> (r: bool)
        ensures
            r == (self.kind == EntryKind::File),
    {
        match self.kind {
            EntryKind::File => true,
            _ => false,
        }
    }

    /// A field-by-field copy of the entry.
    pub fn duplicate(&self) -> (r: Self)
        ensures
            r == *self,
    {
        FileEntry {
            path: self.path.clone(),
            size: self.size,
            size_on_disk: self.size_on_disk,
            kind: self.kind,
            modified: self.modified,
            line_count: self.line_count,
        }
    }
}

} // verus!
