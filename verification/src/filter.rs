//! Metadata-only screening of filesystem entries.

use vstd::prelude::*;

verus! {

/// Length of a disk sector in bytes.
pub const SECTOR_SIZE: u64 = 512;

/// Smallest size, in bytes, that is evaluated unless configured otherwise.
pub const DEFAULT_MIN_SIZE: u64 = 2048;

/// A filesystem entry together with the metadata that was read for it.
#[derive(Clone, Debug, PartialEq, Eq)]
pub struct PathEntry {
    pub path: String,
    pub size: u64,
    pub is_dir: bool,
    pub is_file: bool,
}

/// Policy that decides from metadata alone whether an entry is worth evaluating.
#[derive(Clone, Copy, Debug, PartialEq, Eq)]
pub struct FileFilter {
    /// Smallest size, in bytes, that is still evaluated.
    pub min_size: u64,
    /// Whether the size has to be a whole number of sectors.
    pub require_sector_alignment: bool,
}

impl FileFilter {
    /// What the policy admits: regular files that are not directories, are at
    /// least `min_size` bytes long and, where alignment is required, span a
    /// whole number of sectors.
    pub open spec fn accepts(self, entry: PathEntry) -> bool {
        &&& !entry.is_dir
        &&& entry.is_file
        &&& entry.size >= self.min_size
        &&& (self.require_sector_alignment ==> entry.size % SECTOR_SIZE == 0)
    }

    /// Decides whether `entry` is worth evaluating.
    pub fn accept(&self, entry: &PathEntry) -> (verdict: bool)
        ensures
            verdict == self.accepts(*entry),
    {
        !entry.is_dir && entry.is_file && entry.size >= self.min_size && (
        !self.require_sector_alignment || entry.size % SECTOR_SIZE == 0)
    }
}

impl Default for FileFilter {
    /// The policy that asks for sector alignment and at least
    /// [`DEFAULT_MIN_SIZE`] bytes.
    fn default() -> (filter: FileFilter)
        ensures
            filter.min_size == DEFAULT_MIN_SIZE,
            filter.require_sector_alignment,
    {
        FileFilter { min_size: DEFAULT_MIN_SIZE, require_sector_alignment: true }
    }
}

/// The filter turns away every directory, every entry that is no regular
/// file, every file below the minimum size and, where alignment is required,
/// every file that does not span a whole number of sectors. It sees metadata
/// only, so what a file holds cannot change the answer.
pub proof fn lemma_filter_rejects(filter: FileFilter, entry: PathEntry)
    ensures
        entry.is_dir ==> !filter.accepts(entry),
        !entry.is_file ==> !filter.accepts(entry),
        entry.size < filter.min_size ==> !filter.accepts(entry),
        filter.require_sector_alignment && entry.size % SECTOR_SIZE != 0 ==> !filter.accepts(
            entry,
        ),
{
}

} // verus!
