//! The kinds of failure that an extraction can meet.
use vstd::prelude::*;

verus! {

/// Why an extraction did not complete.
#[derive(Debug, Clone, Copy, PartialEq, Eq, Structural)]
pub enum ExtractionError {
    /// The output directory, or the directory of an entry, could not be made.
    DirectoryCreation,
    /// The archive could not be read as an archive of its format.
    ArchiveOpen,
    /// An entry's data could not be read or decompressed.
    EntryRead,
    /// An entry's file could not be created or written.
    EntryWrite,
    /// An entry's name would place it outside the output directory.
    UnsafeEntryPath,
    /// The archive's name ends in neither `.zip` nor `.rar`.
    UnsupportedFormat,
    /// No archive path was given.
    MissingArgument,
}

} // verus!
