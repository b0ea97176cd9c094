//! Error kinds reported by the staging resolver and the archive unpacker.

use vstd::prelude::*;

verus! {

/// Errors of the staging resolver: locating the source archive and claiming
/// the destination directory.
#[derive(Debug, Clone, Copy, PartialEq, Eq, Structural)]
pub enum MyError {
    /// The source archive is absent at the expected path.
    FileNotFound,
    /// The destination directory could not be created, for a reason other
    /// than pre-existence (for example, the path is taken by a plain file).
    FailedToCreateFolder,
    /// The destination directory already exists: a previous extraction
    /// already claimed it.
    FolderAlreadyExists,
    /// The archive container could not be produced for the document.
    FailedToCreateZip,
}

/// Errors of the archive unpacker.
#[derive(Debug, Clone, Copy, PartialEq, Eq, Structural)]
pub enum UnpackError {
    /// The archive could not be opened or parsed as a zip container.
    ArchiveOpenFailed,
    /// An individual entry's content could not be decompressed or read.
    EntryReadFailed,
    /// A directory or file could not be created, or a write failed, while
    /// the extracted tree was being written out.
    FilesystemWriteFailed,
}

} // verus!
