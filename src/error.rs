use vstd::prelude::*;

verus! {

/// Why a packaging run stopped.
#[derive(Debug, PartialEq, Eq)]
pub enum PackageError {
    /// The source path does not exist or is not a directory.
    InvalidSource { path: String },
    /// Packaging was asked for before a compression method and level were set.
    MissingOptions,
    /// The directory walk could not complete.
    Enumeration { path: String },
    /// An entry path does not lie under the parent of the source directory.
    PathResolution { path: String },
    /// The archive file could not be created.
    OutputCreation { path: String },
    /// An entry could not be read or written into the archive.
    EntryWrite { path: String },
    /// The archive could not be completed.
    Finalize,
}

} // verus!
