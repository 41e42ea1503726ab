//! The error taxonomy shared by the tag codec and the tag tree.

use vstd::prelude::*;
use crate::primitive::TagPath;

verus! {

/// Every fallible operation of this crate returns this alias, distinguishing
/// success from a specific error kind.
pub type RinghopperResult<T> = Result<T, Error>;

/// The error kinds of the storage layer. Each maps to a distinct user-facing
/// condition; nothing is silently swallowed except unrecognized file
/// extensions in directory listings and lost races to populate a cache.
#[derive(Clone, Debug)]
pub enum Error {
    /// A tag file's header is structurally invalid: wrong magic constant,
    /// wrong sentinel, or wrong declared header size.
    TagParseFailure,
    /// The payload checksum did not match the one stored in the header
    /// (strict parsing only).
    ChecksumMismatch,
    /// The header's group tag differs from the requested type's group.
    TagHeaderGroupTypeMismatch,
    /// The header's group matches the requested type's group, but the schema
    /// version differs.
    TagHeaderGroupVersionMismatch,
    /// A read or write would pass the declared bound of a buffer.
    OutOfBounds,
    /// A tag path could not be built from the given string.
    InvalidTagPath,
    /// No tag exists at the given path.
    TagNotFound(TagPath),
    /// A tag exists at the given path but its bytes fail to decode.
    CorruptedTag(TagPath),
    /// A backing root given at construction is not a directory.
    InvalidTagsDirectory,
    /// The backing store failed to read a file.
    FailedToReadFile,
    /// The backing store failed to write a file.
    FailedToWriteFile,
}

impl Error {
    /// A short, stable name for the error kind, for display by callers.
    pub fn kind_name(&self) -> &'static str {
        match self {
            Error::TagParseFailure => "tag parse failure",
            Error::ChecksumMismatch => "checksum mismatch",
            Error::TagHeaderGroupTypeMismatch => "tag header group type mismatch",
            Error::TagHeaderGroupVersionMismatch => "tag header group version mismatch",
            Error::OutOfBounds => "out of bounds",
            Error::InvalidTagPath => "invalid tag path",
            Error::TagNotFound(_) => "tag not found",
            Error::CorruptedTag(_) => "corrupted tag",
            Error::InvalidTagsDirectory => "invalid tags directory",
            Error::FailedToReadFile => "failed to read file",
            Error::FailedToWriteFile => "failed to write file",
        }
    }
}

} // verus!
