//! The ways in which an operation of the cache can fail.

use vstd::prelude::*;

verus! {

/// Why a tag cannot name a cache slot.
#[derive(Clone, Copy, Debug, PartialEq, Eq, Structural)]
pub enum InvalidTagError {
    /// The tag has no characters.
    Empty,
    /// The tag holds a path separator (`/` or `\`) or a NUL character.
    ForbiddenCharacter,
    /// The tag holds two dots in a row, the name of a parent directory.
    ParentReference,
}

/// Why the bytes of an entry file, or a payload, could not be read or
/// written as such.
#[derive(Clone, Debug, PartialEq, Eq)]
pub enum EncodingError {
    /// The bytes do not begin with the mark of an entry file.
    BadMagic,
    /// The bytes end in the middle of a field.
    Truncated,
    /// A known field does not have the shape of its kind.
    Malformed,
    /// The update time, the tag or the content is absent.
    MissingField,
    /// The file holds the entry of another tag.
    TagMismatch,
    /// The payload could not be turned into text or back; the string is the
    /// reason as the encoder gave it.
    Payload(String),
}

/// The kinds of file-system failure that the cache tells apart.
#[derive(Clone, Copy, Debug, PartialEq, Eq, Structural)]
pub enum IoErrorKind {
    /// The file or directory does not exist.
    NotFound,
    /// The file or directory exists already.
    AlreadyExists,
    /// Anything else.
    Other,
}

/// A file-system step that failed.
#[derive(Clone, Debug, PartialEq, Eq)]
pub struct IoError {
    pub kind: IoErrorKind,
    /// What the file system said, for people to read.
    pub detail: String,
}

/// The failure of a cache operation.
#[derive(Clone, Debug, PartialEq, Eq)]
pub enum StoreError {
    /// A file-system step failed in a way the cache does not absorb.
    Io(IoError),
    /// An entry could not be encoded or decoded.
    Encoding(EncodingError),
    /// The tag was refused; no file-system step was asked for.
    InvalidTag(InvalidTagError),
    /// The operation was resumed with an outcome that does not answer the
    /// step it had asked for.
    UnexpectedReply,
}

} // verus!
