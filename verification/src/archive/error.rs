//! The ways in which work on an archive can fail.

use vstd::prelude::*;
use vstd::string::StringExecFns;

verus! {

/// Why an operation on an archive did not succeed.
#[derive(Debug, Clone)]
pub enum ArchiveError {
    /// Neither the signature nor the file extension names a known layout.
    UnknownFormat,
    /// The requested path is not among the archive's entries.
    NotFound,
    /// The container, or the entry named by `file`, is malformed. `file` is empty when the
    /// container itself cannot be read.
    FormatError { file: String },
    /// Reading from or writing to disk failed; `detail` says what the system reported.
    IOError { detail: String },
    /// An archive was to be built from no files.
    EmptyArchive,
    /// The layout can be read, but no encoder for it is provided.
    UnsupportedOperation,
    /// The caller asked for the batch to stop.
    Cancelled,
}

/// The kind of an [`ArchiveError`], without its payload.
#[derive(Debug, Clone, Copy, PartialEq, Eq, Structural)]
pub enum ErrorKind {
    UnknownFormat,
    NotFound,
    FormatError,
    IOError,
    EmptyArchive,
    UnsupportedOperation,
    Cancelled,
}

impl ArchiveError {
    /// The kind of this error.
    pub open spec fn spec_kind(self) -> ErrorKind {
        match self {
            ArchiveError::UnknownFormat => ErrorKind::UnknownFormat,
            ArchiveError::NotFound => ErrorKind::NotFound,
            ArchiveError::FormatError { .. } => ErrorKind::FormatError,
            ArchiveError::IOError { .. } => ErrorKind::IOError,
            ArchiveError::EmptyArchive => ErrorKind::EmptyArchive,
            ArchiveError::UnsupportedOperation => ErrorKind::UnsupportedOperation,
            ArchiveError::Cancelled => ErrorKind::Cancelled,
        }
    }

    /// The kind of this error.
    pub fn kind(&self) -> (k: ErrorKind)
        ensures
            k == self.spec_kind(),
    {
        match self {
            ArchiveError::UnknownFormat => ErrorKind::UnknownFormat,
            ArchiveError::NotFound => ErrorKind::NotFound,
            ArchiveError::FormatError { .. } => ErrorKind::FormatError,
            ArchiveError::IOError { .. } => ErrorKind::IOError,
            ArchiveError::EmptyArchive => ErrorKind::EmptyArchive,
            ArchiveError::UnsupportedOperation => ErrorKind::UnsupportedOperation,
            ArchiveError::Cancelled => ErrorKind::Cancelled,
        }
    }

    /// A malformed-data error that names no entry: the container itself is at fault.
    pub fn malformed_container() -> (e: ArchiveError)
        ensures
            e is FormatError,
            e->FormatError_file@ == Seq::<char>::empty(),
    {
        ArchiveError::FormatError { file: String::new() }
    }

    /// A malformed-data error for the entry called `name`.
    pub fn malformed_entry(name: &str) -> (e: ArchiveError)
        ensures
            e is FormatError,
            e->FormatError_file@ == name@,
    {
        ArchiveError::FormatError { file: String::from_str(name) }
    }

    /// The text shown to a user for this error.
    pub open spec fn spec_message(self) -> Seq<char> {
        match self {
            ArchiveError::UnknownFormat => "Unknown archive format"@,
            ArchiveError::NotFound => "File not found in archive"@,
            ArchiveError::FormatError { file } => "Malformed archive data: "@ + file@,
            ArchiveError::IOError { detail } => "I/O error: "@ + detail@,
            ArchiveError::EmptyArchive => "Cannot create empty archive"@,
            ArchiveError::UnsupportedOperation => "Writing this archive format is not supported"@,
            ArchiveError::Cancelled => "Cancelled"@,
        }
    }

    /// The text shown to a user for this error.
    pub fn message(&self) -> (s: String)
        ensures
            s@ == self.spec_message(),
    {
        match self {
            ArchiveError::UnknownFormat => String::from_str("Unknown archive format"),
            ArchiveError::NotFound => String::from_str("File not found in archive"),
            ArchiveError::FormatError { file } => String::from_str(
                "Malformed archive data: ",
            ).concat(file.as_str()),
            ArchiveError::IOError { detail } => String::from_str("I/O error: ").concat(
                detail.as_str(),
            ),
            ArchiveError::EmptyArchive => String::from_str("Cannot create empty archive"),
            ArchiveError::UnsupportedOperation => String::from_str(
                "Writing this archive format is not supported",
            ),
            ArchiveError::Cancelled => String::from_str("Cancelled"),
        }
    }
}

/// A batch that stopped early: how many units had completed, and what stopped it.
#[derive(Debug, Clone)]
pub struct BatchFailure {
    /// The number of entries that were delivered before the batch stopped.
    pub completed: usize,
    /// The first failure in entry order.
    pub cause: ArchiveError,
}

} // verus!
