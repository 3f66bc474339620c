//! The reasons for which the registry rejects a call.

use vstd::prelude::*;

verus! {

/// The four kinds of failure a caller can provoke.
#[derive(Clone, Copy, Debug, PartialEq, Eq, Structural)]
pub enum ErrorKind {
    /// A required upload field was empty, or the size was zero.
    InvalidArgument,
    /// The caller owns no files, or none with the given content identifier.
    NotFound,
    /// The tag to add is already on the file.
    DuplicateTag,
    /// The tag to remove is not on the file.
    TagNotPresent,
}

/// A rejected call, with the precise reason.
#[derive(Clone, Copy, Debug, PartialEq, Eq, Structural)]
pub enum Error {
    /// The file hash of an upload was empty.
    EmptyFileHash,
    /// The file size of an upload was zero.
    ZeroFileSize,
    /// The file name of an upload was empty.
    EmptyFileName,
    /// The file type of an upload was empty.
    EmptyFileType,
    /// The caller has no recorded files at all.
    NoFiles,
    /// The caller has files, but none with the given content identifier.
    UnknownFile,
    /// The file already carries the tag.
    DuplicateTag,
    /// The file does not carry the tag.
    TagNotPresent,
}

impl Error {
    /// The kind a reason belongs to.
    pub open spec fn spec_kind(self) -> ErrorKind {
        match self {
            Error::EmptyFileHash => ErrorKind::InvalidArgument,
            Error::ZeroFileSize => ErrorKind::InvalidArgument,
            Error::EmptyFileName => ErrorKind::InvalidArgument,
            Error::EmptyFileType => ErrorKind::InvalidArgument,
            Error::NoFiles => ErrorKind::NotFound,
            Error::UnknownFile => ErrorKind::NotFound,
            Error::DuplicateTag => ErrorKind::DuplicateTag,
            Error::TagNotPresent => ErrorKind::TagNotPresent,
        }
    }

    /// The text shown to the invoker for a reason.
    pub open spec fn spec_message(self) -> Seq<char> {
        match self {
            Error::EmptyFileHash => "File hash cannot be empty."@,
            Error::ZeroFileSize => "File size must be greater than 0."@,
            Error::EmptyFileName => "File name cannot be empty."@,
            Error::EmptyFileType => "File type cannot be empty."@,
            Error::NoFiles => "File was not found!"@,
            Error::UnknownFile => "Something went wrong!"@,
            Error::DuplicateTag => "This file already has this tag!"@,
            Error::TagNotPresent => "This tag doesn't exist for the selected file!"@,
        }
    }

    /// The kind of this failure.
    #[verifier::when_used_as_spec(spec_kind)]
    pub fn kind(self) -> (kind: ErrorKind)
        ensures
            kind == self.spec_kind(),
    {
        match self {
            Error::EmptyFileHash => ErrorKind::InvalidArgument,
            Error::ZeroFileSize => ErrorKind::InvalidArgument,
            Error::EmptyFileName => ErrorKind::InvalidArgument,
            Error::EmptyFileType => ErrorKind::InvalidArgument,
            Error::NoFiles => ErrorKind::NotFound,
            Error::UnknownFile => ErrorKind::NotFound,
            Error::DuplicateTag => ErrorKind::DuplicateTag,
            Error::TagNotPresent => ErrorKind::TagNotPresent,
        }
    }

    /// The human-readable message of this failure.
    pub fn message(self) -> (text: &'static str)
        ensures
            text@ == self.spec_message(),
    {
        match self {
            Error::EmptyFileHash => "File hash cannot be empty.",
            Error::ZeroFileSize => "File size must be greater than 0.",
            Error::EmptyFileName => "File name cannot be empty.",
            Error::EmptyFileType => "File type cannot be empty.",
            Error::NoFiles => "File was not found!",
            Error::UnknownFile => "Something went wrong!",
            Error::DuplicateTag => "This file already has this tag!",
            Error::TagNotPresent => "This tag doesn't exist for the selected file!",
        }
    }
}

} // verus!
