//! The error taxonomy of the synchronization core.

use vstd::prelude::*;

verus! {

/// Which class an error belongs to.
#[derive(Clone, Copy, Debug, PartialEq, Eq, Structural)]
pub enum ErrorKind {
    /// A precondition on a local directory was violated.
    Validation,
    /// A file name or file content was not valid text.
    Encoding,
    /// The remote payload was malformed.
    Decode,
    /// The remote service reported a failure.
    Store,
    /// A local file operation failed.
    FileSystem,
}

/// An error of the synchronization core, with a human-readable message.
#[derive(Debug)]
pub enum SyncError {
    /// A precondition on a local directory was violated.
    Validation { message: String },
    /// A file name or file content was not valid text.
    Encoding { message: String },
    /// The remote payload was malformed.
    Decode { message: String },
    /// The remote service reported a failure.
    Store { message: String },
    /// A local file operation failed.
    FileSystem { message: String },
}

impl SyncError {
    /// The class of this error.
    pub open spec fn spec_kind(&self) -> ErrorKind {
        match self {
            SyncError::Validation { .. } => ErrorKind::Validation,
            SyncError::Encoding { .. } => ErrorKind::Encoding,
            SyncError::Decode { .. } => ErrorKind::Decode,
            SyncError::Store { .. } => ErrorKind::Store,
            SyncError::FileSystem { .. } => ErrorKind::FileSystem,
        }
    }

    /// The message carried by this error.
    pub open spec fn spec_message(&self) -> Seq<char> {
        match self {
            SyncError::Validation { message } => message@,
            SyncError::Encoding { message } => message@,
            SyncError::Decode { message } => message@,
            SyncError::Store { message } => message@,
            SyncError::FileSystem { message } => message@,
        }
    }

    /// The class of this error.
    pub fn kind(&self) -> (k: ErrorKind)
        ensures
            k == self.spec_kind(),
    {
        match self {
            SyncError::Validation { .. } => ErrorKind::Validation,
            SyncError::Encoding { .. } => ErrorKind::Encoding,
            SyncError::Decode { .. } => ErrorKind::Decode,
            SyncError::Store { .. } => ErrorKind::Store,
            SyncError::FileSystem { .. } => ErrorKind::FileSystem,
        }
    }

    /// The message carried by this error.
    pub fn message(&self) -> (m: &String)
        ensures
            m@ == self.spec_message(),
    {
        match self {
            SyncError::Validation { message } => message,
            SyncError::Encoding { message } => message,
            SyncError::Decode { message } => message,
            SyncError::Store { message } => message,
            SyncError::FileSystem { message } => message,
        }
    }
}

} // verus!
