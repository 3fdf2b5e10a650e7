//! Application services orchestrating domain logic.
use vstd::prelude::*;

pub mod files;

verus! {

/// Convenience alias for service results.
pub type ServiceResult<T> = Result<T, ServiceError>;

/// Errors surfaced by service operations.
///
/// The four I/O variants wrap the text of an underlying cause; they are
/// produced by the caller that performs the filesystem step of a prepared
/// operation, never by the preparation itself.
#[derive(Debug)]
pub enum ServiceError {
    /// The identity lacks the required role.
    Unauthorized,
    /// A form input failed validation.
    Validation(String),
    /// A location string failed traversal validation, or named a
    /// non-directory where a directory was expected.
    InvalidPath,
    /// A file name failed shape validation.
    InvalidFileName,
    /// Preparing the hub root directory failed.
    StorageSetup(String),
    /// Scanning a directory failed.
    ListEntries(String),
    /// Creating a folder failed.
    CreateFolder(String),
    /// Persisting an uploaded file failed.
    SaveFile(String),
}

} // verus!
