//! What can go wrong in the store, apart from file system failures.
use vstd::prelude::*;

verus! {

/// Errors of the store. A wrong password is no error: it is an outcome of opening.
#[derive(Debug, Clone, Copy, PartialEq, Eq, Structural)]
pub enum StoreError {
    /// The bytes are no container: bad magic, or shorter than the fixed header.
    FormatError,
    /// The container was written by a newer format version, which this reader refuses.
    UnsupportedVersionError(i32),
    /// The decrypted records are malformed (bad record list or bad timestamp).
    InvalidRecordDataError,
    /// The operating system's entropy source failed.
    EntropyError,
    /// The plaintext is longer than the cipher can encrypt in one message.
    PlaintextTooLong,
    /// The backup file that saving would make exists already.
    BackupExists,
}

impl StoreError {
    /// A message for the user.
    pub fn message(&self) -> (r: String) {
        match self {
            StoreError::FormatError => "not a credentials database (bad header)".to_string(),
            StoreError::UnsupportedVersionError(_) => "unsupported credentials database version".to_string(),
            StoreError::InvalidRecordDataError => "database contains invalid record data".to_string(),
            StoreError::EntropyError => "the system's random number source failed".to_string(),
            StoreError::PlaintextTooLong => "database too large to encrypt".to_string(),
            StoreError::BackupExists => "the backup file exists already; not saving over it".to_string(),
        }
    }
}

} // verus!
