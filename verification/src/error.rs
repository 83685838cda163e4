//! Error kinds of the engine, and which of them a caller may retry.

use vstd::prelude::*;
use crate::encode::dec_of;

verus! {

/// The failure kinds the engine distinguishes.
#[derive(Debug)]
pub enum MemoBuildError {
    /// A write whose bytes do not hash to the declared key.
    CASIntegrityFailure { expected: String, actual: String, data_size: usize },
    /// A network failure, possibly transient.
    NetworkError { message: String, retryable: bool, attempt: u32 },
    /// A storage operation failed.
    StorageError { operation: String, reason: String },
    /// A cache coherency violation (a layer missing mid-reconstruction).
    CacheCoherencyError { hash: String, reason: String },
    /// Remote cache synchronization failed.
    SyncError { message: String, recovered: bool },
    /// A metadata store failure.
    MetadataError { operation: String, reason: String },
    /// A resource conflict or constraint violation.
    ConstraintViolation { reason: String },
    /// Any other failure, carried as text.
    Other(String),
}

/// The rendered message of each error kind.
pub open spec fn error_message_spec(e: MemoBuildError) -> Seq<char> {
    match e {
        MemoBuildError::CASIntegrityFailure { expected, actual, data_size } => {
            "CAS integrity failure: expected "@ + expected@ + ", got "@ + actual@ + " (size: "@
                + dec_of(data_size as int) + " bytes)"@
        },
        MemoBuildError::NetworkError { message, retryable, attempt } => {
            "Network error (attempt "@ + dec_of(attempt as int) + ", retryable: "@ + (if retryable {
                "true"@
            } else {
                "false"@
            }) + "): "@ + message@
        },
        MemoBuildError::StorageError { operation, reason } => {
            "Storage error in "@ + operation@ + ": "@ + reason@
        },
        MemoBuildError::CacheCoherencyError { hash, reason } => {
            "Cache coherency error for "@ + hash@ + ": "@ + reason@
        },
        MemoBuildError::SyncError { message, recovered } => {
            if recovered {
                "Sync error (recovered): "@ + message@
            } else {
                "Sync error: "@ + message@
            }
        },
        MemoBuildError::MetadataError { operation, reason } => {
            "Metadata error in "@ + operation@ + ": "@ + reason@
        },
        MemoBuildError::ConstraintViolation { reason } => { "Constraint violation: "@ + reason@ },
        MemoBuildError::Other(text) => text@,
    }
}

impl MemoBuildError {
    /// Render the error as a single line of text.
    pub fn message(&self) -> (r: String)
        ensures
            r@ == error_message_spec(*self),
    {
        match self {
            MemoBuildError::CASIntegrityFailure { expected, actual, data_size } => {
                let mut s = String::from_str("CAS integrity failure: expected ");
                s.append(expected.as_str());
                s.append(", got ");
                s.append(actual.as_str());
                s.append(" (size: ");
                let d = crate::encode::dec_u64(*data_size as u64);
                s.append(d.as_str());
                s.append(" bytes)");
                s
            },
            MemoBuildError::NetworkError { message, retryable, attempt } => {
                let mut s = String::from_str("Network error (attempt ");
                let d = crate::encode::dec_u64(*attempt as u64);
                s.append(d.as_str());
                s.append(", retryable: ");
                if *retryable {
                    s.append("true");
                } else {
                    s.append("false");
                }
                s.append("): ");
                s.append(message.as_str());
                s
            },
            MemoBuildError::StorageError { operation, reason } => {
                let mut s = String::from_str("Storage error in ");
                s.append(operation.as_str());
                s.append(": ");
                s.append(reason.as_str());
                s
            },
            MemoBuildError::CacheCoherencyError { hash, reason } => {
                let mut s = String::from_str("Cache coherency error for ");
                s.append(hash.as_str());
                s.append(": ");
                s.append(reason.as_str());
                s
            },
            MemoBuildError::SyncError { message, recovered } => {
                let mut s = if *recovered {
                    String::from_str("Sync error (recovered): ")
                } else {
                    String::from_str("Sync error: ")
                };
                s.append(message.as_str());
                s
            },
            MemoBuildError::MetadataError { operation, reason } => {
                let mut s = String::from_str("Metadata error in ");
                s.append(operation.as_str());
                s.append(": ");
                s.append(reason.as_str());
                s
            },
            MemoBuildError::ConstraintViolation { reason } => {
                let mut s = String::from_str("Constraint violation: ");
                s.append(reason.as_str());
                s
            },
            MemoBuildError::Other(text) => text.clone(),
        }
    }
}

/// Which errors may be retried.
pub open spec fn retryable_spec(e: MemoBuildError) -> bool {
    match e {
        MemoBuildError::NetworkError { retryable, .. } => retryable,
        MemoBuildError::CASIntegrityFailure { .. } => false,
        MemoBuildError::StorageError { .. } => false,
        MemoBuildError::CacheCoherencyError { .. } => false,
        MemoBuildError::MetadataError { .. } => true,
        MemoBuildError::SyncError { .. } => true,
        MemoBuildError::ConstraintViolation { .. } => false,
        MemoBuildError::Other(_) => false,
    }
}

/// Is this error worth retrying? Integrity failures never are; transient
/// network, sync and metadata failures are.
pub fn is_retryable(err: &MemoBuildError) -> (r: bool)
    ensures
        r == retryable_spec(*err),
{
    match err {
        MemoBuildError::NetworkError { retryable, .. } => *retryable,
        MemoBuildError::CASIntegrityFailure { .. } => false,
        MemoBuildError::StorageError { .. } => false,
        MemoBuildError::CacheCoherencyError { .. } => false,
        MemoBuildError::MetadataError { .. } => true,
        MemoBuildError::SyncError { .. } => true,
        MemoBuildError::ConstraintViolation { .. } => false,
        MemoBuildError::Other(_) => false,
    }
}

} // verus!
