//! The kinds of failure that the library reports.
use vstd::prelude::*;

verus! {

/// Why an operation was refused.
#[derive(Clone, Debug, PartialEq, Eq)]
pub enum SemaphoreError {
    /// A seed was not exactly 32 bytes long.
    InvalidSeedLength,
    /// A leaf index was not below two to the power of the tree's depth.
    IndexOutOfRange,
    /// A path's length, or a depth, is not one that the other side works with.
    DepthMismatch,
    /// The proving backend refused the inputs; its own words are kept.
    ProofGenerationFailed(String),
    /// A stored document could not be read back.
    MalformedPersistedDocument,
    /// The proving backend could not be used.
    BackendUnavailable,
}

/// The name of an error's kind, as shown to a user. It holds nothing of the
/// values that the failed call was given.
pub open spec fn kind_name(error: SemaphoreError) -> Seq<char> {
    match error {
        SemaphoreError::InvalidSeedLength => "InvalidSeedLength"@,
        SemaphoreError::IndexOutOfRange => "IndexOutOfRange"@,
        SemaphoreError::DepthMismatch => "DepthMismatch"@,
        SemaphoreError::ProofGenerationFailed(_) => "ProofGenerationFailed"@,
        SemaphoreError::MalformedPersistedDocument => "MalformedPersistedDocument"@,
        SemaphoreError::BackendUnavailable => "BackendUnavailable"@,
    }
}

impl SemaphoreError {
    /// The name of the error's kind.
    pub fn kind(&self) -> (r: &'static str)
        ensures
            r@ == kind_name(*self),
    {
        match self {
            SemaphoreError::InvalidSeedLength => "InvalidSeedLength",
            SemaphoreError::IndexOutOfRange => "IndexOutOfRange",
            SemaphoreError::DepthMismatch => "DepthMismatch",
            SemaphoreError::ProofGenerationFailed(_) => "ProofGenerationFailed",
            SemaphoreError::MalformedPersistedDocument => "MalformedPersistedDocument",
            SemaphoreError::BackendUnavailable => "BackendUnavailable",
        }
    }

    /// The backend's own words, where the error carries them.
    pub fn reason(&self) -> (r: Option<&String>)
        ensures
            match *self {
                SemaphoreError::ProofGenerationFailed(text) => r == Some(&text),
                _ => r is None,
            },
    {
        match self {
            SemaphoreError::ProofGenerationFailed(text) => Some(text),
            _ => None,
        }
    }
}

} // verus!
