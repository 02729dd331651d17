//! The error taxonomy of the upload engine.

use vstd::prelude::*;

verus! {

/// Why a chunk submission was rejected or its completion handling failed.
#[derive(Clone, Copy, Debug, PartialEq, Eq, Structural)]
pub enum UploadError {
    /// The client-supplied file name sanitized to the empty string.
    EmptyFileName,
    /// The submitted chunk payload held no bytes.
    EmptyPayload,
    /// A non-zero chunk index arrived without a logical-file reference.
    MissingTrackReference,
    /// The ledger could not create or update the row for this submission;
    /// for the in-memory ledger this means the referenced logical file does
    /// not exist, or no further id can be allocated.
    PersistenceFailure,
    /// A chunk needed during assembly was missing from the workspace.
    AssemblyIoError,
    /// No track, time base, or frame count could be determined from the
    /// assembled bytes, so no duration exists.
    UnprobeableMedia,
}

impl UploadError {
    /// Whether the failure is the client's: rejected before any engine
    /// mutation, as opposed to a storage or media failure.
    pub open spec fn spec_is_client_error(self) -> bool {
        self == UploadError::EmptyFileName || self == UploadError::EmptyPayload || self
            == UploadError::MissingTrackReference
    }

    /// Whether the failure is the client's fault.
    pub fn is_client_error(&self) -> (r: bool)
        ensures
            r == self.spec_is_client_error(),
    {
        match self {
            UploadError::EmptyFileName => true,
            UploadError::EmptyPayload => true,
            UploadError::MissingTrackReference => true,
            _ => false,
        }
    }
}

} // verus!
