//! The failures that registry operations report.

use vstd::prelude::*;

verus! {

/// Why an operation did not succeed. No failure leaves the registry changed.
#[derive(Clone, Copy, Debug, PartialEq, Eq, Structural)]
pub enum RegistryError {
    /// The requested blob or manifest does not exist.
    NotFound,
    /// The content does not hash to the digest it was declared under.
    DigestMismatch,
    /// No upload session of that repository has the given id.
    SessionNotFound,
    /// The upload session was finished or reclaimed and takes no more calls.
    SessionExpired,
    /// The manifest lacks a required field or carries a malformed digest.
    InvalidManifest,
    /// Storage could not be allocated or written.
    IOFailure,
}

} // verus!
