//! Error taxonomy of the dependency-manager core.
//!
//! Resolution and graph errors always surface to the caller with full
//! context: no partial, silently degraded graph is ever returned.

use vstd::prelude::*;

verus! {

/// A source descriptor could not be resolved to a concrete identity.
#[derive(Debug, Clone, PartialEq, Eq)]
pub enum ResolutionError {
    /// The source (remote repository, local path) could not be reached.
    UnreachableSource,
    /// No version in the registry index satisfies the requested constraint.
    NoMatchingVersion,
    /// The requested version-control reference does not exist.
    InvalidReference,
}

/// A clone/fetch/checkout operation failed.
#[derive(Debug, Clone, PartialEq, Eq)]
pub enum CheckoutError {
    /// The materialization failed after the bounded retries were exhausted.
    CloneFailed,
    /// The destination path is occupied by unrelated content.
    PathConflict,
}

} // verus!
