//! The failures that a provider client reports.
use vstd::prelude::*;

verus! {

/// Why a provider operation failed. Each variant carries the instance, region
/// or operation that the failure concerns.
#[derive(Debug)]
pub enum CloudProviderError {
    /// The provider could not be reached.
    Transport(String),
    /// The provider rejected the request (an invalid region, a quota).
    Rejected(String),
    /// The credentials were refused.
    Unauthorized(String),
    /// The provider no longer knows the instance.
    NotFound(String),
}

/// The outcome of a provider operation.
pub type CloudProviderResult<T> = Result<T, CloudProviderError>;

} // verus!
