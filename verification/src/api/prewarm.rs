//! Control-initiated artifact pre-warming.
//!
//! An artifact's layer blob is pulled into the node's cache ahead of any machine
//! that needs it, so the create path finds a warm cache instead of racing a
//! cold download.
use vstd::prelude::*;
use crate::api::error::{ApiError, Refusal};
use crate::text::trim;

verus! {

/// A blob that was pulled.
#[derive(Debug)]
pub struct PulledArtifact {
    /// Digest of the blob.
    pub digest: String,
    /// Size of the blob in bytes.
    pub size: u64,
    /// The blob was cached already.
    pub cached: bool,
}

/// Response to a pre-warm request.
#[derive(Debug, PartialEq, Eq)]
pub struct WarmArtifactResponse {
    /// Digest of the blob.
    pub digest: String,
    /// Size of the blob in bytes.
    pub size_bytes: u64,
    /// The blob was cached already, so nothing was transferred.
    pub already_cached: bool,
}

/// An empty reference is rejected at the boundary rather than handed to the
/// reference parser.
pub fn check_reference(reference: &str) -> (r: Result<(), ApiError>)
    ensures
        match r {
            Ok(_) => crate::text::trimmed(reference@).len() > 0,
            Err(error) => crate::text::trimmed(reference@).len() == 0 && error@
                == Refusal::BadRequest("reference must not be empty"@),
        },
{
    if trim(reference).unicode_len() == 0 {
        Err(ApiError::BadRequest("reference must not be empty".to_owned()))
    } else {
        Ok(())
    }
}

/// The response about a pulled blob.
pub fn warm_artifact(pulled: PulledArtifact) -> (r: WarmArtifactResponse)
    ensures
        r.digest == pulled.digest,
        r.size_bytes == pulled.size,
        r.already_cached == pulled.cached,
{
    WarmArtifactResponse {
        digest: pulled.digest,
        size_bytes: pulled.size,
        already_cached: pulled.cached,
    }
}

} // verus!
