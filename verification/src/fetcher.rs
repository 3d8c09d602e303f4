//! The part of the artifact fetcher that decides what an HTTP reply means.
use vstd::prelude::*;

use crate::http_status::{is_success_status, status_is_success};

verus! {

/// The ways in which fetching an artifact fails.
pub enum ArtifactFetchError {
    RequestFailed { url: String, reason: String },
    UnexpectedStatus { url: String, status: u16 },
    BodyReadFailed { url: String, reason: String },
}

/// Whether an artifact reply with `status` may be read: a reply that is not a
/// success ends the fetch of `url` before its body is read.
pub fn check_fetch_status(url: &str, status: u16) -> (r: Result<(), ArtifactFetchError>)
    ensures
        is_success_status(status) <==> r is Ok,
        !is_success_status(status) ==> (r matches Err(ArtifactFetchError::UnexpectedStatus {
            url: u,
            status: s,
        }) && u@ == url@ && s == status),
{
    if status_is_success(status) {
        Ok(())
    } else {
        Err(ArtifactFetchError::UnexpectedStatus { url: url.to_owned(), status })
    }
}

} // verus!
