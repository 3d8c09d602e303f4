//! HTTP status codes as the service reads them.
use vstd::prelude::*;

verus! {

/// Whether `status` is a success status (`200` to `299`), as
/// `http::StatusCode::is_success` reports it.
pub open spec fn is_success_status(status: u16) -> bool {
    200 <= status <= 299
}

/// Whether `status` is a success status.
pub fn status_is_success(status: u16) -> (b: bool)
    ensures
        b == is_success_status(status),
{
    200 <= status && status <= 299
}

} // verus!
