//! The part of the calculation artifact client that decides what a reply means.
use vstd::prelude::*;

use crate::http_status::{is_success_status, status_is_success};
use crate::json::{json_error_message, json_error_text, json_parse, parse_json_text};

verus! {

/// The ways in which fetching a calculation artifact fails.
pub enum CalculationArtifactError {
    RequestFailed { url: String, reason: String },
    BodyReadFailed { url: String, reason: String },
    UnexpectedStatus { url: String, status: u16, body: String },
    InvalidJson { url: String, reason: String },
}

/// What the reply to a request for the calculation artifact at `url` means:
/// the artifact as JSON, or the error that the fetch ends in.
pub fn read_calculation_response(url: String, status: u16, body: String) -> (r: Result<
    serde_json::Value,
    CalculationArtifactError,
>)
    ensures
        !is_success_status(status) ==> (r matches Err(CalculationArtifactError::UnexpectedStatus {
            url: u,
            status: s,
            body: b,
        }) && u@ == url@ && s == status && b@ == body@),
        is_success_status(status) ==> (r is Ok <==> json_parse(body@) is Ok),
        r matches Ok(v) ==> json_parse(body@) == Ok::<serde_json::Value, serde_json::Error>(v),
        is_success_status(status) && json_parse(body@) is Err ==> (r matches Err(
            CalculationArtifactError::InvalidJson { url: u, reason: m },
        ) && u@ == url@ && m@ == json_error_text(json_parse(body@)->Err_0)),
{
    if !status_is_success(status) {
        return Err(CalculationArtifactError::UnexpectedStatus { url, status, body });
    }
    match parse_json_text(body.as_str()) {
        Ok(artifact) => Ok(artifact),
        Err(error) => Err(
            CalculationArtifactError::InvalidJson { url, reason: json_error_message(&error) },
        ),
    }
}

} // verus!
