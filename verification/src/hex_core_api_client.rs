//! The part of the `hex-core-service` client that decides: where a payload is
//! sent for validation and what the reply means.
use vstd::prelude::*;

use crate::http_status::{is_success_status, status_is_success};
use crate::json::{json_error_message, json_error_text, json_parse, parse_json_text};
use crate::text::{
    lemma_trailing_slash_ignored, lemma_trailing_slashes_idempotent, trim_trailing_slashes,
    without_trailing_slashes,
};
use crate::DEFAULT_HEX_CORE_BASE_URL;

verus! {

/// The path, after the base URL, under which `hex-core-service` validates a
/// payload against one version of the model family.
pub open spec fn validation_path_prefix() -> Seq<char> {
    "/models/re-indicators-specification/versions/"@
}

/// The validation URL for `model_version` under `base_url`.
pub open spec fn validation_url_for(base_url: Seq<char>, model_version: Seq<char>) -> Seq<char> {
    base_url + validation_path_prefix() + model_version + ":validate"@
}

/// The client's view of `hex-core-service`: its base URL, without trailing slashes.
pub struct HexCoreApiClient {
    pub base_url: String,
}

/// `base_url` without the slashes it ends with.
pub fn normalize_base_url(base_url: String) -> (r: String)
    ensures
        r@ == trim_trailing_slashes(base_url@),
{
    without_trailing_slashes(base_url.as_str())
}

impl HexCoreApiClient {
    /// A client for the service at `base_url`.
    pub fn new(base_url: String) -> (r: Self)
        ensures
            r.base_url@ == trim_trailing_slashes(base_url@),
    {
        HexCoreApiClient { base_url: normalize_base_url(base_url) }
    }

    /// The URL that validates a payload against `model_version`.
    pub fn validation_url(&self, model_version: &str) -> (r: String)
        ensures
            r@ == validation_url_for(self.base_url@, model_version@),
    {
        let mut url = self.base_url.clone();
        url.append("/models/re-indicators-specification/versions/");
        url.append(model_version);
        url.append(":validate");
        url
    }

    /// What a reply of `hex-core-service` to the validation request sent to
    /// `url` means: the report it holds, or the error that the request ends in.
    pub fn read_validation_response(url: String, status: u16, body: String) -> (r: Result<
        serde_json::Value,
        HexCoreError,
    >)
        ensures
            !is_success_status(status) ==> (r matches Err(HexCoreError::UnexpectedStatus {
                url: u,
                status: s,
                body: b,
            }) && u@ == url@ && s == status && b@ == body@),
            is_success_status(status) ==> (r is Ok <==> json_parse(body@) is Ok),
            r matches Ok(v) ==> json_parse(body@) == Ok::<serde_json::Value, serde_json::Error>(v),
            is_success_status(status) && json_parse(body@) is Err ==> (r matches Err(
                HexCoreError::InvalidJson { url: u, reason: m },
            ) && u@ == url@ && m@ == json_error_text(json_parse(body@)->Err_0)),
    {
        if !status_is_success(status) {
            return Err(HexCoreError::UnexpectedStatus { url, status, body });
        }
        match parse_json_text(body.as_str()) {
            Ok(report) => Ok(report),
            Err(error) => Err(HexCoreError::InvalidJson { url, reason: json_error_message(&error) }),
        }
    }
}

impl Default for HexCoreApiClient {
    /// A client for the service at the default base URL.
    fn default() -> (r: Self)
        ensures
            r.base_url@ == trim_trailing_slashes(DEFAULT_HEX_CORE_BASE_URL@),
    {
        Self::new(DEFAULT_HEX_CORE_BASE_URL.to_owned())
    }
}

/// The ways in which a validation request to `hex-core-service` fails.
pub enum HexCoreError {
    RequestFailed { url: String, reason: String },
    BodyReadFailed { url: String, reason: String },
    UnexpectedStatus { url: String, status: u16, body: String },
    InvalidJson { url: String, reason: String },
}

/// A base URL configured with a trailing slash gives the same validation URLs
/// as the same URL without it.
pub proof fn lemma_trailing_slash_irrelevant(base_url: Seq<char>, model_version: Seq<char>)
    ensures
        validation_url_for(trim_trailing_slashes(base_url.push('/')), model_version)
            == validation_url_for(trim_trailing_slashes(base_url), model_version),
{
    lemma_trailing_slash_ignored(base_url);
}

/// A client built from another client's base URL has the same base URL: the
/// normalisation is idempotent, and a normalised base URL does not end in a slash.
pub proof fn lemma_normalized_base_url_is_stable(base_url: Seq<char>)
    ensures
        trim_trailing_slashes(trim_trailing_slashes(base_url)) == trim_trailing_slashes(base_url),
        trim_trailing_slashes(base_url).len() > 0 ==> trim_trailing_slashes(base_url).last() != '/',
{
    lemma_trailing_slashes_idempotent(base_url);
}

} // verus!
