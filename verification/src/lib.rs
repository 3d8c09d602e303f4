//! Verified core of the RE indicators calculation service: artifact URL
//! resolution, runtime configuration, delegated-validation bookkeeping, the
//! loading of indicator specifications from their schema classes, and the
//! selection of answers and weights that the scores are computed from.
use vstd::prelude::*;

pub mod artifacts;
pub mod calculation_artifact_client;
pub mod computation;
pub mod config;
pub mod fetcher;
pub mod hex_core_api_client;
pub mod http_status;
pub mod json;
pub mod service;
pub mod service_types;
pub mod spec_loader;
pub mod text;
pub mod validator;

verus! {

/// The single model family that this service computes indicators for.
pub const MODEL_FAMILY: &'static str = "re-indicators-specification";

/// The basis that payloads are validated against.
pub const VALIDATION_BASIS: &'static str = "shacl";

/// The model version used when a request names none.
pub const DEFAULT_TESTING_VERSION: &'static str = "0.0.4";

/// Where the published artifacts of a model version live; `{version}` stands for the version.
pub const ARTIFACT_BASE_URL_TEMPLATE: &'static str =
    "https://codeberg.org/CE-RISE-models/re-indicators-specification/src/tag/pages-v{version}/generated/";

/// The base URL of `hex-core-service` when none is configured.
pub const DEFAULT_HEX_CORE_BASE_URL: &'static str = "http://127.0.0.1:8080";

/// The directory that the indicator specification is read from.
pub const DEFAULT_SPEC_SOURCE_DIR: &'static str = "/tmp/re-indicators-specification";

/// The artifact base URL template when none is configured.
pub const DEFAULT_ARTIFACT_BASE_URL_TEMPLATE: &'static str =
    "https://codeberg.org/CE-RISE-models/re-indicators-specification/raw/tag/pages-v{version}/generated/";

/// The timeout of outgoing HTTP requests, in seconds, when none is configured.
pub const DEFAULT_HTTP_TIMEOUT_SECS: u64 = 15;

/// The address that the service binds to when none is configured.
pub const DEFAULT_BIND_ADDRESS: &'static str = "0.0.0.0";

/// The port that the service listens on when none is configured.
pub const DEFAULT_PORT: u16 = 8081;

} // verus!
