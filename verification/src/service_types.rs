//! The parts of the service's replies that the library builds.
use vstd::prelude::*;

use crate::json::{
    json_array_member_len, json_array_member_len_spec, json_bool_member, json_bool_member_spec,
};
use crate::config::RuntimeConfig;
use crate::{DEFAULT_SPEC_SOURCE_DIR, DEFAULT_TESTING_VERSION, MODEL_FAMILY, VALIDATION_BASIS};

verus! {

/// How a payload's delegated validation went.
pub struct ValidationSummary {
    pub basis: String,
    pub source: String,
    pub validation_url: String,
    pub status: String,
    pub passed: Option<bool>,
    pub finding_count: Option<usize>,
    pub findings_present: Option<bool>,
    pub raw_report: Option<serde_json::Value>,
    pub details: Vec<String>,
}

/// Whether a report with `finding_count` findings has any.
pub open spec fn findings_present_spec(finding_count: Option<usize>) -> Option<bool> {
    match finding_count {
        Some(n) => Some(n > 0),
        None => None,
    }
}

/// A report with a count of findings has findings exactly when it has at least
/// one, and has none exactly when it has zero; without a count it says neither.
pub proof fn lemma_findings_present_iff_some_finding(finding_count: Option<usize>)
    ensures
        findings_present_spec(finding_count) == Some(true) <==> (finding_count matches Some(n) && n >= 1),
        findings_present_spec(finding_count) == Some(false) <==> finding_count == Some(0usize),
        findings_present_spec(finding_count) is None <==> finding_count is None,
{
}

/// The note that a summary of a skipped validation carries.
pub open spec fn skipped_note() -> Seq<char> {
    "Validation delegation to hex-core-service is disabled for this runtime."@
}

/// The note that a summary of a delegated validation carries.
pub open spec fn delegated_note() -> Seq<char> {
    "Payload validation was delegated to hex-core-service."@
}

/// The opening of the note that a summary of a failed delegation carries; the
/// reason follows it.
pub open spec fn delegation_failed_note_prefix() -> Seq<char> {
    "Delegated validation through hex-core-service failed: "@
}

impl ValidationSummary {
    /// Whether the summary names the SHACL basis and `hex-core-service` as its source.
    pub open spec fn names_basis_and_source(&self) -> bool {
        &&& self.basis@ == "shacl"@
        &&& self.source@ == "hex-core-service"@
    }

    /// The summary of a validation that was not delegated.
    pub fn skipped(validation_url: String) -> (r: Self)
        ensures
            r.names_basis_and_source(),
            r.validation_url@ == validation_url@,
            r.status@ == "validation_skipped"@,
            r.passed is None,
            r.finding_count is None,
            r.findings_present is None,
            r.raw_report is None,
            r.details@.len() == 1,
            r.details@[0]@ == skipped_note(),
    {
        let details = vec![
            "Validation delegation to hex-core-service is disabled for this runtime.".to_owned(),
        ];
        ValidationSummary {
            basis: "shacl".to_owned(),
            source: "hex-core-service".to_owned(),
            validation_url,
            status: "validation_skipped".to_owned(),
            passed: None,
            finding_count: None,
            findings_present: None,
            raw_report: None,
            details,
        }
    }

    /// The summary of a validation that `hex-core-service` carried out and
    /// reported on in `report`: its `passed` is the report's boolean member
    /// `passed`, and its findings are the elements of the report's array member
    /// `results`, where the report has such members.
    pub fn validated_by_hex_core(validation_url: String, report: serde_json::Value) -> (r: Self)
        ensures
            r.names_basis_and_source(),
            r.validation_url@ == validation_url@,
            r.status@ == "validated_by_hex_core"@,
            r.passed == json_bool_member_spec(report, "passed"@),
            r.finding_count == json_array_member_len_spec(report, "results"@),
            r.findings_present == findings_present_spec(r.finding_count),
            r.raw_report == Some(report),
            r.details@.len() == 1,
            r.details@[0]@ == delegated_note(),
    {
        let passed = json_bool_member(&report, "passed");
        let finding_count = json_array_member_len(&report, "results");
        let findings_present = match finding_count {
            Some(n) => Some(n > 0),
            None => None,
        };
        let details = vec!["Payload validation was delegated to hex-core-service.".to_owned()];
        ValidationSummary {
            basis: "shacl".to_owned(),
            source: "hex-core-service".to_owned(),
            validation_url,
            status: "validated_by_hex_core".to_owned(),
            passed,
            finding_count,
            findings_present,
            raw_report: Some(report),
            details,
        }
    }

    /// The summary of a delegation that failed for `reason`.
    pub fn hex_core_validation_failed(validation_url: String, reason: String) -> (r: Self)
        ensures
            r.names_basis_and_source(),
            r.validation_url@ == validation_url@,
            r.status@ == "hex_core_validation_failed"@,
            r.passed is None,
            r.finding_count is None,
            r.findings_present is None,
            r.raw_report is None,
            r.details@.len() == 1,
            r.details@[0]@ == delegation_failed_note_prefix() + reason@,
    {
        let mut note = "Delegated validation through hex-core-service failed: ".to_owned();
        note.append(reason.as_str());
        let details = vec![note];
        ValidationSummary {
            basis: "shacl".to_owned(),
            source: "hex-core-service".to_owned(),
            validation_url,
            status: "hex_core_validation_failed".to_owned(),
            passed: None,
            finding_count: None,
            findings_present: None,
            raw_report: None,
            details,
        }
    }
}

/// The service's identity and its effective settings, as its health endpoint
/// reports them.
pub struct HealthResponse {
    pub status: &'static str,
    pub model_family: &'static str,
    pub validation_basis: &'static str,
    pub default_testing_version: &'static str,
    pub artifact_base_url_template: String,
    pub hex_core_base_url: String,
    pub http_timeout_secs: u64,
    pub bind_address: String,
    pub port: u16,
    pub calculation_artifact_url_template: String,
    pub spec_source_dir: String,
}

/// The health report: the service is up, its fixed identity, and the settings
/// it runs with.
pub fn health(config: &RuntimeConfig) -> (r: HealthResponse)
    ensures
        r.status@ == "ok"@,
        r.model_family@ == MODEL_FAMILY@,
        r.validation_basis@ == VALIDATION_BASIS@,
        r.default_testing_version@ == DEFAULT_TESTING_VERSION@,
        r.artifact_base_url_template@ == config.artifact_base_url_template@,
        r.hex_core_base_url@ == config.hex_core_base_url@,
        r.http_timeout_secs == config.http_timeout_secs,
        r.bind_address@ == config.bind_address@,
        r.port == config.port,
        r.calculation_artifact_url_template@ == config.artifact_base_url_template@
            + "calculation.json"@,
        r.spec_source_dir@ == DEFAULT_SPEC_SOURCE_DIR@,
{
    let mut calculation_artifact_url_template = config.artifact_base_url_template.clone();
    calculation_artifact_url_template.append("calculation.json");
    HealthResponse {
        status: "ok",
        model_family: MODEL_FAMILY,
        validation_basis: VALIDATION_BASIS,
        default_testing_version: DEFAULT_TESTING_VERSION,
        artifact_base_url_template: config.artifact_base_url_template.clone(),
        hex_core_base_url: config.hex_core_base_url.clone(),
        http_timeout_secs: config.http_timeout_secs,
        bind_address: config.bind_address.clone(),
        port: config.port,
        calculation_artifact_url_template,
        spec_source_dir: DEFAULT_SPEC_SOURCE_DIR.to_owned(),
    }
}

} // verus!
