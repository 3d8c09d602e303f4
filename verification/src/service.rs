//! The decisions of the compute endpoint: which artifacts and validation URL a
//! request resolves to, how the delegated validation is summarised, and
//! whether the scores are then computed.
use vstd::prelude::*;

use crate::artifacts::{base_url_for, resolved_version, ArtifactSet};
use crate::hex_core_api_client::{validation_url_for, HexCoreApiClient};
use crate::json::{json_array_member_len_spec, json_bool_member_spec};
use crate::service_types::{
    delegation_failed_note_prefix, delegated_note, findings_present_spec, skipped_note,
    ValidationSummary,
};
use crate::{ARTIFACT_BASE_URL_TEMPLATE, DEFAULT_SPEC_SOURCE_DIR};

verus! {

/// What a compute request resolves to before any outside call.
pub struct ResolvedRequest {
    pub artifacts: ArtifactSet,
    pub validation_url: String,
}

/// The artifacts of the requested version (the default testing version where
/// none is requested) and the URL that validates a payload against it.
pub fn resolve_request(model_version: Option<&str>, hex_core: &HexCoreApiClient) -> (r: ResolvedRequest)
    ensures
        r.artifacts.model_version@ == resolved_version(
            match model_version {
                Some(v) => Some(v@),
                None => None,
            },
        ),
        r.artifacts.base_url@ == base_url_for(ARTIFACT_BASE_URL_TEMPLATE@, r.artifacts.model_version@),
        r.artifacts.urls_follow_base(),
        r.validation_url@ == validation_url_for(hex_core.base_url@, r.artifacts.model_version@),
{
    let artifacts = ArtifactSet::for_requested_version(model_version);
    let validation_url = hex_core.validation_url(artifacts.model_version.as_str());
    ResolvedRequest { artifacts, validation_url }
}

/// How the delegation of a payload's validation ended: not attempted, answered
/// with a report, or failed with a reason.
pub enum DelegationOutcome {
    Disabled,
    Reported(serde_json::Value),
    Failed(String),
}

/// The validation summary for a delegation that ended in `outcome`.
pub fn summarize_delegation(validation_url: String, outcome: DelegationOutcome) -> (r: ValidationSummary)
    ensures
        r.names_basis_and_source(),
        r.validation_url@ == validation_url@,
        r.details@.len() == 1,
        match outcome {
            DelegationOutcome::Disabled => {
                &&& r.status@ == "validation_skipped"@
                &&& r.passed is None
                &&& r.finding_count is None
                &&& r.findings_present is None
                &&& r.raw_report is None
                &&& r.details@[0]@ == skipped_note()
            },
            DelegationOutcome::Reported(report) => {
                &&& r.status@ == "validated_by_hex_core"@
                &&& r.passed == json_bool_member_spec(report, "passed"@)
                &&& r.finding_count == json_array_member_len_spec(report, "results"@)
                &&& r.findings_present == findings_present_spec(r.finding_count)
                &&& r.raw_report == Some(report)
                &&& r.details@[0]@ == delegated_note()
            },
            DelegationOutcome::Failed(reason) => {
                &&& r.status@ == "hex_core_validation_failed"@
                &&& r.passed is None
                &&& r.finding_count is None
                &&& r.findings_present is None
                &&& r.raw_report is None
                &&& r.details@[0]@ == delegation_failed_note_prefix() + reason@
            },
        },
{
    match outcome {
        DelegationOutcome::Disabled => ValidationSummary::skipped(validation_url),
        DelegationOutcome::Reported(report) => ValidationSummary::validated_by_hex_core(
            validation_url,
            report,
        ),
        DelegationOutcome::Failed(reason) => ValidationSummary::hex_core_validation_failed(
            validation_url,
            reason,
        ),
    }
}

/// Whether the scores of a request are computed.
#[derive(PartialEq, Eq, Structural, Clone, Copy, Debug)]
pub enum ComputationStep {
    /// The delegated validation reported that the payload did not pass.
    SkipAfterFailedValidation,
    /// The indicator specification could not be loaded.
    SkipWithoutSpecification,
    Compute,
}

/// The scores are computed unless the validation reported a failure or the
/// specification is missing; a failed validation takes precedence.
pub fn computation_step(validation: &ValidationSummary, specification_loaded: bool) -> (s:
    ComputationStep)
    ensures
        validation.passed == Some(false) ==> s == ComputationStep::SkipAfterFailedValidation,
        validation.passed != Some(false) && specification_loaded ==> s == ComputationStep::Compute,
        validation.passed != Some(false) && !specification_loaded ==> s
            == ComputationStep::SkipWithoutSpecification,
{
    match validation.passed {
        Some(false) => ComputationStep::SkipAfterFailedValidation,
        _ => if specification_loaded {
            ComputationStep::Compute
        } else {
            ComputationStep::SkipWithoutSpecification
        },
    }
}

/// The note that explains a skipped computation.
pub open spec fn skip_note(step: ComputationStep) -> Option<Seq<char>> {
    match step {
        ComputationStep::SkipAfterFailedValidation => Some(
            "Computation was skipped because delegated validation did not pass."@,
        ),
        ComputationStep::SkipWithoutSpecification => Some(
            "Specification repository could not be loaded from "@ + DEFAULT_SPEC_SOURCE_DIR@ + "."@,
        ),
        ComputationStep::Compute => None,
    }
}

/// The note that explains why `step` skips the computation, where it does.
pub fn skipped_computation_note(step: ComputationStep) -> (r: Option<String>)
    ensures
        match r {
            Some(s) => skip_note(step) == Some(s@),
            None => skip_note(step) is None,
        },
{
    match step {
        ComputationStep::SkipAfterFailedValidation => Some(
            "Computation was skipped because delegated validation did not pass.".to_owned(),
        ),
        ComputationStep::SkipWithoutSpecification => {
            let mut note = "Specification repository could not be loaded from ".to_owned();
            note.append(DEFAULT_SPEC_SOURCE_DIR);
            note.append(".");
            Some(note)
        },
        ComputationStep::Compute => None,
    }
}

} // verus!
