use re_indicators_calculation_service::artifacts::ArtifactSet;
use re_indicators_calculation_service::config::{RuntimeConfig, RuntimeEnv};
use re_indicators_calculation_service::hex_core_api_client::HexCoreApiClient;
use re_indicators_calculation_service::service::{
    computation_step, resolve_request, skipped_computation_note, summarize_delegation,
    ComputationStep, DelegationOutcome,
};
use re_indicators_calculation_service::service_types::{health, ValidationSummary};
use re_indicators_calculation_service::validator::payload_requires_rdf_mapping_note;
use re_indicators_calculation_service::{
    DEFAULT_TESTING_VERSION, MODEL_FAMILY, VALIDATION_BASIS,
};

fn unset_env() -> RuntimeEnv {
    RuntimeEnv {
        hex_core_base_url: None,
        artifact_base_url_template: None,
        http_timeout_secs: None,
        bind_address: None,
        port: None,
    }
}

#[test]
fn health_reports_fixed_model_family() {
    let config = RuntimeConfig::from_env(&unset_env());
    let report = health(&config);
    assert_eq!(report.status, "ok");
    assert_eq!(report.model_family, MODEL_FAMILY);
    assert_eq!(report.model_family, "re-indicators-specification");
    assert_eq!(report.validation_basis, VALIDATION_BASIS);
    assert_eq!(report.default_testing_version, DEFAULT_TESTING_VERSION);
    assert_eq!(report.default_testing_version, "0.0.4");
    assert_eq!(
        report.artifact_base_url_template,
        "https://codeberg.org/CE-RISE-models/re-indicators-specification/raw/tag/pages-v{version}/generated/"
    );
    assert_eq!(report.hex_core_base_url, "http://127.0.0.1:8080");
    assert_eq!(report.http_timeout_secs, 15);
    assert_eq!(report.bind_address, "0.0.0.0");
    assert_eq!(report.port, 8081);
    assert_eq!(
        report.calculation_artifact_url_template,
        "https://codeberg.org/CE-RISE-models/re-indicators-specification/raw/tag/pages-v{version}/generated/calculation.json"
    );
    assert_eq!(report.spec_source_dir, "/tmp/re-indicators-specification");
}

#[test]
fn health_reports_configured_settings() {
    let mut env = unset_env();
    env.http_timeout_secs = Some("30".to_string());
    env.port = Some("9000".to_string());
    env.hex_core_base_url = Some("http://hex:8080".to_string());
    let report = health(&RuntimeConfig::from_env(&env));
    assert_eq!(report.http_timeout_secs, 30);
    assert_eq!(report.port, 9000);
    assert_eq!(report.hex_core_base_url, "http://hex:8080");
}

#[test]
fn compute_accepts_version_and_payload() {
    let hex_core = HexCoreApiClient::default();
    let resolved = resolve_request(Some("0.0.3"), &hex_core);
    assert_eq!(resolved.artifacts.model_version, "0.0.3");
    let summary = summarize_delegation(resolved.validation_url.clone(), DelegationOutcome::Disabled);
    assert_eq!(summary.status, "validation_skipped");
    assert_eq!(
        computation_step(&summary, false),
        ComputationStep::SkipWithoutSpecification
    );
}

#[test]
fn compute_defaults_to_testing_version() {
    let hex_core = HexCoreApiClient::default();
    let resolved = resolve_request(None, &hex_core);
    let validation = summarize_delegation(resolved.validation_url.clone(), DelegationOutcome::Disabled);

    assert_eq!(resolved.artifacts.model_version, DEFAULT_TESTING_VERSION);
    assert_eq!(
        resolved.artifacts.base_url,
        format!(
            "https://codeberg.org/CE-RISE-models/re-indicators-specification/src/tag/pages-v{DEFAULT_TESTING_VERSION}/generated/"
        )
    );
    assert_eq!(validation.status, "validation_skipped".to_string());
    assert_eq!(validation.source, "hex-core-service".to_string());
    assert_eq!(
        resolved.artifacts.shacl_url,
        format!(
            "https://codeberg.org/CE-RISE-models/re-indicators-specification/src/tag/pages-v{DEFAULT_TESTING_VERSION}/generated/shacl.ttl"
        )
    );
    assert_eq!(
        validation.validation_url,
        format!(
            "http://127.0.0.1:8080/models/re-indicators-specification/versions/{DEFAULT_TESTING_VERSION}:validate"
        )
    );
}

#[test]
fn skipped_validation_summary_fields() {
    let summary = ValidationSummary::skipped("u".to_string());
    assert_eq!(summary.basis, "shacl");
    assert_eq!(summary.source, "hex-core-service");
    assert_eq!(summary.validation_url, "u");
    assert_eq!(summary.passed, None);
    assert!(summary.raw_report.is_none());
    assert_eq!(summary.finding_count, None);
    assert_eq!(summary.findings_present, None);
    assert_eq!(
        summary.details,
        vec!["Validation delegation to hex-core-service is disabled for this runtime.".to_string()]
    );
}

#[test]
fn validated_summary_reads_passed_flag() {
    let passed: serde_json::Value = serde_json::from_str(r#"{"passed": true, "results": []}"#).unwrap();
    let summary = ValidationSummary::validated_by_hex_core("u".to_string(), passed.clone());
    assert_eq!(summary.status, "validated_by_hex_core");
    assert_eq!(summary.passed, Some(true));
    assert_eq!(summary.finding_count, Some(0));
    assert_eq!(summary.findings_present, Some(false));
    assert_eq!(summary.raw_report, Some(passed));
    assert_eq!(
        summary.details,
        vec!["Payload validation was delegated to hex-core-service.".to_string()]
    );

    let failed: serde_json::Value =
        serde_json::from_str(r#"{"passed": false, "results": [{"a": 1}, {"b": 2}]}"#).unwrap();
    let summary = ValidationSummary::validated_by_hex_core("u".to_string(), failed);
    assert_eq!(summary.passed, Some(false));
    assert_eq!(summary.finding_count, Some(2));
    assert_eq!(summary.findings_present, Some(true));

    let no_flag: serde_json::Value =
        serde_json::from_str(r#"{"passed": "yes", "results": 3}"#).unwrap();
    let summary = ValidationSummary::validated_by_hex_core("u".to_string(), no_flag);
    assert_eq!(summary.passed, None);
    assert_eq!(summary.finding_count, None);
    assert_eq!(summary.findings_present, None);

    let not_object: serde_json::Value = serde_json::from_str("[true]").unwrap();
    assert_eq!(
        ValidationSummary::validated_by_hex_core("u".to_string(), not_object).passed,
        None
    );
}

#[test]
fn failed_delegation_summary_carries_reason() {
    let summary = ValidationSummary::hex_core_validation_failed("u".to_string(), "boom".to_string());
    assert_eq!(summary.status, "hex_core_validation_failed");
    assert_eq!(summary.passed, None);
    assert!(summary.raw_report.is_none());
    assert_eq!(summary.finding_count, None);
    assert_eq!(summary.findings_present, None);
    assert_eq!(
        summary.details,
        vec!["Delegated validation through hex-core-service failed: boom".to_string()]
    );
}

#[test]
fn failed_validation_skips_computation() {
    let report: serde_json::Value = serde_json::from_str(r#"{"passed": false}"#).unwrap();
    let summary = summarize_delegation("u".to_string(), DelegationOutcome::Reported(report));
    let step = computation_step(&summary, true);
    assert_eq!(step, ComputationStep::SkipAfterFailedValidation);
    assert_eq!(
        skipped_computation_note(step),
        Some("Computation was skipped because delegated validation did not pass.".to_string())
    );
    assert_eq!(
        computation_step(&summary, false),
        ComputationStep::SkipAfterFailedValidation
    );
}

#[test]
fn passed_or_unknown_validation_computes() {
    let report: serde_json::Value = serde_json::from_str(r#"{"passed": true}"#).unwrap();
    let summary = summarize_delegation("u".to_string(), DelegationOutcome::Reported(report));
    assert_eq!(computation_step(&summary, true), ComputationStep::Compute);
    assert_eq!(skipped_computation_note(ComputationStep::Compute), None);

    let failed = summarize_delegation("u".to_string(), DelegationOutcome::Failed("x".to_string()));
    assert_eq!(failed.status, "hex_core_validation_failed");
    assert_eq!(computation_step(&failed, true), ComputationStep::Compute);
}

#[test]
fn missing_specification_note_names_directory() {
    assert_eq!(
        skipped_computation_note(ComputationStep::SkipWithoutSpecification),
        Some("Specification repository could not be loaded from /tmp/re-indicators-specification.".to_string())
    );
}

#[test]
fn resolve_request_uses_requested_version() {
    let hex_core = HexCoreApiClient::new("http://hex-core:9000//".to_string());
    let resolved = resolve_request(Some("0.0.4"), &hex_core);
    assert_eq!(resolved.artifacts.model_version, "0.0.4");
    assert_eq!(
        resolved.validation_url,
        "http://hex-core:9000/models/re-indicators-specification/versions/0.0.4:validate"
    );
    let direct = ArtifactSet::for_requested_version(Some("0.0.4"));
    assert_eq!(direct.base_url, resolved.artifacts.base_url);
}

#[test]
fn rdf_mapping_note_names_payload_kind() {
    let object: serde_json::Value = serde_json::from_str(r#"{"a": 1}"#).unwrap();
    assert_eq!(
        payload_requires_rdf_mapping_note(&object),
        "SHACL execution needs an RDF data graph; the current request payload is a JSON object and no RDF mapping/serialization step is implemented yet."
    );
    let cases = [
        ("[1]", "JSON array"),
        ("\"s\"", "JSON string"),
        ("3.5", "JSON number"),
        ("true", "JSON boolean"),
        ("null", "null JSON value"),
    ];
    for (text, kind) in cases {
        let value: serde_json::Value = serde_json::from_str(text).unwrap();
        assert_eq!(
            payload_requires_rdf_mapping_note(&value),
            format!("SHACL execution needs an RDF data graph; the current request payload is a {kind} and no RDF mapping/serialization step is implemented yet.")
        );
    }
}
