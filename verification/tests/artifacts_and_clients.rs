use re_indicators_calculation_service::artifacts::ArtifactSet;
use re_indicators_calculation_service::calculation_artifact_client::{
    read_calculation_response, CalculationArtifactError,
};
use re_indicators_calculation_service::fetcher::{check_fetch_status, ArtifactFetchError};
use re_indicators_calculation_service::hex_core_api_client::{
    normalize_base_url, HexCoreApiClient, HexCoreError,
};
use re_indicators_calculation_service::ARTIFACT_BASE_URL_TEMPLATE;

#[test]
fn artifact_urls_follow_base_url() {
    let set = ArtifactSet::from_base_url("1.2.3".to_string(), "https://example.org/x/".to_string());
    assert_eq!(set.model_version, "1.2.3");
    assert_eq!(set.base_url, "https://example.org/x/");
    assert_eq!(set.calculation_url, "https://example.org/x/calculation.json");
    assert_eq!(set.shacl_url, "https://example.org/x/shacl.ttl");
    assert_eq!(set.schema_url, "https://example.org/x/schema.json");
    assert_eq!(set.owl_url, "https://example.org/x/owl.ttl");
}

#[test]
fn template_replaces_every_placeholder() {
    let set = ArtifactSet::for_requested_version_with_template(
        Some("0.0.4"),
        "https://h/{version}/a/{version}/",
    );
    assert_eq!(set.model_version, "0.0.4");
    assert_eq!(set.base_url, "https://h/0.0.4/a/0.0.4/");
    assert_eq!(set.owl_url, "https://h/0.0.4/a/0.0.4/owl.ttl");
}

#[test]
fn template_without_placeholder_is_kept() {
    let set = ArtifactSet::for_requested_version_with_template(Some("9"), "https://fixed/{ver}/");
    assert_eq!(set.base_url, "https://fixed/{ver}/");
}

#[test]
fn missing_version_uses_default() {
    let set = ArtifactSet::for_requested_version_with_template(None, "v={version}");
    assert_eq!(set.model_version, "0.0.4");
    assert_eq!(set.base_url, "v=0.0.4");
    let fixed = ArtifactSet::for_requested_version(None);
    assert_eq!(
        fixed.calculation_url,
        "https://codeberg.org/CE-RISE-models/re-indicators-specification/src/tag/pages-v0.0.4/generated/calculation.json"
    );
    assert!(ARTIFACT_BASE_URL_TEMPLATE.contains("{version}"));
}

#[test]
fn replacement_does_not_overlap() {
    let set = ArtifactSet::for_requested_version_with_template(Some("x"), "{version}version}");
    assert_eq!(set.base_url, "xversion}");
    let set = ArtifactSet::for_requested_version_with_template(Some("{version}"), "{version}{version}");
    assert_eq!(set.base_url, "{version}{version}");
}

#[test]
fn base_url_loses_trailing_slashes() {
    assert_eq!(normalize_base_url("http://a:1///".to_string()), "http://a:1");
    assert_eq!(normalize_base_url("http://a:1".to_string()), "http://a:1");
    assert_eq!(normalize_base_url("///".to_string()), "");
    assert_eq!(normalize_base_url("".to_string()), "");
    let once = normalize_base_url("http://a:1//".to_string());
    assert_eq!(normalize_base_url(once.clone()), once);
    let with_slash = HexCoreApiClient::new("http://h/".to_string());
    let without = HexCoreApiClient::new("http://h".to_string());
    assert_eq!(with_slash.validation_url("1"), without.validation_url("1"));
    assert_eq!(
        with_slash.validation_url("1"),
        "http://h/models/re-indicators-specification/versions/1:validate"
    );
}

#[test]
fn validation_reply_statuses() {
    match HexCoreApiClient::read_validation_response("u".to_string(), 404, "nope".to_string()) {
        Err(HexCoreError::UnexpectedStatus { url, status, body }) => {
            assert_eq!(url, "u");
            assert_eq!(status, 404);
            assert_eq!(body, "nope");
        }
        _ => panic!("expected an unexpected status"),
    }
    for status in [199u16, 300, 500] {
        assert!(matches!(
            HexCoreApiClient::read_validation_response("u".to_string(), status, "{}".to_string()),
            Err(HexCoreError::UnexpectedStatus { .. })
        ));
    }
    let ok = HexCoreApiClient::read_validation_response(
        "u".to_string(),
        200,
        r#"{"passed": true}"#.to_string(),
    );
    let expected: serde_json::Value = serde_json::from_str(r#"{"passed": true}"#).unwrap();
    assert_eq!(ok.ok(), Some(expected));
    assert!(HexCoreApiClient::read_validation_response("u".to_string(), 299, "[]".to_string()).is_ok());
    match HexCoreApiClient::read_validation_response("u".to_string(), 200, "not json".to_string()) {
        Err(HexCoreError::InvalidJson { url, reason }) => {
            assert_eq!(url, "u");
            assert!(!reason.is_empty());
        }
        _ => panic!("expected invalid JSON"),
    }
}

#[test]
fn artifact_fetch_status() {
    assert!(check_fetch_status("u", 200).is_ok());
    assert!(check_fetch_status("u", 204).is_ok());
    match check_fetch_status("u", 404) {
        Err(ArtifactFetchError::UnexpectedStatus { url, status }) => {
            assert_eq!(url, "u");
            assert_eq!(status, 404);
        }
        _ => panic!("expected an unexpected status"),
    }
}

#[test]
fn calculation_reply_statuses() {
    assert!(matches!(
        read_calculation_response("u".to_string(), 502, "bad".to_string()),
        Err(CalculationArtifactError::UnexpectedStatus { status: 502, .. })
    ));
    assert!(matches!(
        read_calculation_response("u".to_string(), 200, "{".to_string()),
        Err(CalculationArtifactError::InvalidJson { .. })
    ));
    let value = read_calculation_response("u".to_string(), 200, r#"{"a": [1, 2]}"#.to_string()).ok();
    let expected: serde_json::Value = serde_json::from_str(r#"{"a": [1, 2]}"#).unwrap();
    assert_eq!(value, Some(expected));
}
