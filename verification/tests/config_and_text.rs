use re_indicators_calculation_service::config::{RuntimeConfig, RuntimeEnv};
use re_indicators_calculation_service::text::{
    float_literal, is_blank, parse_u16, parse_u64, replace_all, str_eq, strip_between, trim,
    without_trailing_slashes,
};

fn env(
    hex: Option<&str>,
    template: Option<&str>,
    timeout: Option<&str>,
    bind: Option<&str>,
    port: Option<&str>,
) -> RuntimeEnv {
    RuntimeEnv {
        hex_core_base_url: hex.map(|s| s.to_string()),
        artifact_base_url_template: template.map(|s| s.to_string()),
        http_timeout_secs: timeout.map(|s| s.to_string()),
        bind_address: bind.map(|s| s.to_string()),
        port: port.map(|s| s.to_string()),
    }
}

#[test]
fn config_defaults() {
    let config = RuntimeConfig::from_env(&env(None, None, None, None, None));
    assert_eq!(config.hex_core_base_url, "http://127.0.0.1:8080");
    assert_eq!(
        config.artifact_base_url_template,
        "https://codeberg.org/CE-RISE-models/re-indicators-specification/raw/tag/pages-v{version}/generated/"
    );
    assert_eq!(config.http_timeout_secs, 15);
    assert_eq!(config.bind_address, "0.0.0.0");
    assert_eq!(config.port, 8081);
}

#[test]
fn config_reads_values() {
    let config = RuntimeConfig::from_env(&env(
        Some(" http://hex:8080 "),
        Some("t/{version}"),
        Some(" 30\n"),
        Some("127.0.0.1"),
        Some("+9000"),
    ));
    assert_eq!(config.hex_core_base_url, " http://hex:8080 ");
    assert_eq!(config.artifact_base_url_template, "t/{version}");
    assert_eq!(config.http_timeout_secs, 30);
    assert_eq!(config.bind_address, "127.0.0.1");
    assert_eq!(config.port, 9000);
}

#[test]
fn config_ignores_blank_and_invalid() {
    let config = RuntimeConfig::from_env(&env(
        Some("   "),
        Some(""),
        Some("ten"),
        Some("\t\u{3000}"),
        Some("70000"),
    ));
    assert_eq!(config.hex_core_base_url, "http://127.0.0.1:8080");
    assert!(config.artifact_base_url_template.contains("{version}"));
    assert_eq!(config.http_timeout_secs, 15);
    assert_eq!(config.bind_address, "0.0.0.0");
    assert_eq!(config.port, 8081);
    let config = RuntimeConfig::from_env(&env(None, None, Some("-1"), None, Some("")));
    assert_eq!(config.http_timeout_secs, 15);
    assert_eq!(config.port, 8081);
}

#[test]
fn unsigned_parsing_matches_std() {
    let cases = [
        "0", "42", "+42", "007", "18446744073709551615", "18446744073709551616", "", "+", "-1",
        "-0", "1 ", " 1", "1_000", "99999999999999999999999", "+-1", "٣",
    ];
    for case in cases {
        assert_eq!(parse_u64(case), case.parse::<u64>().ok(), "u64 {case:?}");
        assert_eq!(parse_u16(case), case.parse::<u16>().ok(), "u16 {case:?}");
    }
    assert_eq!(parse_u16("65535"), Some(65535));
    assert_eq!(parse_u16("65536"), None);
}

#[test]
fn float_literals_match_std() {
    let cases = [
        "1", "1.", ".5", "1.5", ".", "", "+", "-", "1e5", "1E+5", "1e-5", "1e", "e5", ".e5", "1.e5",
        "inf", "-Infinity", "+INF", "NaN", "nan", "infinit", "infinityy", " 1", "1 ", "0x10",
        "1,5", "--1", "+.5e-3", "5E", "1e+", "١",
    ];
    for case in cases {
        assert_eq!(float_literal(case), case.parse::<f64>().is_ok(), "float {case:?}");
    }
}

#[test]
fn trimming_matches_std() {
    let cases = ["  a b  ", "\u{3000}x\u{85}", "\t\n", "", "x", "\u{200B}x", " \u{2028}y\u{A0}"];
    for case in cases {
        assert_eq!(trim(case), case.trim(), "trim {case:?}");
        assert_eq!(is_blank(case), case.trim().is_empty());
    }
}

#[test]
fn string_helpers() {
    assert_eq!(replace_all("aXbXc", "X", "--"), "a--b--c");
    assert_eq!(replace_all("aaa", "aa", "b"), "ba");
    assert_eq!(replace_all("ä{v}ö", "{v}", "é"), "äéö");
    assert_eq!(without_trailing_slashes("a//"), "a");
    assert!(str_eq("abc", "abc"));
    assert!(!str_eq("abc", "abd"));
    assert!(!str_eq("ab", "abc"));
    assert_eq!(strip_between("string(x)", "string(", ')'), Some("x".to_string()));
    assert_eq!(strip_between("string()", "string(", ')'), Some("".to_string()));
    assert_eq!(strip_between("string(", "string(", ')'), None);
    assert_eq!(strip_between("string(x", "string(", ')'), None);
    assert_eq!(strip_between("strin(x)", "string(", ')'), None);
}
