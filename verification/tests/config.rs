use auth_api::config::{
    parse_u16, read_env_value, resolve_api_url, resolve_port, AppConfig, ConfigError,
};

#[test]
fn ports_parse_as_u16_decimals() {
    assert_eq!(parse_u16("8080"), Some(8080));
    assert_eq!(parse_u16("0"), Some(0));
    assert_eq!(parse_u16("+443"), Some(443));
    assert_eq!(parse_u16("0080"), Some(80));
    assert_eq!(parse_u16("65535"), Some(65535));
}

#[test]
fn bad_ports_are_rejected() {
    assert_eq!(parse_u16("65536"), None);
    assert_eq!(parse_u16("999999999999999999999"), None);
    assert_eq!(parse_u16(""), None);
    assert_eq!(parse_u16("+"), None);
    assert_eq!(parse_u16("80a"), None);
    assert_eq!(parse_u16("-1"), None);
    assert_eq!(parse_u16(" 80"), None);
}

#[test]
fn port_precedence_is_port_then_auth_api_port_then_server_port() {
    assert_eq!(
        resolve_port(Some("1000".into()), Some("2000".into()), Some("3000".into())).unwrap(),
        1000
    );
    assert_eq!(resolve_port(None, Some("2000".into()), Some("3000".into())).unwrap(), 2000);
    assert_eq!(resolve_port(None, None, Some("3000".into())).unwrap(), 3000);
}

#[test]
fn port_defaults_to_8080_when_no_variable_is_set() {
    assert_eq!(resolve_port(None, None, None).unwrap(), 8080);
}

#[test]
fn an_unparseable_set_port_is_startup_fatal() {
    let err = resolve_port(Some("eighty".into()), None, None).unwrap_err();
    match &err {
        ConfigError::InvalidPort(raw) => assert_eq!(raw, "eighty"),
        other => panic!("unexpected error: {}", other.message()),
    }
    assert_eq!(err.message(), "Failed to parse port from 'eighty'");
}

#[test]
fn the_secret_must_be_present_and_not_blank() {
    assert_eq!(read_env_value("CLERK_SECRET_KEY", Some("sk_live_x".into())).unwrap(), "sk_live_x");
    let missing = read_env_value("CLERK_SECRET_KEY", None).unwrap_err();
    assert_eq!(missing.message(), "Missing required environment variable: CLERK_SECRET_KEY");
    let blank = read_env_value("CLERK_SECRET_KEY", Some("   \t ".into())).unwrap_err();
    assert!(matches!(blank, ConfigError::MissingVar(_)));
}

#[test]
fn a_secret_of_unicode_whitespace_is_blank_too() {
    let blank = read_env_value("CLERK_SECRET_KEY", Some("\u{a0}\u{2003} \u{3000}".into()))
        .unwrap_err();
    assert!(matches!(blank, ConfigError::MissingVar(_)));
    assert!(AppConfig::from_values(None, None, None, Some("\u{a0}".into()), None).is_err());
}

#[test]
fn the_base_url_defaults_to_the_provider_root() {
    assert_eq!(resolve_api_url(None).unwrap(), "https://api.clerk.com/");
}

#[test]
fn a_set_base_url_overrides_the_default() {
    assert_eq!(
        resolve_api_url(Some("https://clerk.example.test/base".into())).unwrap(),
        "https://clerk.example.test/base"
    );
}

#[test]
fn an_invalid_base_url_is_startup_fatal() {
    let err = resolve_api_url(Some("no scheme".into())).unwrap_err();
    assert_eq!(err.message(), "Failed to parse URL from 'no scheme'");
}

#[test]
fn from_values_assembles_a_full_configuration() {
    let config = AppConfig::from_values(
        Some("9090".into()),
        None,
        None,
        Some("sk_live_y".into()),
        None,
    )
    .unwrap();
    assert_eq!(config.port, 9090);
    assert_eq!(config.clerk_secret, "sk_live_y");
    assert_eq!(config.clerk_api_url, "https://api.clerk.com/");
}

#[test]
fn from_values_reports_the_first_failure_in_order() {
    let err = AppConfig::from_values(Some("bad".into()), None, None, None, None).unwrap_err();
    assert!(matches!(err, ConfigError::InvalidPort(_)));
    let err = AppConfig::from_values(None, None, None, None, None).unwrap_err();
    assert!(matches!(err, ConfigError::MissingVar(_)));
    let err =
        AppConfig::from_values(None, None, None, Some("sk".into()), Some("bad url".into()))
            .unwrap_err();
    assert!(matches!(err, ConfigError::InvalidUrl(_)));
}
