use cfproxy::config::{parse_api_key, parse_port, parse_req_limit, Config, ConfigError};

#[test]
fn port_defaults_to_3000() {
    assert_eq!(parse_port(None), Ok(3000));
}

#[test]
fn port_is_read_in_decimal() {
    assert_eq!(parse_port(Some("8080")), Ok(8080));
    assert_eq!(parse_port(Some("+80")), Ok(80));
    assert_eq!(parse_port(Some("065535")), Ok(65535));
    assert_eq!(parse_port(Some("0")), Ok(0));
}

#[test]
fn bad_port_is_refused() {
    assert_eq!(parse_port(Some("65536")), Err(ConfigError::InvalidPort));
    assert_eq!(parse_port(Some("-1")), Err(ConfigError::InvalidPort));
    assert_eq!(parse_port(Some("")), Err(ConfigError::InvalidPort));
    assert_eq!(parse_port(Some("+")), Err(ConfigError::InvalidPort));
    assert_eq!(parse_port(Some("80a")), Err(ConfigError::InvalidPort));
    assert_eq!(parse_port(Some(" 80")), Err(ConfigError::InvalidPort));
}

#[test]
fn rate_defaults_to_six() {
    assert_eq!(parse_req_limit(None), Ok(6));
}

#[test]
fn rate_is_read_and_zero_refused() {
    assert_eq!(parse_req_limit(Some("100")), Ok(100));
    assert_eq!(parse_req_limit(Some("4294967295")), Ok(4294967295));
    assert_eq!(parse_req_limit(Some("0")), Err(ConfigError::ZeroReqLimit));
    assert_eq!(parse_req_limit(Some("4294967296")), Err(ConfigError::InvalidReqLimit));
    assert_eq!(parse_req_limit(Some("six")), Err(ConfigError::InvalidReqLimit));
}

#[test]
fn api_key_is_required_and_must_fit_a_header() {
    assert_eq!(parse_api_key(None), Err(ConfigError::MissingApiKey));
    assert_eq!(parse_api_key(Some("a\nb")), Err(ConfigError::InvalidApiKey));
    assert_eq!(parse_api_key(Some("a\u{7f}")), Err(ConfigError::InvalidApiKey));
    assert_eq!(parse_api_key(Some("tab\tok")), Ok("tab\tok".to_string()));
    assert_eq!(parse_api_key(Some("SECRET-REDACTED")), Ok("SECRET-REDACTED".to_string()));
}

#[test]
fn config_loads_in_order() {
    let c = Config::from_values(Some("9000"), None, Some("key")).unwrap();
    assert_eq!(c.port, 9000);
    assert_eq!(c.req_limit_per_sec, 6);
    assert_eq!(c.api_key, "key");
    assert!(matches!(Config::from_values(Some("x"), Some("0"), None), Err(ConfigError::InvalidPort)));
    assert!(matches!(Config::from_values(None, Some("0"), None), Err(ConfigError::ZeroReqLimit)));
    assert!(matches!(Config::from_values(None, None, None), Err(ConfigError::MissingApiKey)));
}
