use dex_mcp_server::config::config_from_values;
use dex_mcp_server::{Config, ConfigError};

#[test]
fn test_config_default() {
    let config = Config::default();
    assert_eq!(config.cache_ttl_minutes, 30);
    assert_eq!(config.request_timeout, 10);
    assert_eq!(config.max_match_results, 5);
    assert_eq!(config.match_confidence_threshold, 30);
}

#[test]
fn config_rejects_bad_url() {
    let r = config_from_values(
        "not-a-url".to_string(),
        "key".to_string(),
        30,
        10,
        5,
        30,
        "error".to_string(),
    );
    match r {
        Err(ConfigError::InvalidValue { var, .. }) => assert_eq!(var, "DEX_API_BASE_URL"),
        _ => panic!("expected an invalid URL to be rejected"),
    }
}

#[test]
fn config_rejects_blank_key() {
    let r = config_from_values(
        "https://example.com".to_string(),
        "   ".to_string(),
        30,
        10,
        5,
        30,
        "error".to_string(),
    );
    match r {
        Err(ConfigError::InvalidValue { var, .. }) => assert_eq!(var, "DEX_API_KEY"),
        _ => panic!("expected a blank key to be rejected"),
    }
}

#[test]
fn config_accepts_sound_values() {
    let r = config_from_values(
        "https://example.com".to_string(),
        "key".to_string(),
        30,
        10,
        5,
        30,
        "error".to_string(),
    );
    assert!(r.is_ok());
    let c = r.unwrap();
    assert_eq!(c.dex_api_url, "https://example.com");
}
