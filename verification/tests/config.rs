use gpt_copy_v9::config::{parse_port, port_decimal, Config};

#[test]
fn debug_output_redacts_openrouter_api_key() {
    let config = Config {
        database_url: "sqlite::memory:".to_string(),
        openrouter_api_key: "sk-secret-test-key".to_string(),
        openrouter_model: "test-model".to_string(),
        host: "127.0.0.1".to_string(),
        port: 3001,
        frontend_origin: "http://localhost:3000".to_string(),
        api_auth_token: Some("secret-api-token".to_string()),
    };

    let debug = config.debug_string();

    assert!(debug.contains("[REDACTED]"));
    assert!(!debug.contains("sk-secret-test-key"));
    assert!(!debug.contains("secret-api-token"));
}

#[test]
fn debug_output_lists_the_other_fields() {
    let config = Config {
        database_url: "sqlite::memory:".to_string(),
        openrouter_api_key: "k".to_string(),
        openrouter_model: "test-model".to_string(),
        host: "127.0.0.1".to_string(),
        port: 3001,
        frontend_origin: "http://localhost:3000".to_string(),
        api_auth_token: None,
    };
    assert_eq!(
        config.debug_string(),
        "Config { database_url: \"sqlite::memory:\", openrouter_api_key: \"[REDACTED]\", openrouter_model: \"test-model\", host: \"127.0.0.1\", port: 3001, frontend_origin: \"http://localhost:3000\", api_auth_token: None }"
    );
}

#[test]
fn debug_output_does_not_depend_on_secrets() {
    let mut a = Config::for_test();
    a.api_auth_token = Some("one".to_string());
    let mut b = Config::for_test();
    b.openrouter_api_key = "other-key".to_string();
    b.api_auth_token = Some("two".to_string());
    assert_eq!(a.debug_string(), b.debug_string());
}

#[test]
fn for_test_config_values() {
    let c = Config::for_test();
    assert_eq!(c.database_url, "sqlite::memory:");
    assert_eq!(c.openrouter_api_key, "test-key");
    assert_eq!(c.openrouter_model, "nvidia/nemotron-3-super-120b-a12b:free");
    assert_eq!(c.host, "127.0.0.1");
    assert_eq!(c.port, 3001);
    assert_eq!(c.api_auth_token, None);
}

#[test]
fn env_values_fall_back_to_defaults() {
    let c = Config::from_env_values(None, None, None, None, None, None, None);
    assert_eq!(c.openrouter_api_key, "");
    assert_eq!(c.openrouter_model, "nvidia/nemotron-3-super-120b-a12b:free");
    assert_eq!(c.database_url, "sqlite:./gpt-copy-v9.db");
    assert_eq!(c.host, "0.0.0.0");
    assert_eq!(c.port, 3001);
    assert_eq!(c.frontend_origin, "http://localhost:3000");
    assert_eq!(c.api_auth_token, None);
}

#[test]
fn env_values_are_taken_when_set() {
    let c = Config::from_env_values(
        Some("key".to_string()),
        Some("m".to_string()),
        Some("sqlite:x.db".to_string()),
        Some("localhost".to_string()),
        Some("8080".to_string()),
        Some("http://example.test".to_string()),
        Some("tok".to_string()),
    );
    assert_eq!(c.openrouter_api_key, "key");
    assert_eq!(c.openrouter_model, "m");
    assert_eq!(c.database_url, "sqlite:x.db");
    assert_eq!(c.host, "localhost");
    assert_eq!(c.port, 8080);
    assert_eq!(c.frontend_origin, "http://example.test");
    assert_eq!(c.api_auth_token, Some("tok".to_string()));
}

#[test]
fn bad_port_and_empty_token_fall_back() {
    let c = Config::from_env_values(None, None, None, None, Some("http".to_string()), None, Some(String::new()));
    assert_eq!(c.port, 3001);
    assert_eq!(c.api_auth_token, None);
    let c = Config::from_env_values(None, None, None, None, Some("70000".to_string()), None, None);
    assert_eq!(c.port, 3001);
}

#[test]
fn port_parsing_follows_std() {
    for text in ["0", "1", "3001", "+80", "065535", "65535", "65536", "", "+", "-1", " 80", "80 ", "8a", "99999999999"] {
        assert_eq!(parse_port(text), text.parse::<u16>().ok(), "{text:?}");
    }
}

#[test]
fn port_decimal_round_trips() {
    for n in [0u16, 7, 10, 99, 3001, 65535] {
        let s = port_decimal(n);
        assert_eq!(s, n.to_string());
        assert_eq!(parse_port(&s), Some(n));
    }
}
