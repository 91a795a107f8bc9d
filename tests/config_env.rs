use mail_laser::config::{Config, ConfigError, EnvVars};

fn s(v: &str) -> Option<String> {
    Some(v.to_string())
}

fn required(targets: &str, url: &str) -> EnvVars {
    EnvVars { target_emails: s(targets), webhook_url: s(url), ..EnvVars::default() }
}

#[test]
fn test_config_from_env_mixed() {
    let mut vars = required("test@example.com", "http://localhost:8000/webhook");
    vars.port = s("3000");
    let config_result = Config::from_env(&vars);
    assert!(config_result.is_ok(), "Config loading failed when it should succeed: {:?}", config_result.err());
    let config = config_result.unwrap();
    assert_eq!(config.target_emails, vec!["test@example.com".to_string()]);
    assert_eq!(config.webhook_url, "http://localhost:8000/webhook");
    assert_eq!(config.smtp_bind_address, "0.0.0.0", "Default SMTP bind address mismatch");
    assert_eq!(config.smtp_port, 3000, "SMTP port mismatch");
    assert_eq!(config.health_check_bind_address, "0.0.0.0", "Default health bind address mismatch");
    assert_eq!(config.health_check_port, 8080, "Default health port mismatch");
}

#[test]
fn test_config_from_env_missing_required() {
    let vars = EnvVars::default();
    let config_result = Config::from_env(&vars);
    assert!(config_result.is_err(), "Expected error for missing TARGET_EMAILS, got Ok");
    assert!(config_result.unwrap_err().message().contains("MAIL_LASER_TARGET_EMAILS"));
    let vars = EnvVars { target_emails: s("test@example.com"), ..EnvVars::default() };
    let config_result_2 = Config::from_env(&vars);
    assert!(config_result_2.is_err(), "Expected error for missing WEBHOOK_URL, got Ok");
    assert!(config_result_2.unwrap_err().message().contains("MAIL_LASER_WEBHOOK_URL"));
}

#[test]
fn test_config_from_env_invalid_port() {
    let mut vars = required("test@example.com", "http://localhost:8000/webhook");
    vars.port = s("not-a-port");
    match Config::from_env(&vars) {
        Err(e) => {
            let err_msg = e.message();
            assert!(err_msg.contains("MAIL_LASER_PORT"), "Error message should mention MAIL_LASER_PORT");
            assert!(err_msg.contains("not-a-port"), "Error message should contain the invalid value");
        }
        Ok(_) => panic!("Expected an error for invalid MAIL_LASER_PORT, but got Ok"),
    }
    vars.port = s("3000");
    vars.health_port = s("invalid");
    match Config::from_env(&vars) {
        Err(e) => {
            let err_msg_2 = e.message();
            assert!(err_msg_2.contains("MAIL_LASER_HEALTH_PORT"));
            assert!(err_msg_2.contains("invalid"));
        }
        Ok(_) => panic!("Expected an error for invalid MAIL_LASER_HEALTH_PORT, but got Ok"),
    }
}

#[test]
fn test_config_from_env_all_set() {
    let vars = EnvVars {
        target_emails: s("test1@example.com, test2@example.com"),
        webhook_url: s("https://webhook.example.com/endpoint"),
        bind_address: s("127.0.0.1"),
        port: s("3000"),
        health_bind_address: s("192.168.1.1"),
        health_port: s("9090"),
        ..EnvVars::default()
    };
    let config = Config::from_env(&vars).expect("Config loading failed when all vars were set");
    assert_eq!(config.target_emails, vec!["test1@example.com".to_string(), "test2@example.com".to_string()]);
    assert_eq!(config.webhook_url, "https://webhook.example.com/endpoint");
    assert_eq!(config.smtp_bind_address, "127.0.0.1");
    assert_eq!(config.smtp_port, 3000);
    assert_eq!(config.health_check_bind_address, "192.168.1.1");
    assert_eq!(config.health_check_port, 9090);
}

#[test]
fn test_config_default_values() {
    let vars = required("required@example.com", "https://required.example.com/hook");
    let config = Config::from_env(&vars).expect("Config loading failed with only required vars set");
    assert_eq!(config.target_emails, vec!["required@example.com".to_string()]);
    assert_eq!(config.webhook_url, "https://required.example.com/hook");
    assert_eq!(config.smtp_bind_address, "0.0.0.0");
    assert_eq!(config.smtp_port, 2525);
    assert_eq!(config.health_check_bind_address, "0.0.0.0");
    assert_eq!(config.health_check_port, 8080);
    assert!(config.header_prefixes.is_empty());
    assert_eq!(config.webhook_timeout_secs, 30);
    assert_eq!(config.webhook_max_retries, 3);
    assert_eq!(config.circuit_breaker_threshold, 5);
    assert_eq!(config.circuit_breaker_reset_secs, 60);
}

#[test]
fn test_config_missing_required_vars() {
    let result_missing_target = Config::from_env(&EnvVars::default());
    assert!(result_missing_target.is_err());
    assert!(result_missing_target.unwrap_err().message().contains("MAIL_LASER_TARGET_EMAILS"));
    let vars = EnvVars { target_emails: s("test@example.com"), ..EnvVars::default() };
    let result_missing_webhook = Config::from_env(&vars);
    assert!(result_missing_webhook.is_err());
    assert!(result_missing_webhook.unwrap_err().message().contains("MAIL_LASER_WEBHOOK_URL"));
}

#[test]
fn test_config_invalid_port_values() {
    let mut vars = required("test@example.com", "https://webhook.example.com");
    vars.port = s("not-a-number");
    let result_invalid_smtp = Config::from_env(&vars);
    assert!(result_invalid_smtp.is_err());
    assert!(result_invalid_smtp.unwrap_err().message().contains("MAIL_LASER_PORT"));
    vars.port = s("2525");
    vars.health_port = s("also-invalid");
    let result_invalid_health = Config::from_env(&vars);
    assert!(result_invalid_health.is_err());
    assert!(result_invalid_health.unwrap_err().message().contains("MAIL_LASER_HEALTH_PORT"));
}

#[test]
fn test_config_target_emails_parsing() {
    let mut vars = required("single@example.com", "https://webhook.example.com");
    let config1 = Config::from_env(&vars).expect("Config loading failed for single email");
    assert_eq!(config1.target_emails, vec!["single@example.com".to_string()]);
    vars.target_emails = s("  spaced1@example.com , spaced2@example.com  ,third@here.net");
    let config2 = Config::from_env(&vars).expect("Config loading failed for emails with whitespace");
    assert_eq!(
        config2.target_emails,
        vec!["spaced1@example.com".to_string(), "spaced2@example.com".to_string(), "third@here.net".to_string()]
    );
    vars.target_emails = s("");
    let result_empty = Config::from_env(&vars);
    assert!(result_empty.is_err());
    assert!(result_empty.unwrap_err().message().contains("MAIL_LASER_TARGET_EMAILS cannot be empty"));
    vars.target_emails = s(" ,, , ");
    let result_whitespace = Config::from_env(&vars);
    assert!(result_whitespace.is_err());
    assert!(result_whitespace
        .unwrap_err()
        .message()
        .contains("MAIL_LASER_TARGET_EMAILS must contain at least one valid email"));
}

#[test]
fn port_bounds() {
    let mut vars = required("a@b.c", "https://w");
    vars.port = s("65535");
    assert_eq!(Config::from_env(&vars).unwrap().smtp_port, 65535);
    vars.port = s("65536");
    assert_eq!(
        Config::from_env(&vars).unwrap_err(),
        ConfigError::InvalidPort("MAIL_LASER_PORT".to_string(), "65536".to_string())
    );
    vars.port = s("-1");
    assert!(Config::from_env(&vars).is_err());
    vars.port = s("");
    assert!(Config::from_env(&vars).is_err());
    vars.port = s("+25");
    assert_eq!(Config::from_env(&vars).unwrap().smtp_port, 25);
}

#[test]
fn resilience_settings_and_prefixes() {
    let mut vars = required("a@b.c", "https://w");
    vars.header_prefix = s("X-Custom, ,List-");
    vars.webhook_timeout = s("5");
    vars.webhook_max_retries = s("0");
    vars.circuit_breaker_threshold = s("3");
    vars.circuit_breaker_reset = s("120");
    let c = Config::from_env(&vars).unwrap();
    assert_eq!(c.header_prefixes, vec!["X-Custom".to_string(), "List-".to_string()]);
    assert_eq!(c.webhook_timeout_secs, 5);
    assert_eq!(c.webhook_max_retries, 0);
    assert_eq!(c.circuit_breaker_threshold, 3);
    assert_eq!(c.circuit_breaker_reset_secs, 120);
    vars.webhook_max_retries = s("4294967296");
    assert_eq!(
        Config::from_env(&vars).unwrap_err().message(),
        "MAIL_LASER_WEBHOOK_MAX_RETRIES ('4294967296') must be a valid unsigned number"
    );
}

#[test]
fn error_messages() {
    assert_eq!(
        ConfigError::Missing("MAIL_LASER_WEBHOOK_URL".to_string()).message(),
        "MAIL_LASER_WEBHOOK_URL environment variable must be set"
    );
    assert_eq!(
        ConfigError::InvalidPort("MAIL_LASER_PORT".to_string(), "x".to_string()).message(),
        "MAIL_LASER_PORT ('x') must be a valid u16 port number"
    );
}
