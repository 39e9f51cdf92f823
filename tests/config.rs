use email_checker::config::{
    load_config_from, parse_usize, password_status, validate, Config, ConfigError, EnvOverrides,
    DEFAULT_CHECK_INTERVAL, DEFAULT_OPENCLAW_PORT,
};

fn no_overrides() -> EnvOverrides {
    EnvOverrides {
        imap_host: None,
        imap_port: None,
        username: None,
        password: None,
        gateway: None,
        gateway_port: None,
        check_interval: None,
    }
}

#[test]
fn test_config_defaults() {
    let config = Config::default();
    assert_eq!(config.mailcow_imap_port, 993);
    assert_eq!(config.check_interval, 300);
    assert_eq!(config.openclaw_port, DEFAULT_OPENCLAW_PORT);
}

#[test]
fn test_config_loading() {
    let config = load_config_from(no_overrides());
    assert_eq!(config.mailcow_imap_host, "localhost");
    assert_eq!(config.openclaw_gateway, "localhost");
    assert_eq!(config.mailcow_imap_port, 993);
    assert_eq!(config.check_interval, DEFAULT_CHECK_INTERVAL);
    assert_eq!(config.preview_len, 500);
}

#[test]
fn overrides_replace_defaults() {
    let mut env = no_overrides();
    env.imap_host = Some("mail.example.org".to_string());
    env.imap_port = Some("143".to_string());
    env.username = Some("alice".to_string());
    env.password = Some("SECRET-REDACTED".to_string());
    env.gateway = Some("gw".to_string());
    env.gateway_port = Some("+8080".to_string());
    env.check_interval = Some("60".to_string());
    let c = load_config_from(env);
    assert_eq!(c.mailcow_imap_host, "mail.example.org");
    assert_eq!(c.mailcow_imap_port, 143);
    assert_eq!(c.mailcow_username, "alice");
    assert_eq!(c.mailcow_password, "SECRET-REDACTED");
    assert_eq!(c.openclaw_gateway, "gw");
    assert_eq!(c.openclaw_port, 8080);
    assert_eq!(c.check_interval, 60);
}

#[test]
fn unreadable_numbers_fall_back() {
    let mut env = no_overrides();
    env.imap_port = Some("abc".to_string());
    env.gateway_port = Some("".to_string());
    env.check_interval = Some("0".to_string());
    let c = load_config_from(env);
    assert_eq!(c.mailcow_imap_port, 993);
    assert_eq!(c.openclaw_port, 18789);
    assert_eq!(c.check_interval, 300);
}

#[test]
fn parse_usize_matches_std() {
    for s in ["0", "7", "+42", "993", "18446744073709551615", "18446744073709551616", "", "+", "-1", "1a", " 1", "००"] {
        assert_eq!(parse_usize(s), s.parse::<usize>().ok(), "input {:?}", s);
    }
    assert_eq!(parse_usize("300"), Some(300));
    assert_eq!(parse_usize("x"), None);
}

#[test]
fn password_shown_only_as_status() {
    let mut c = Config::default();
    assert_eq!(password_status(&c), "[NOT SET]");
    assert_eq!(validate(&c), Err(ConfigError::MissingPassword));
    c.mailcow_password = "pw".to_string();
    assert_eq!(password_status(&c), "[SET]");
    assert_eq!(validate(&c), Ok(()));
}
