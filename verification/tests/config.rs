use leg::config::{
    Credential, LegConfig, Settings, DEFAULT_BASE_URL, DEFAULT_BASH_TIMEOUT_SECS,
    DEFAULT_MAX_RETRIES, DEFAULT_MAX_TOKENS, DEFAULT_MODEL, DEFAULT_RETRY_BASE_DELAY_MS, DEFAULT_TIMEOUT_SECS,
};

fn settings() -> Settings {
    Settings {
        api_key: Some("key".to_string()),
        auth_token: None,
        oauth_token: None,
        base_url: None,
        model: Some("m".to_string()),
        timeout_secs: None,
        max_tokens: None,
        max_tool_rounds: None,
        system_prompt: None,
        bash_timeout_secs: None,
        pre_tool_hook: None,
        max_retries: None,
        retry_base_delay_ms: None,
    }
}

fn text(value: &str) -> Option<String> {
    Some(value.to_string())
}

#[test]
fn defaults_fill_what_is_not_set() {
    let config = LegConfig::from_settings(&settings()).expect("config loads");
    assert_eq!(config.credential, Credential::ApiKey("key".to_string()));
    assert_eq!(config.base_url, DEFAULT_BASE_URL);
    assert_eq!(config.timeout_secs, DEFAULT_TIMEOUT_SECS);
    assert_eq!(config.max_tokens, DEFAULT_MAX_TOKENS);
    assert_eq!(config.max_tool_rounds, Some(10));
    assert_eq!(config.bash_timeout_secs, DEFAULT_BASH_TIMEOUT_SECS);
    assert_eq!(config.max_retries, DEFAULT_MAX_RETRIES);
    assert_eq!(config.retry_base_delay_ms, DEFAULT_RETRY_BASE_DELAY_MS);
    assert_eq!(config.system_prompt, None);
    assert_eq!(config.pre_tool_hook, None);
}

#[test]
fn set_values_take_the_place_of_the_defaults() {
    let config = LegConfig::from_settings(&Settings {
        base_url: text("https://proxy.example"),
        timeout_secs: text(" 5 "),
        max_tokens: text("16"),
        max_tool_rounds: text("10"),
        system_prompt: text("be terse"),
        bash_timeout_secs: text("+30"),
        pre_tool_hook: text("/bin/hook"),
        max_retries: text("0"),
        retry_base_delay_ms: text("250"),
        ..settings()
    })
    .expect("config loads");
    assert_eq!(config.base_url, "https://proxy.example");
    assert_eq!(config.timeout_secs, 5);
    assert_eq!(config.max_tokens, 16);
    assert_eq!(config.max_tool_rounds, Some(10));
    assert_eq!(config.system_prompt.as_deref(), Some("be terse"));
    assert_eq!(config.bash_timeout_secs, 30);
    assert_eq!(config.pre_tool_hook.as_deref(), Some("/bin/hook"));
    assert_eq!(config.max_retries, 0);
    assert_eq!(config.retry_base_delay_ms, 250);
}

#[test]
fn an_api_key_comes_before_the_bearer_tokens() {
    let tokens = Settings {
        api_key: text("  "),
        auth_token: text("first"),
        oauth_token: text("second"),
        ..settings()
    };
    let config = LegConfig::from_settings(&tokens).unwrap();
    assert_eq!(config.credential, Credential::OAuth("first".to_string()));
    let config = LegConfig::from_settings(&Settings {
        auth_token: None,
        ..tokens
    })
    .unwrap();
    assert_eq!(config.credential, Credential::OAuth("second".to_string()));
}

#[test]
fn what_is_missing_or_no_number_is_a_config_error() {
    let err = LegConfig::from_settings(&Settings {
        api_key: None,
        ..settings()
    })
    .unwrap_err();
    assert_eq!(err.kind(), "config");
    assert!(err.to_string().contains("no credential"));
    let err = LegConfig::from_settings(&Settings {
        bash_timeout_secs: text("0"),
        ..settings()
    })
    .unwrap_err();
    assert_eq!(
        err.to_string(),
        "configuration error: LEG_BASH_TIMEOUT_SECS must be a positive integer, got \"0\""
    );
    let err = LegConfig::from_settings(&Settings {
        max_retries: text("-1"),
        ..settings()
    })
    .unwrap_err();
    assert!(err
        .to_string()
        .contains("LEG_MAX_RETRIES must be a non-negative integer, got \"-1\""));
    let err = LegConfig::from_settings(&Settings {
        max_tokens: text("4294967296"),
        ..settings()
    })
    .unwrap_err();
    assert!(err.to_string().contains("LEG_MAX_TOKENS"));
}

#[test]
fn a_credential_alone_is_enough() {
    let config = LegConfig::from_settings(&Settings {
        model: None,
        ..settings()
    })
    .expect("config loads");
    assert_eq!(config.credential, Credential::ApiKey("key".to_string()));
    assert_eq!(config.model, DEFAULT_MODEL);
    assert_eq!(config.base_url, DEFAULT_BASE_URL);
    assert_eq!(config.max_tool_rounds, Some(10));
    let config = LegConfig::from_settings(&Settings {
        model: text(" "),
        ..settings()
    })
    .expect("config loads");
    assert_eq!(config.model, DEFAULT_MODEL);
}
