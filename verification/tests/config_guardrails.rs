use dragon_li::config::{
    config_path, validate_config, ApiProfile, ApiProfilesConfig, ConfigError, ConfigManager, DiskConfig,
    Provider, ToolsConfig,
};
use dragon_li::guardrails::{GuardrailError, Guardrails};
use dragon_li::utils::{config_error_parts, error_code_from_text, next_log_id};

fn valid_config(base_url: &str) -> ApiProfilesConfig {
    ApiProfilesConfig {
        profiles: vec![ApiProfile {
            id: "p1".to_string(),
            name: "Primary".to_string(),
            provider: Provider::Openai,
            base_url: base_url.to_string(),
            api_key: "sk-test".to_string(),
            default_model: "gpt-4o-mini".to_string(),
            enabled: true,
            created_at: "2026-04-05T00:00:00+08:00".to_string(),
            updated_at: "2026-04-05T00:00:00+08:00".to_string(),
        }],
        tools: ToolsConfig { brave_search_api_key: None },
    }
}

#[test]
fn validates_schema() {
    let bad = valid_config("ftp://api.openai.com/v1");
    let err = validate_config(&bad).expect_err("ftp should be rejected");
    assert!(err.message().contains("CONFIG_SCHEMA_INVALID"));
}

#[test]
fn accepts_https_profile() {
    assert!(validate_config(&valid_config("https://api.openai.com/v1")).is_ok());
}

#[test]
fn rejects_duplicate_profile_ids() {
    let mut cfg = valid_config("https://api.openai.com/v1");
    let mut second = valid_config("https://api.anthropic.com").profiles.remove(0);
    second.provider = Provider::Anthropic;
    cfg.profiles.push(second);
    let err = validate_config(&cfg).expect_err("duplicate ids");
    assert!(matches!(err, ConfigError::SchemaInvalid(_)));
}

#[test]
fn writes_atomically_and_loads() {
    let path = config_path("/tmp/cfg");
    assert_eq!(path, "/tmp/cfg/config/api_profiles.json");
    let mut manager = ConfigManager::new(path.clone());
    let cfg = valid_config("https://api.openai.com/v1");

    manager.save_and_apply(cfg.clone(), Ok(7)).expect("save should work");
    let loaded = manager
        .load_or_reload(DiskConfig::Parsed(cfg, Ok(7)))
        .expect("load should work");
    assert_eq!(loaded.profiles.len(), 1);
}

#[test]
fn load_reports_missing_file() {
    let mut manager = ConfigManager::new("/nowhere/api_profiles.json".to_string());
    let err = manager.load_or_reload(DiskConfig::Missing).expect_err("missing file");
    assert!(matches!(err, ConfigError::NotFound(_)));
    assert!(manager.current().is_none());
    let err = manager
        .load_or_reload(DiskConfig::Malformed("expected value".to_string()))
        .expect_err("bad json");
    assert_eq!(err.message(), "CONFIG_INVALID_JSON: expected value");
    let err = manager
        .load_or_reload(DiskConfig::Unreadable("permission denied".to_string()))
        .expect_err("unreadable");
    assert_eq!(err.code(), "IO_ERROR");
}

#[test]
fn detects_external_change_with_confirmation() {
    let mut manager = ConfigManager::new(config_path("/tmp/cfg-reload"));
    manager
        .save_and_apply(valid_config("https://api.openai.com/v1"), Ok(1))
        .expect("initial save");

    let mut changed = valid_config("https://api.anthropic.com");
    changed.profiles[0].id = "p2".to_string();

    assert!(manager
        .check_external_change(DiskConfig::Parsed(changed.clone(), Ok(2)))
        .expect("check change"));
    let err = manager
        .apply_external_change(false, DiskConfig::Parsed(changed.clone(), Ok(2)))
        .expect_err("should require confirmation");
    assert!(err.message().contains("CONFIG_RELOAD_REJECTED"));

    let applied = manager
        .apply_external_change(true, DiskConfig::Parsed(changed, Ok(2)))
        .expect("confirm should apply");
    assert_eq!(applied.profiles[0].id, "p2");
}

#[test]
fn unchanged_file_is_no_external_change() {
    let mut manager = ConfigManager::new(config_path("/tmp/cfg-same"));
    let cfg = valid_config("https://api.openai.com/v1");
    manager.save_and_apply(cfg.clone(), Ok(9)).expect("save");
    assert!(!manager
        .check_external_change(DiskConfig::Parsed(cfg, Ok(9)))
        .expect("check"));
    assert!(!manager.check_external_change(DiskConfig::Missing).expect("missing file"));
}

#[test]
fn enforces_guardrails() {
    let root = "/tmp/guardrails/.dragon-li".to_string();
    let guardrails = Guardrails::new(root.clone(), None);

    let target = guardrails.lexical_target("data/dragon_li.db").expect("lexical target");
    assert_eq!(target, "/tmp/guardrails/.dragon-li/data/dragon_li.db");
    let inside = guardrails
        .validate_file_path("data/dragon_li.db", Ok(target))
        .expect("relative path under root should pass");
    assert!(inside.contains(".dragon-li"));

    let outside = guardrails.validate_file_path("/etc/passwd", Ok("/etc/passwd".to_string()));
    assert!(outside.is_err());

    let blocked = guardrails.validate_capability("shell_exec");
    assert!(blocked.is_err());
    assert!(guardrails.validate_capability("web_search").is_ok());

    let cfg = valid_config("https://api.openai.com/v1");
    let ok = guardrails
        .validate_network_url("https://api.openai.com/v1/chat/completions", &cfg)
        .expect("whitelisted domain should pass");
    assert_eq!(ok, "api.openai.com");

    let denied = guardrails.validate_network_url("https://example.com", &cfg);
    assert!(denied.is_err());
}

#[test]
fn blocks_symlink_escape() {
    let runtime = "/tmp/guardrails-symlink/.dragon-li".to_string();
    let guardrails = Guardrails::new(runtime.clone(), None);
    let input = format!("{runtime}/escape/secret.txt");
    // The file system resolves the link `escape` to the directory outside the root.
    let escaped = guardrails.validate_file_path(&input, Ok("/tmp/guardrails-symlink/outside/secret.txt".to_string()));
    assert!(escaped.is_err(), "symlink escape should be blocked");
}

#[test]
fn guardrail_errors_carry_their_codes() {
    let guardrails = Guardrails::new("/srv/root".to_string(), None);
    let empty = guardrails.lexical_target("   ").expect_err("blank path");
    assert!(matches!(empty, GuardrailError::InvalidRequest(_)));
    let traversal = guardrails.lexical_target("../../../etc/passwd").expect_err("traversal");
    assert!(matches!(traversal, GuardrailError::PathDenied(_)));
    let blocked = guardrails.validate_capability("mcp_execute").expect_err("blocked");
    assert_eq!(blocked.message(), "BOUNDARY_CAPABILITY_DENIED: mcp_execute is blocked in MVP");
    let cfg = valid_config("https://api.openai.com/v1");
    let bad = guardrails.validate_network_url("not a url", &cfg).expect_err("invalid url");
    assert!(matches!(bad, GuardrailError::InvalidRequest(_)));
    let denied = guardrails.validate_network_url("https://example.com/x", &cfg).expect_err("denied");
    assert!(matches!(denied, GuardrailError::DomainDenied(_)));
}

#[test]
fn error_codes_come_from_the_text() {
    assert_eq!(error_code_from_text("DB_BUSY: locked", "INTERNAL_ERROR"), "DB_BUSY");
    assert_eq!(error_code_from_text("  : nothing", "INTERNAL_ERROR"), "INTERNAL_ERROR");
    assert_eq!(error_code_from_text("plain text", "X"), "plain text");
    let (code, message) = config_error_parts(ConfigError::SchemaInvalid("bad".to_string()));
    assert_eq!(code, "CONFIG_SCHEMA_INVALID");
    assert_eq!(message, "CONFIG_SCHEMA_INVALID: bad");
}

#[test]
fn log_ids_name_request_suffix_and_time() {
    assert_eq!(next_log_id("req_1", "err", 42), "log_req_1_err_42");
}
