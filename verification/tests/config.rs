use metoks::config::{
    default_claude_globs, default_danger, default_forecast_model, default_limit_source,
    default_openrouter_env, default_poll_interval, default_port, default_timezone, default_warn,
    expand_tilde, ApiKeyCfg, ClaudeCodeCfg, Config, ConfigError, ForecastConfig, LimitCfg,
    OpenRouterCfg, Services, SimpleToggle,
};
use metoks::models::Unit;
use metoks::number::Real;

fn val(x: Real) -> f64 {
    f64::from_bits(x.bits)
}

fn env(pairs: &[(&str, &str)]) -> Vec<(String, String)> {
    pairs.iter().map(|(k, v)| (k.to_string(), v.to_string())).collect()
}

#[test]
fn defaults() {
    assert_eq!(default_poll_interval(), 60);
    assert_eq!(default_timezone(), "UTC");
    assert_eq!(default_port(), 8787);
    let word = "claude_code".split('_').next().unwrap();
    assert_eq!(default_claude_globs(), vec![format!("~/.{word}/projects/**/*.jsonl")]);
    assert_eq!(default_openrouter_env(), "OPENROUTER_API_KEY");
    assert_eq!(default_limit_source(), "configured");
    assert_eq!(default_forecast_model(), "point_process");
    assert_eq!(val(default_warn()), 0.80);
    assert_eq!(val(default_danger()), 1.00);
    assert!(!SimpleToggle::default().enabled);
    assert!(!ClaudeCodeCfg::default().enabled);
    assert_eq!(OpenRouterCfg::default().api_key_env, "");
    assert_eq!(ForecastConfig::default().model, "point_process");
    let s = Services::default();
    assert!(!s.claude_code.enabled && !s.codex.enabled && !s.openrouter.enabled);
}

#[test]
fn sample_reads_the_local_logs() {
    let c = Config::sample();
    assert_eq!((c.poll_interval_seconds, c.port), (60, 8787));
    assert_eq!(c.timezone, "America/Los_Angeles");
    assert!(c.services.claude_code.enabled && c.services.codex.enabled);
    assert!(!c.services.openrouter.enabled && !c.services.opencode.enabled);
    assert!(!c.services.anthropic_api.enabled && !c.services.openai_api.enabled);
    assert!(c.pricing_overrides.is_empty());
    assert_eq!(val(c.forecast.warn_threshold), 0.8);
}

#[test]
fn unit_of_a_limit() {
    let limit = |unit: &str| LimitCfg {
        value: Real { bits: 0 },
        unit: unit.to_string(),
        source: String::new(),
    };
    assert_eq!(limit("tokens").unit_parsed().unwrap(), Unit::Tokens);
    assert_eq!(limit("usd").unit_parsed().unwrap(), Unit::Usd);
    let e = limit("eur").unit_parsed().unwrap_err();
    assert_eq!(e.message(), "invalid limit unit: eur");
}

#[test]
fn keys_of_enabled_services_are_required() {
    let mut c = Config::sample();
    assert!(c.validate_keys(&env(&[])).is_ok());
    c.services.openrouter.enabled = true;
    c.services.openrouter.api_key_env = "OR".to_string();
    let e = c.validate_keys(&env(&[("OR", "")])).unwrap_err();
    assert!(matches!(&e, ConfigError::OpenRouterKey(k) if k == "OR"));
    assert_eq!(
        e.message(),
        "openrouter enabled but env var OR is missing/empty (set it or disable the service)"
    );
    assert!(c.validate_keys(&env(&[("OTHER", "x"), ("OR", "secret")])).is_ok());
}

#[test]
fn keys_have_default_names() {
    let mut c = Config::sample();
    c.services.anthropic_api.enabled = true;
    c.services.openai_api = ApiKeyCfg {
        enabled: true,
        api_key_env: Some("MY_KEY".to_string()),
        admin_key_env: None,
    };
    let e = c.validate_keys(&env(&[])).unwrap_err();
    assert_eq!(e.message(), "anthropic_api enabled but env var ANTHROPIC_ADMIN_KEY is missing/empty");
    let e = c.validate_keys(&env(&[("ANTHROPIC_ADMIN_KEY", "k")])).unwrap_err();
    assert_eq!(e.message(), "openai_api enabled but env var MY_KEY is missing/empty");
    assert!(c.validate_keys(&env(&[("ANTHROPIC_ADMIN_KEY", "k"), ("MY_KEY", "k")])).is_ok());
    c.services.openai_api.api_key_env = None;
    let e = c.validate_keys(&env(&[("ANTHROPIC_ADMIN_KEY", "k")])).unwrap_err();
    assert_eq!(e.message(), "openai_api enabled but env var OPENAI_API_KEY is missing/empty");
}

#[test]
fn tilde_is_the_home_directory() {
    assert_eq!(expand_tilde("~/x/y", Some("/home/me")), "/home/me/x/y");
    assert_eq!(expand_tilde("~/x", Some("/home/me/")), "/home/me/x");
    assert_eq!(expand_tilde("~", Some("/home/me")), "/home/me");
    assert_eq!(expand_tilde("~x", Some("/home/me")), "~x");
    assert_eq!(expand_tilde("/abs", Some("/home/me")), "/abs");
    assert_eq!(expand_tilde("~/x", None), "~/x");
    assert_eq!(expand_tilde("~//etc", Some("/home/me")), "/etc");
    assert_eq!(expand_tilde("~/", Some("/home/me")), "/home/me/");
}
