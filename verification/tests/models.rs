use metoks::models::{MeteredMode, Unit, SERVICE_CLAUDE_CODE, SERVICE_CODEX, SERVICE_OPENROUTER};

#[test]
fn names() {
    assert_eq!((SERVICE_CLAUDE_CODE, SERVICE_CODEX, SERVICE_OPENROUTER), ("claude_code", "codex", "openrouter"));
    assert_eq!(MeteredMode::Subscription.as_str(), "subscription");
    assert_eq!(MeteredMode::PayPerToken.as_str(), "pay_per_token");
}

#[test]
fn units_are_read_back() {
    for u in [Unit::Tokens, Unit::Usd] {
        assert_eq!(Unit::parse(u.as_str()), Some(u));
        assert_eq!(Unit::parse_or_tokens(u.as_str()), u);
    }
    assert_eq!((Unit::Tokens.as_str(), Unit::Usd.as_str()), ("tokens", "usd"));
    assert_eq!(Unit::parse("USD"), None);
    assert_eq!(Unit::parse_or_tokens("USD"), Unit::Tokens);
}
