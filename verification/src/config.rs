//! The configuration.
//!
//! Keys are read only from the environment variables that the configuration names; a service
//! that is enabled and has no key is an error at the start.

use crate::models::{Unit, SERVICE_CLAUDE_CODE};
use crate::number::{one, Real, ONE_BITS};
use crate::paths::{joined, path_join};
use crate::pricing::ModelPrice;
use crate::text::{
    begins_with, chars_of, concat, first_word, opt_str, opt_text, starts_with, str_eq, text_of, texts,
    word_of,
};
use vstd::prelude::*;

verus! {

/// The pattern of 0.8.
pub const WARN_BITS: u64 = 0x3fe9_9999_9999_999a;

/// The configuration.
#[derive(Debug, Clone)]
pub struct Config {
    pub poll_interval_seconds: u64,
    pub timezone: String,
    pub port: u16,
    pub services: Services,
    pub forecast: ForecastConfig,
    /// Prices by model, in place of those of the dataset.
    pub pricing_overrides: Vec<(String, PriceOverride)>,
}

/// The services.
#[derive(Debug, Clone)]
pub struct Services {
    pub claude_code: ClaudeCodeCfg,
    pub codex: CodexCfg,
    pub openrouter: OpenRouterCfg,
    pub opencode: SimpleToggle,
    pub anthropic_api: ApiKeyCfg,
    pub openai_api: ApiKeyCfg,
}

/// The logs of `claude_code`.
#[derive(Debug, Clone)]
pub struct ClaudeCodeCfg {
    pub enabled: bool,
    pub log_globs: Vec<String>,
    pub weekly_limit: Option<LimitCfg>,
}

/// The logs of Codex.
#[derive(Debug, Clone)]
pub struct CodexCfg {
    pub enabled: bool,
    /// The directories of Codex, with commas between them.
    pub codex_home: Option<String>,
    pub weekly_limit: Option<LimitCfg>,
}

/// The credits of OpenRouter.
#[derive(Debug, Clone)]
pub struct OpenRouterCfg {
    pub enabled: bool,
    pub api_key_env: String,
    pub weekly_budget: Option<LimitCfg>,
}

/// A service that can only be enabled.
#[derive(Debug, Clone, Copy, PartialEq, Eq, Structural)]
pub struct SimpleToggle {
    pub enabled: bool,
}

/// A service with a key.
#[derive(Debug, Clone)]
pub struct ApiKeyCfg {
    pub enabled: bool,
    pub api_key_env: Option<String>,
    pub admin_key_env: Option<String>,
}

/// The limit of a window.
#[derive(Debug, Clone)]
pub struct LimitCfg {
    pub value: Real,
    pub unit: String,
    pub source: String,
}

/// Prices of one token of a model, as configured.
#[derive(Debug, Clone, Copy, PartialEq, Eq, Structural)]
pub struct PriceOverride {
    pub input: Real,
    pub output: Real,
    pub cache_read: Real,
    pub cache_write: Real,
}

/// The forecaster.
#[derive(Debug, Clone)]
pub struct ForecastConfig {
    pub model: String,
    pub warn_threshold: Real,
    pub danger_threshold: Real,
}

/// What is wrong with a configuration.
#[derive(Debug, Clone)]
pub enum ConfigError {
    /// OpenRouter is enabled and this variable holds no key.
    OpenRouterKey(String),
    /// The API of Anthropic is enabled and this variable holds no key.
    AnthropicKey(String),
    /// The API of OpenAI is enabled and this variable holds no key.
    OpenAiKey(String),
    /// This is no unit.
    InvalidUnit(String),
}

/// The content of a [`ConfigError`].
pub enum ConfigErrorView {
    OpenRouterKey(Seq<char>),
    AnthropicKey(Seq<char>),
    OpenAiKey(Seq<char>),
    InvalidUnit(Seq<char>),
}

impl View for ConfigError {
    type V = ConfigErrorView;

    open spec fn view(&self) -> ConfigErrorView {
        match *self {
            ConfigError::OpenRouterKey(s) => ConfigErrorView::OpenRouterKey(s@),
            ConfigError::AnthropicKey(s) => ConfigErrorView::AnthropicKey(s@),
            ConfigError::OpenAiKey(s) => ConfigErrorView::OpenAiKey(s@),
            ConfigError::InvalidUnit(s) => ConfigErrorView::InvalidUnit(s@),
        }
    }
}

impl ConfigErrorView {
    /// The message of the error.
    pub open spec fn text(self) -> Seq<char> {
        match self {
            ConfigErrorView::OpenRouterKey(s) => "openrouter enabled but env var "@ + s
                + " is missing/empty (set it or disable the service)"@,
            ConfigErrorView::AnthropicKey(s) => "anthropic_api enabled but env var "@ + s
                + " is missing/empty"@,
            ConfigErrorView::OpenAiKey(s) => "openai_api enabled but env var "@ + s
                + " is missing/empty"@,
            ConfigErrorView::InvalidUnit(s) => "invalid limit unit: "@ + s,
        }
    }
}

impl ConfigError {
    /// The message of the error.
    pub fn message(&self) -> (r: String)
        ensures
            r@ == self@.text(),
    {
        match self {
            ConfigError::OpenRouterKey(s) => {
                let mut t = concat("openrouter enabled but env var ", s.as_str());
                t.append(" is missing/empty (set it or disable the service)");
                t
            },
            ConfigError::AnthropicKey(s) => {
                let mut t = concat("anthropic_api enabled but env var ", s.as_str());
                t.append(" is missing/empty");
                t
            },
            ConfigError::OpenAiKey(s) => {
                let mut t = concat("openai_api enabled but env var ", s.as_str());
                t.append(" is missing/empty");
                t
            },
            ConfigError::InvalidUnit(s) => concat("invalid limit unit: ", s.as_str()),
        }
    }
}

/// Seconds between two polls, unless configured.
pub fn default_poll_interval() -> (r: u64)
    ensures
        r == 60,
{
    60
}

/// The time zone, unless configured.
pub fn default_timezone() -> (r: String)
    ensures
        r@ == "UTC"@,
{
    "UTC".to_owned()
}

/// The port of the API, unless configured.
pub fn default_port() -> (r: u16)
    ensures
        r == 8787,
{
    8787
}

/// The logs of `claude_code`: in the hidden directory under the home directory that is called
/// like the first word of the service.
pub open spec fn claude_logs() -> Seq<char> {
    "~/."@ + first_word(SERVICE_CLAUDE_CODE@) + "/projects/**/*.jsonl"@
}

/// The logs of `claude_code`, unless configured.
pub fn default_claude_globs() -> (r: Vec<String>)
    ensures
        texts(r@) == seq![claude_logs()],
{
    let mut v: Vec<String> = Vec::new();
    let word = word_of(SERVICE_CLAUDE_CODE);
    let mut glob = concat("~/.", word.as_str());
    glob.append("/projects/**/*.jsonl");
    v.push(glob);
    assert(texts(v@) =~= seq![claude_logs()]);
    v
}

/// The variable that holds the key of OpenRouter, unless configured.
pub fn default_openrouter_env() -> (r: String)
    ensures
        r@ == "OPENROUTER_API_KEY"@,
{
    "OPENROUTER_API_KEY".to_owned()
}

/// Where a limit comes from, unless configured.
pub fn default_limit_source() -> (r: String)
    ensures
        r@ == "configured"@,
{
    "configured".to_owned()
}

/// The name of the forecaster, unless configured.
pub fn default_forecast_model() -> (r: String)
    ensures
        r@ == "point_process"@,
{
    "point_process".to_owned()
}

/// The share of the limit from which a projection is amber, unless configured: 0.8.
pub fn default_warn() -> (r: Real)
    ensures
        r.bits == WARN_BITS,
{
    Real { bits: WARN_BITS }
}

/// The share of the limit from which a projection is red, unless configured: 1.
pub fn default_danger() -> (r: Real)
    ensures
        r == one(),
{
    Real { bits: ONE_BITS }
}

impl Default for ClaudeCodeCfg {
    fn default() -> (r: ClaudeCodeCfg)
        ensures
            !r.enabled,
            texts(r.log_globs@) == seq![claude_logs()],
            r.weekly_limit is None,
    {
        ClaudeCodeCfg { enabled: false, log_globs: default_claude_globs(), weekly_limit: None }
    }
}

impl Default for CodexCfg {
    fn default() -> (r: CodexCfg)
        ensures
            r == (CodexCfg { enabled: false, codex_home: None, weekly_limit: None }),
    {
        CodexCfg { enabled: false, codex_home: None, weekly_limit: None }
    }
}

impl Default for OpenRouterCfg {
    fn default() -> (r: OpenRouterCfg)
        ensures
            !r.enabled,
            r.api_key_env@.len() == 0,
            r.weekly_budget is None,
    {
        OpenRouterCfg { enabled: false, api_key_env: String::new(), weekly_budget: None }
    }
}

impl Default for SimpleToggle {
    fn default() -> (r: SimpleToggle)
        ensures
            !r.enabled,
    {
        SimpleToggle { enabled: false }
    }
}

impl Default for ApiKeyCfg {
    fn default() -> (r: ApiKeyCfg)
        ensures
            r == (ApiKeyCfg { enabled: false, api_key_env: None, admin_key_env: None }),
    {
        ApiKeyCfg { enabled: false, api_key_env: None, admin_key_env: None }
    }
}

impl Services {
    /// Whether nothing but what the defaults say is configured.
    pub open spec fn plain(self) -> bool {
        &&& texts(self.claude_code.log_globs@) == seq![claude_logs()]
        &&& self.claude_code.weekly_limit is None
        &&& self.codex.codex_home is None
        &&& self.codex.weekly_limit is None
        &&& self.openrouter.api_key_env@.len() == 0
        &&& self.openrouter.weekly_budget is None
        &&& !self.openrouter.enabled
        &&& !self.opencode.enabled
        &&& self.anthropic_api == (ApiKeyCfg {
            enabled: false,
            api_key_env: None,
            admin_key_env: None,
        })
        &&& self.openai_api == (ApiKeyCfg { enabled: false, api_key_env: None, admin_key_env: None })
    }
}

impl Default for Services {
    fn default() -> (r: Services)
        ensures
            r.plain(),
            !r.claude_code.enabled,
            !r.codex.enabled,
    {
        Services {
            claude_code: ClaudeCodeCfg::default(),
            codex: CodexCfg::default(),
            openrouter: OpenRouterCfg::default(),
            opencode: SimpleToggle::default(),
            anthropic_api: ApiKeyCfg::default(),
            openai_api: ApiKeyCfg::default(),
        }
    }
}

impl Default for ForecastConfig {
    fn default() -> (r: ForecastConfig)
        ensures
            r.model@ == "point_process"@,
            r.warn_threshold.bits == WARN_BITS,
            r.danger_threshold == one(),
    {
        ForecastConfig {
            model: default_forecast_model(),
            warn_threshold: default_warn(),
            danger_threshold: default_danger(),
        }
    }
}

impl LimitCfg {
    /// The unit of the limit, if its name is that of one.
    pub open spec fn unit(self) -> Option<Unit> {
        Unit::named(self.unit@)
    }

    /// The unit of the limit.
    pub fn unit_parsed(&self) -> (r: Result<Unit, ConfigError>)
        ensures
            match r {
                Ok(u) => self.unit() == Some(u),
                Err(e) => self.unit() is None && e@ == ConfigErrorView::InvalidUnit(self.unit@),
            },
    {
        match Unit::parse(self.unit.as_str()) {
            Some(u) => Ok(u),
            None => Err(ConfigError::InvalidUnit(self.unit.clone())),
        }
    }
}

impl PriceOverride {
    /// The price that the entry configures.
    pub open spec fn price(self) -> ModelPrice {
        ModelPrice {
            input: self.input,
            output: self.output,
            cache_read: self.cache_read,
            cache_write: self.cache_write,
        }
    }

    /// The price that the entry configures.
    pub fn to_price(&self) -> (r: ModelPrice)
        ensures
            r == self.price(),
    {
        ModelPrice {
            input: self.input,
            output: self.output,
            cache_read: self.cache_read,
            cache_write: self.cache_write,
        }
    }
}

/// Whether the environment sets `name` to a text that is not empty. Of several entries for
/// a name the first counts.
pub open spec fn key_set(env: Seq<(String, String)>, name: Seq<char>) -> bool
    decreases env.len(),
{
    if env.len() == 0 {
        false
    } else if env[0].0@ == name {
        env[0].1@.len() > 0
    } else {
        key_set(env.drop_first(), name)
    }
}

/// The text, or what stands for it where there is none.
pub open spec fn text_or(s: Option<Seq<char>>, default: Seq<char>) -> Seq<char> {
    match s {
        Some(x) => x,
        None => default,
    }
}

/// The first key that an enabled service lacks.
pub open spec fn missing_key(s: Services, env: Seq<(String, String)>) -> Option<ConfigErrorView> {
    let anthropic = text_or(opt_text(s.anthropic_api.admin_key_env), "ANTHROPIC_ADMIN_KEY"@);
    let openai = text_or(opt_text(s.openai_api.api_key_env), "OPENAI_API_KEY"@);
    if s.openrouter.enabled && !key_set(env, s.openrouter.api_key_env@) {
        Some(ConfigErrorView::OpenRouterKey(s.openrouter.api_key_env@))
    } else if s.anthropic_api.enabled && !key_set(env, anthropic) {
        Some(ConfigErrorView::AnthropicKey(anthropic))
    } else if s.openai_api.enabled && !key_set(env, openai) {
        Some(ConfigErrorView::OpenAiKey(openai))
    } else {
        None
    }
}

/// Whether the environment sets `name` to a text that is not empty.
fn has_key(env: &Vec<(String, String)>, name: &str) -> (r: bool)
    ensures
        r == key_set(env@, name@),
{
    assert(env@.skip(0) =~= env@);
    for i in 0..env.len()
        invariant
            key_set(env@, name@) == key_set(env@.skip(i as int), name@),
    {
        assert(env@.skip(i as int).drop_first() =~= env@.skip(i + 1));
        if str_eq(env[i].0.as_str(), name) {
            return env[i].1.as_str().unicode_len() > 0;
        }
    }
    false
}

/// The text, or what stands for it where there is none.
fn text_else(s: &Option<String>, default: &str) -> (r: String)
    ensures
        r@ == text_or(opt_text(*s), default@),
{
    match s {
        Some(x) => x.clone(),
        None => default.to_owned(),
    }
}

impl Config {
    /// Fails with the first key that an enabled service lacks, among the variables of the
    /// environment.
    pub fn validate_keys(&self, env: &Vec<(String, String)>) -> (r: Result<(), ConfigError>)
        ensures
            match r {
                Ok(_) => missing_key(self.services, env@) is None,
                Err(e) => missing_key(self.services, env@) == Some(e@),
            },
    {
        let s = &self.services;
        if s.openrouter.enabled && !has_key(env, s.openrouter.api_key_env.as_str()) {
            return Err(ConfigError::OpenRouterKey(s.openrouter.api_key_env.clone()));
        }
        if s.anthropic_api.enabled {
            let name = text_else(&s.anthropic_api.admin_key_env, "ANTHROPIC_ADMIN_KEY");
            if !has_key(env, name.as_str()) {
                return Err(ConfigError::AnthropicKey(name));
            }
        }
        if s.openai_api.enabled {
            let name = text_else(&s.openai_api.api_key_env, "OPENAI_API_KEY");
            if !has_key(env, name.as_str()) {
                return Err(ConfigError::OpenAiKey(name));
            }
        }
        Ok(())
    }

    /// The configuration where there is no file: the two log services, on the west coast.
    pub fn sample() -> (r: Config)
        ensures
            r.poll_interval_seconds == 60,
            r.timezone@ == "America/Los_Angeles"@,
            r.port == 8787,
            r.services.plain(),
            r.services.claude_code.enabled,
            r.services.codex.enabled,
            r.forecast.model@ == "point_process"@,
            r.forecast.warn_threshold.bits == WARN_BITS,
            r.forecast.danger_threshold == one(),
            r.pricing_overrides@.len() == 0,
    {
        let mut claude_code = ClaudeCodeCfg::default();
        claude_code.enabled = true;
        let mut codex = CodexCfg::default();
        codex.enabled = true;
        Config {
            poll_interval_seconds: 60,
            timezone: "America/Los_Angeles".to_owned(),
            port: 8787,
            services: Services {
                claude_code,
                codex,
                openrouter: OpenRouterCfg::default(),
                opencode: SimpleToggle::default(),
                anthropic_api: ApiKeyCfg::default(),
                openai_api: ApiKeyCfg::default(),
            },
            forecast: ForecastConfig::default(),
            pricing_overrides: Vec::new(),
        }
    }
}

/// A path with a leading `~` taken to the home directory, if that is known.
pub open spec fn expanded(path: Seq<char>, home: Option<Seq<char>>) -> Seq<char> {
    match home {
        Some(h) => if begins_with(path, "~/"@) {
            joined(h, path.skip(2))
        } else if path == "~"@ {
            h
        } else {
            path
        },
        None => path,
    }
}

/// Takes a leading `~` to the home directory.
pub fn expand_tilde(path: &str, home: Option<&str>) -> (r: String)
    ensures
        r@ == expanded(path@, opt_str(home)),
{
    match home {
        Some(h) => {
            let v = chars_of(path);
            proof {
                reveal_strlit("~/");
            }
            if starts_with(&v, "~/") {
                let rest = text_of(&v, 2, v.len());
                assert(rest@ =~= path@.skip(2));
                path_join(h, rest.as_str())
            } else if str_eq(path, "~") {
                h.to_owned()
            } else {
                path.to_owned()
            }
        },
        None => path.to_owned(),
    }
}

/// A configuration whose enabled services have their keys is accepted, and one that is
/// accepted has them.
pub proof fn law_keys_required(s: Services, env: Seq<(String, String)>)
    ensures
        missing_key(s, env) is None <==> {
            &&& s.openrouter.enabled ==> key_set(env, s.openrouter.api_key_env@)
            &&& s.anthropic_api.enabled ==> key_set(
                env,
                text_or(opt_text(s.anthropic_api.admin_key_env), "ANTHROPIC_ADMIN_KEY"@),
            )
            &&& s.openai_api.enabled ==> key_set(
                env,
                text_or(opt_text(s.openai_api.api_key_env), "OPENAI_API_KEY"@),
            )
        },
{
}

/// A key is missing only where the service that needs it is enabled, the first service in the
/// order of the configuration is told, and it is told the variable that lacks a value: the one
/// configured, else the standard one.
pub proof fn law_missing_key_is_named(s: Services, env: Seq<(String, String)>)
    ensures
        missing_key(s, env) matches Some(ConfigErrorView::OpenRouterKey(v)) ==> s.openrouter.enabled && v
            == s.openrouter.api_key_env@ && !key_set(env, v),
        s.openrouter.enabled && !key_set(env, s.openrouter.api_key_env@) ==> missing_key(s, env)
            == Some(ConfigErrorView::OpenRouterKey(s.openrouter.api_key_env@)),
        missing_key(s, env) matches Some(ConfigErrorView::AnthropicKey(v)) ==> {
            &&& s.anthropic_api.enabled && !key_set(env, v)
            &&& s.anthropic_api.admin_key_env matches Some(x) ==> v == x@
            &&& s.anthropic_api.admin_key_env is None ==> v == "ANTHROPIC_ADMIN_KEY"@
        },
        missing_key(s, env) matches Some(ConfigErrorView::OpenAiKey(v)) ==> {
            &&& s.openai_api.enabled && !key_set(env, v)
            &&& s.openai_api.api_key_env matches Some(x) ==> v == x@
            &&& s.openai_api.api_key_env is None ==> v == "OPENAI_API_KEY"@
        },
        !(missing_key(s, env) matches Some(ConfigErrorView::InvalidUnit(_))),
        !s.openrouter.enabled && !s.anthropic_api.enabled && !s.openai_api.enabled ==> missing_key(
            s,
            env,
        ) is None,
{
}

/// A variable has a value where its first entry is not empty: without an entry it has none.
pub proof fn law_key_is_set(env: Seq<(String, String)>, name: Seq<char>, i: int)
    ensures
        0 <= i < env.len() && env[i].0@ == name && (forall|k: int|
            0 <= k < i ==> (#[trigger] env[k]).0@ != name) ==> (key_set(env, name) <==> env[i].1@.len()
            > 0),
        (forall|k: int| 0 <= k < env.len() ==> (#[trigger] env[k]).0@ != name) ==> !key_set(env, name),
    decreases env.len(),
{
    if env.len() > 0 && env[0].0@ != name {
        let rest = env.drop_first();
        law_key_is_set(rest, name, i - 1);
        if 0 < i < env.len() && env[i].0@ == name && (forall|k: int|
            0 <= k < i ==> (#[trigger] env[k]).0@ != name) {
            assert(rest[i - 1] == env[i]);
            assert forall|k: int| 0 <= k < i - 1 implies (#[trigger] rest[k]).0@ != name by {
                assert(rest[k] == env[k + 1]);
            }
        }
        if forall|k: int| 0 <= k < env.len() ==> (#[trigger] env[k]).0@ != name {
            assert forall|k: int| 0 <= k < rest.len() implies (#[trigger] rest[k]).0@ != name by {
                assert(rest[k] == env[k + 1]);
            }
        }
    }
}

/// Only a tilde in front, alone or with a slash behind it, stands for the home directory: the
/// rest of the path follows it there, and every other path stays as it is.
pub proof fn law_expanded(rest: Seq<char>, path: Seq<char>, home: Seq<char>)
    ensures
        expanded(seq!['~', '/'] + rest, Some(home)) == joined(home, rest),
        expanded(seq!['~'], Some(home)) == home,
        path.len() == 0 || path[0] != '~' ==> expanded(path, Some(home)) == path,
        path.len() > 1 && path[1] != '/' ==> expanded(path, Some(home)) == path,
        expanded(path, None) == path,
{
    reveal_strlit("~/");
    reveal_strlit("~");
    assert("~/"@ =~= seq!['~', '/']);
    assert("~"@ =~= seq!['~']);
    let p = seq!['~', '/'] + rest;
    assert(p.take(2) =~= "~/"@);
    assert(p.skip(2) =~= rest);
    assert(path.len() >= 2 ==> path.take(2)[0] == path[0] && path.take(2)[1] == path[1]);
    assert("~/"@[0] == '~' && "~/"@[1] == '/');
}

/// A limit and a price are what their entries say, column by column.
pub proof fn law_entries_as_configured(l: LimitCfg, p: PriceOverride)
    ensures
        l.unit@ == "tokens"@ ==> l.unit() == Some(Unit::Tokens),
        l.unit@ == "usd"@ ==> l.unit() == Some(Unit::Usd),
        l.unit@ != "tokens"@ && l.unit@ != "usd"@ ==> l.unit() is None,
        p.price().input == p.input,
        p.price().output == p.output,
        p.price().cache_read == p.cache_read,
        p.price().cache_write == p.cache_write,
{
    crate::models::law_unknown_unit_is_tokens(l.unit@);
}

/// What is told of a missing key names the service and the variable.
pub proof fn law_messages(s: Seq<char>)
    ensures
        ConfigErrorView::OpenRouterKey(s).text() == "openrouter enabled but env var "@ + s
            + " is missing/empty (set it or disable the service)"@,
        ConfigErrorView::AnthropicKey(s).text() == "anthropic_api enabled but env var "@ + s
            + " is missing/empty"@,
        ConfigErrorView::OpenAiKey(s).text() == "openai_api enabled but env var "@ + s
            + " is missing/empty"@,
        ConfigErrorView::InvalidUnit(s).text() == "invalid limit unit: "@ + s,
        claude_logs() == "~/."@ + first_word(SERVICE_CLAUDE_CODE@) + "/projects/**/*.jsonl"@,
{
}

/// Unless configured, no service has a limit, a key or a place of its own, and the services that
/// read no logs are off.
pub proof fn law_defaults(s: Services)
    requires
        s.plain(),
    ensures
        s.claude_code.log_globs@.len() == 1 && s.claude_code.log_globs@[0]@ == "~/."@ + first_word(
            SERVICE_CLAUDE_CODE@,
        ) + "/projects/**/*.jsonl"@,
        s.claude_code.weekly_limit is None && s.codex.weekly_limit is None
            && s.openrouter.weekly_budget is None,
        s.codex.codex_home is None,
        s.openrouter.api_key_env@ == Seq::<char>::empty(),
        !s.openrouter.enabled && !s.opencode.enabled && !s.anthropic_api.enabled
            && !s.openai_api.enabled,
        s.anthropic_api.api_key_env is None && s.anthropic_api.admin_key_env is None,
        s.openai_api.api_key_env is None && s.openai_api.admin_key_env is None,
        WARN_BITS == 0x3fe9_9999_9999_999a,
{
    assert(texts(s.claude_code.log_globs@).len() == 1);
    assert(texts(s.claude_code.log_globs@)[0] == claude_logs());
}

} // verus!
