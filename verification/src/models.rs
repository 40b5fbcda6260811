//! The records shared by the collectors, the store, the forecaster and the API.

use crate::number::Real;
use crate::text::{opt_text, str_eq};
use crate::time::Timestamp;
use vstd::prelude::*;

verus! {

/// The logs of `claude_code`.
pub const SERVICE_CLAUDE_CODE: &'static str = "claude_code";

/// The logs of Codex.
pub const SERVICE_CODEX: &'static str = "codex";

/// The credits of OpenRouter.
pub const SERVICE_OPENROUTER: &'static str = "openrouter";

/// How a service is billed. Under a subscription the dollar figures are estimates at the
/// prices of the API; pay-per-token figures are spend.
#[derive(Debug, Clone, Copy, PartialEq, Eq, Structural)]
pub enum MeteredMode {
    Subscription,
    PayPerToken,
}

impl MeteredMode {
    /// The name of the mode.
    pub open spec fn name(self) -> Seq<char> {
        match self {
            MeteredMode::Subscription => "subscription"@,
            MeteredMode::PayPerToken => "pay_per_token"@,
        }
    }

    /// The name of the mode.
    pub fn as_str(&self) -> (r: &'static str)
        ensures
            r@ == self.name(),
    {
        match self {
            MeteredMode::Subscription => "subscription",
            MeteredMode::PayPerToken => "pay_per_token",
        }
    }
}

/// The unit in which a service's weekly window is tracked.
#[derive(Debug, Clone, Copy, PartialEq, Eq, Structural)]
pub enum Unit {
    Tokens,
    Usd,
}

impl Unit {
    /// The name of the unit.
    pub open spec fn name(self) -> Seq<char> {
        match self {
            Unit::Tokens => "tokens"@,
            Unit::Usd => "usd"@,
        }
    }

    /// The unit of that name.
    pub open spec fn named(s: Seq<char>) -> Option<Unit> {
        if s == "tokens"@ {
            Some(Unit::Tokens)
        } else if s == "usd"@ {
            Some(Unit::Usd)
        } else {
            None
        }
    }

    /// The unit of that name, tokens where there is none.
    pub open spec fn named_or_tokens(s: Seq<char>) -> Unit {
        match Unit::named(s) {
            Some(u) => u,
            None => Unit::Tokens,
        }
    }

    /// The name of the unit.
    pub fn as_str(&self) -> (r: &'static str)
        ensures
            r@ == self.name(),
    {
        match self {
            Unit::Tokens => "tokens",
            Unit::Usd => "usd",
        }
    }

    /// The unit of that name.
    pub fn parse(s: &str) -> (r: Option<Unit>)
        ensures
            r == Unit::named(s@),
    {
        if str_eq(s, "tokens") {
            Some(Unit::Tokens)
        } else if str_eq(s, "usd") {
            Some(Unit::Usd)
        } else {
            None
        }
    }

    /// The unit of that name, tokens where there is none.
    pub fn parse_or_tokens(s: &str) -> (r: Unit)
        ensures
            r == Unit::named_or_tokens(s@),
    {
        match Unit::parse(s) {
            Some(u) => u,
            None => Unit::Tokens,
        }
    }
}

/// Naming a unit and reading the name gives the unit back; every other text names none.
pub proof fn law_unit_names(u: Unit, s: Seq<char>)
    ensures
        Unit::named(u.name()) == Some(u),
        Unit::named(s) == Some(u) <==> s == u.name(),
        MeteredMode::Subscription.name() != MeteredMode::PayPerToken.name(),
{
    reveal_strlit("tokens");
    reveal_strlit("usd");
    reveal_strlit("subscription");
    reveal_strlit("pay_per_token");
    assert("tokens"@.len() == 6 && "usd"@.len() == 3);
    assert("subscription"@.len() == 12 && "pay_per_token"@.len() == 13);
}

/// A number of tokens and the price of one.
#[derive(Debug, Clone, Copy, PartialEq, Eq, Structural)]
pub struct Charge {
    pub count: i64,
    pub price: Real,
}

/// What an event costs in dollars.
#[derive(Debug, Clone)]
pub enum Cost {
    /// The sum of count times price, added up in order; nothing where there is no charge.
    Charges(Vec<Charge>),
    /// The rise of a running total.
    Rise { from: Real, to: Real },
}

/// The content of a [`Cost`].
#[verifier::ext_equal]
pub enum CostView {
    Charges(Seq<Charge>),
    Rise(Real, Real),
}

impl View for Cost {
    type V = CostView;

    open spec fn view(&self) -> CostView {
        match *self {
            Cost::Charges(c) => CostView::Charges(c@),
            Cost::Rise { from, to } => CostView::Rise(from, to),
        }
    }
}

/// One usage record. Records are only ever added, and told apart by `event_uid`.
#[derive(Debug, Clone)]
pub struct Event {
    pub event_uid: String,
    pub service: String,
    pub metered_mode: MeteredMode,
    pub ts: Timestamp,
    pub model: Option<String>,
    pub input_tokens: i64,
    pub output_tokens: i64,
    pub cache_read_tokens: i64,
    pub cache_write_tokens: i64,
    pub reasoning_tokens: i64,
    pub cost: Cost,
    pub cost_is_estimate: bool,
    pub session_id: Option<String>,
    pub project: Option<String>,
    pub raw_source: Option<String>,
}

/// The content of an [`Event`].
#[verifier::ext_equal]
pub struct EventView {
    pub event_uid: Seq<char>,
    pub service: Seq<char>,
    pub metered_mode: MeteredMode,
    pub ts: Timestamp,
    pub model: Option<Seq<char>>,
    pub input_tokens: i64,
    pub output_tokens: i64,
    pub cache_read_tokens: i64,
    pub cache_write_tokens: i64,
    pub reasoning_tokens: i64,
    pub cost: CostView,
    pub cost_is_estimate: bool,
    pub session_id: Option<Seq<char>>,
    pub project: Option<Seq<char>>,
    pub raw_source: Option<Seq<char>>,
}

impl View for Event {
    type V = EventView;

    open spec fn view(&self) -> EventView {
        EventView {
            event_uid: self.event_uid@,
            service: self.service@,
            metered_mode: self.metered_mode,
            ts: self.ts,
            model: opt_text(self.model),
            input_tokens: self.input_tokens,
            output_tokens: self.output_tokens,
            cache_read_tokens: self.cache_read_tokens,
            cache_write_tokens: self.cache_write_tokens,
            reasoning_tokens: self.reasoning_tokens,
            cost: self.cost@,
            cost_is_estimate: self.cost_is_estimate,
            session_id: opt_text(self.session_id),
            project: opt_text(self.project),
            raw_source: opt_text(self.raw_source),
        }
    }
}

/// The forecast of one window of a service.
#[derive(Debug, Clone)]
pub struct Forecast {
    pub service: String,
    pub window_kind: String,
    pub unit: Unit,
    pub consumed: Real,
    pub limit: Option<Real>,
    pub limit_source: Option<String>,
    pub pct_now: Option<Real>,
    pub projected: Real,
    pub pct_projected: Option<Real>,
    pub status: String,
    pub eta_to_limit: Option<Timestamp>,
    pub window_start: Timestamp,
    pub window_end: Timestamp,
    pub forecast_model: String,
    /// Whether too little of the window has passed for the projection to be relied on.
    pub low_confidence: bool,
}

/// An unknown unit is read as tokens, and each known one as itself.
pub proof fn law_unknown_unit_is_tokens(s: Seq<char>)
    ensures
        Unit::named_or_tokens("usd"@) == Unit::Usd,
        s != "usd"@ ==> Unit::named_or_tokens(s) == Unit::Tokens,
        Unit::named("tokens"@) == Some(Unit::Tokens),
        Unit::named("usd"@) == Some(Unit::Usd),
        Unit::Tokens.name() == "tokens"@,
        Unit::Usd.name() == "usd"@,
        MeteredMode::Subscription.name() == "subscription"@,
        MeteredMode::PayPerToken.name() == "pay_per_token"@,
{
    reveal_strlit("tokens");
    reveal_strlit("usd");
    assert("tokens"@.len() == 6 && "usd"@.len() == 3);
}

/// The services have three different names.
pub proof fn law_service_names()
    ensures
        SERVICE_CLAUDE_CODE@ != SERVICE_CODEX@,
        SERVICE_CLAUDE_CODE@ != SERVICE_OPENROUTER@,
        SERVICE_CODEX@ != SERVICE_OPENROUTER@,
{
    reveal_strlit("claude_code");
    reveal_strlit("codex");
    reveal_strlit("openrouter");
    assert("claude_code"@.len() == 11 && "codex"@.len() == 5 && "openrouter"@.len() == 10);
}

/// The content of a record is what it holds, column by column.
pub proof fn law_event_content(e: Event, c: Vec<Charge>, from: Real, to: Real)
    ensures
        e@.event_uid == e.event_uid@,
        e@.service == e.service@,
        e@.metered_mode == e.metered_mode,
        e@.ts == e.ts,
        e@.input_tokens == e.input_tokens,
        e@.output_tokens == e.output_tokens,
        e@.cache_read_tokens == e.cache_read_tokens,
        e@.cache_write_tokens == e.cache_write_tokens,
        e@.reasoning_tokens == e.reasoning_tokens,
        e@.cost_is_estimate == e.cost_is_estimate,
        e.model matches Some(m) ==> e@.model == Some(m@),
        e.model is None ==> e@.model is None,
        e.session_id matches Some(s) ==> e@.session_id == Some(s@),
        e.session_id is None ==> e@.session_id is None,
        e.project matches Some(p) ==> e@.project == Some(p@),
        e.project is None ==> e@.project is None,
        e.raw_source matches Some(r) ==> e@.raw_source == Some(r@),
        e.raw_source is None ==> e@.raw_source is None,
        e@.cost == e.cost@,
        Cost::Charges(c)@ == CostView::Charges(c@),
        (Cost::Rise { from, to })@ == CostView::Rise(from, to),
{
}

} // verus!
