//! The cap of a weekly window and the share of it that is used.
//!
//! The cap is the allowance of the plan, which a reset does not change. It is taken from the
//! latest reading of the current window; the median of the recent readings carries it across
//! a reset and guards against a reading that was logged before the counting caught up.

use crate::config::{Config, LimitCfg, Services};
use crate::db::{Fiducial, LimitRow, RateLimitStatus};
use crate::forecast::median::{is_middle, middle};
use crate::models::{
    law_service_names, Unit, SERVICE_CLAUDE_CODE, SERVICE_CODEX, SERVICE_OPENROUTER,
};
use crate::number::{hundred, zero, Real, HUNDRED_BITS};
use crate::text::{concat, opt_text, str_eq};
use crate::time::Timestamp;
use vstd::prelude::*;

verus! {

/// The pattern of 3, the percentage below which a reading says too little about the cap.
pub const CAP_MIN_PERCENT: u64 = 0x4008_0000_0000_0000;

/// The pattern of 0.4, the share of the median below which the cap of a reading is an outlier.
pub const CAP_OUTLIER_FRAC: u64 = 0x3fd9_9999_9999_999a;

/// Days for which a reading carries the cap.
pub const CAP_CARRY_DAYS: i64 = 21;

/// The percentage below which a reading says too little about the cap.
pub open spec fn min_percent() -> Real {
    Real { bits: CAP_MIN_PERCENT }
}

/// A reading: the tokens counted, the percentage they are known to be, and the cap that
/// follows, the tokens over the hundredth part of the percentage.
#[derive(Debug, Clone, Copy, PartialEq, Eq, Structural)]
pub struct Reading {
    pub measured: Real,
    pub percent: Real,
    pub implied: Real,
}

impl Reading {
    /// Whether the reading says enough about the cap.
    pub open spec fn is_usable(self) -> bool {
        min_percent().spec_le(self.percent) && zero().spec_lt(self.measured)
    }

    /// Whether the reading says enough about the cap.
    pub fn usable(&self) -> (r: bool)
        ensures
            r == self.is_usable(),
    {
        enough(self.percent) && self.measured.positive()
    }
}

/// Whether a percentage says enough about the cap.
fn enough(percent: Real) -> (r: bool)
    ensures
        r == min_percent().spec_le(percent),
{
    Real { bits: CAP_MIN_PERCENT }.le(percent)
}

/// The caps that the usable readings imply, in order.
pub open spec fn implied_caps(readings: Seq<Reading>) -> Seq<Real>
    decreases readings.len(),
{
    if readings.len() == 0 {
        Seq::empty()
    } else if readings.last().is_usable() {
        implied_caps(readings.drop_last()).push(readings.last().implied)
    } else {
        implied_caps(readings.drop_last())
    }
}

/// The cap of the plan: the one in the middle of those that the usable readings imply. None
/// where no reading is usable.
pub fn plan_cap(readings: &Vec<Reading>) -> (r: Option<Real>)
    ensures
        match r {
            Some(cap) => implied_caps(readings@).len() > 0 && is_middle(
                implied_caps(readings@),
                cap,
            ),
            None => implied_caps(readings@).len() == 0,
        },
{
    let mut caps: Vec<Real> = Vec::new();
    assert(readings@.take(0) =~= Seq::empty());
    for i in 0..readings.len()
        invariant
            caps@ == implied_caps(readings@.take(i as int)),
    {
        assert(readings@.take(i + 1).drop_last() =~= readings@.take(i as int));
        if readings[i].usable() {
            caps.push(readings[i].implied);
        }
    }
    assert(readings@.take(readings@.len() as int) =~= readings@);
    middle(caps)
}

/// Whether a logged reading is one of the window from `start` on that says enough about the
/// cap.
pub open spec fn current(f: Fiducial, start: Timestamp) -> bool {
    min_percent().spec_le(f.percent) && start.spec_le(f.ts)
}

/// The position of the latest reading of the window from `start` on that says enough about
/// the cap, among readings in the order in which they were made.
pub fn latest_reading(recent: &Vec<Fiducial>, start: Timestamp) -> (r: Option<usize>)
    ensures
        match r {
            Some(k) => k < recent@.len() && current(recent@[k as int], start) && forall|i: int|
                k < i < recent@.len() ==> !current(#[trigger] recent@[i], start),
            None => forall|i: int| 0 <= i < recent@.len() ==> !current(#[trigger] recent@[i], start),
        },
{
    let mut k: usize = recent.len();
    while k > 0
        invariant
            k <= recent@.len(),
            forall|i: int| k <= i < recent@.len() ==> !current(#[trigger] recent@[i], start),
        decreases k,
    {
        k = k - 1;
        if enough(recent[k].percent) && start.le(recent[k].ts) {
            return Some(k);
        }
    }
    None
}

/// The position of the reading that the used share is anchored to: the last one of the window
/// from `start` on, among readings in the order in which they were made. What the user says
/// is what is shown, however little it says about the cap.
pub fn share_anchor(readings: &Vec<Fiducial>, start: Timestamp) -> (r: Option<usize>)
    ensures
        match r {
            Some(k) => k < readings@.len() && start.spec_le(readings@[k as int].ts) && forall|i: int|
                k < i < readings@.len() ==> !start.spec_le((#[trigger] readings@[i]).ts),
            None => forall|i: int|
                0 <= i < readings@.len() ==> !start.spec_le((#[trigger] readings@[i]).ts),
        },
{
    let mut k: usize = readings.len();
    while k > 0
        invariant
            k <= readings@.len(),
            forall|i: int|
                k <= i < readings@.len() ==> !start.spec_le((#[trigger] readings@[i]).ts),
        decreases k,
    {
        k = k - 1;
        if start.le(readings[k].ts) {
            return Some(k);
        }
    }
    None
}

/// The latest reading of the window: the tokens counted in it up to the reading, the cap
/// that follows, and the least cap that is no outlier, if there is a median.
#[derive(Debug, Clone, Copy, PartialEq, Eq, Structural)]
pub struct LatestCap {
    pub measured: Real,
    pub implied: Real,
    pub floor: Option<Real>,
}

impl LatestCap {
    /// Whether the reading gives the cap: it counts tokens and is no outlier.
    pub open spec fn counts(self) -> bool {
        zero().spec_lt(self.measured) && (self.floor matches Some(f) ==> f.spec_le(self.implied))
    }
}

/// The percentage that the provider reports, and the cap that follows.
#[derive(Debug, Clone, Copy, PartialEq, Eq, Structural)]
pub struct ProviderCap {
    pub percent: Real,
    pub implied: Real,
}

/// A cap, where it comes from, and whether it is to be kept as the last one observed.
#[derive(Debug, Clone)]
pub struct CapDecision {
    pub cap: Option<Real>,
    pub source: Option<String>,
    pub persist: bool,
}

/// Whether a decision is for the given cap and source.
pub open spec fn decides(
    d: CapDecision,
    cap: Option<Real>,
    source: Option<Seq<char>>,
    persist: bool,
) -> bool {
    d.cap == cap && opt_text(d.source) == source && d.persist == persist
}

/// Whether a decision is the right one. The first of these that there is gives the cap: the
/// latest reading of the window, unless it is an outlier; the median of the recent readings;
/// the percentage that the provider reports, if it says enough and anything was consumed; the
/// cap observed last, if it is above zero; what is configured.
pub open spec fn cap_decided(
    d: CapDecision,
    latest: Option<LatestCap>,
    median: Option<Real>,
    provider: Option<ProviderCap>,
    consumed: Real,
    observed: Option<Real>,
    configured: (Option<Real>, Option<Seq<char>>),
) -> bool {
    if latest is Some && latest->0.counts() {
        decides(d, Some(latest->0.implied), Some("fiducial"@), true)
    } else if median is Some {
        decides(d, median, Some("carried"@), true)
    } else if provider is Some && min_percent().spec_le(provider->0.percent) && zero().spec_lt(
        consumed,
    ) {
        decides(d, Some(provider->0.implied), Some("real"@), true)
    } else if observed is Some && zero().spec_lt(observed->0) {
        decides(d, observed, Some("carried"@), false)
    } else {
        decides(d, configured.0, configured.1, false)
    }
}

/// The limit that is configured for a service: a budget for OpenRouter.
pub open spec fn limit_for(s: Services, service: Seq<char>) -> Option<LimitCfg> {
    if service == SERVICE_OPENROUTER@ {
        s.openrouter.weekly_budget
    } else if service == SERVICE_CODEX@ {
        s.codex.weekly_limit
    } else {
        s.claude_code.weekly_limit
    }
}

/// The limit that is configured for a service.
fn configured_limit<'a>(cfg: &'a Config, service: &str) -> (r: &'a Option<LimitCfg>)
    ensures
        *r == limit_for(cfg.services, service@),
{
    if str_eq(service, SERVICE_OPENROUTER) {
        &cfg.services.openrouter.weekly_budget
    } else if str_eq(service, SERVICE_CODEX) {
        &cfg.services.codex.weekly_limit
    } else {
        &cfg.services.claude_code.weekly_limit
    }
}

/// The unit that a service is tracked in: that of its configured limit, else dollars for
/// OpenRouter and tokens for the others.
pub open spec fn unit_for(s: Services, service: Seq<char>) -> Unit {
    let named = match limit_for(s, service) {
        Some(l) => l.unit(),
        None => None,
    };
    match named {
        Some(u) => u,
        None => if service == SERVICE_OPENROUTER@ {
            Unit::Usd
        } else {
            Unit::Tokens
        },
    }
}

/// The unit that a service is tracked in.
pub fn service_unit(cfg: &Config, service: &str) -> (r: Unit)
    ensures
        r == unit_for(cfg.services, service@),
{
    match configured_limit(cfg, service) {
        Some(l) => match l.unit_parsed() {
            Ok(u) => return u,
            Err(_) => {},
        },
        None => {},
    }
    if str_eq(service, SERVICE_OPENROUTER) {
        Unit::Usd
    } else {
        Unit::Tokens
    }
}

/// The next reset of a service's window, if it is known: what the provider reports, else
/// what is kept with the limit.
pub open spec fn reset_of(rl: Option<RateLimitStatus>, row: Option<LimitRow>) -> Option<Timestamp> {
    if rl is Some && rl->0.resets_at is Some {
        rl->0.resets_at
    } else if row is Some {
        row->0.window_reset
    } else {
        None
    }
}

/// The next reset of a service's window, if it is known.
pub fn resolve_reset(rl: &Option<RateLimitStatus>, row: &Option<LimitRow>) -> (r: Option<Timestamp>)
    ensures
        r == reset_of(*rl, *row),
{
    match rl {
        Some(s) => {
            if s.resets_at.is_some() {
                return s.resets_at;
            }
        },
        None => {},
    }
    match row {
        Some(l) => l.window_reset,
        None => None,
    }
}

/// The cap that is kept or configured, and where it comes from: what follows from the
/// percentage that the provider reports, if it and what is consumed are above zero; else the
/// limit that is kept; else the configured limit, if it is in the unit that the service is
/// tracked in.
pub open spec fn kept_cap(
    provider: Option<ProviderCap>,
    row: Option<LimitRow>,
    s: Services,
    service: Seq<char>,
    unit: Unit,
    consumed: Real,
) -> (Option<Real>, Option<Seq<char>>) {
    if provider is Some && zero().spec_lt(provider->0.percent) && zero().spec_lt(consumed) {
        (Some(provider->0.implied), Some("real"@))
    } else if row is Some && row->0.limit_value is Some {
        (row->0.limit_value, Some(row->0.limit_source@))
    } else if limit_for(s, service) is Some && limit_for(s, service)->0.unit() == Some(unit) {
        (Some(limit_for(s, service)->0.value), Some(limit_for(s, service)->0.source@))
    } else {
        (None, None)
    }
}

/// The cap that is kept or configured, and where it comes from.
pub fn resolve_cap(
    provider: Option<ProviderCap>,
    row: &Option<LimitRow>,
    cfg: &Config,
    service: &str,
    unit: Unit,
    consumed: Real,
) -> (r: (Option<Real>, Option<String>))
    ensures
        (r.0, opt_text(r.1)) == kept_cap(provider, *row, cfg.services, service@, unit, consumed),
        provider is None && (*row is None || row->0.limit_value is None) ==> {
            let l = if service@ == SERVICE_OPENROUTER@ {
                cfg.services.openrouter.weekly_budget
            } else if service@ == SERVICE_CODEX@ {
                cfg.services.codex.weekly_limit
            } else {
                cfg.services.claude_code.weekly_limit
            };
            if l is Some && Unit::named(l->0.unit@) == Some(unit) {
                r.0 == Some(l->0.value) && opt_text(r.1) == Some(l->0.source@)
            } else {
                r.0 is None && r.1 is None
            }
        },
{
    match provider {
        Some(p) => {
            if p.percent.positive() && consumed.positive() {
                return (Some(p.implied), Some("real".to_owned()));
            }
        },
        None => {},
    }
    match row {
        Some(l) => match l.limit_value {
            Some(v) => return (Some(v), Some(l.limit_source.clone())),
            None => {},
        },
        None => {},
    }
    match configured_limit(cfg, service) {
        Some(l) => match l.unit_parsed() {
            Ok(u) => {
                if u == unit {
                    return (Some(l.value), Some(l.source.clone()));
                }
            },
            Err(_) => {},
        },
        None => {},
    }
    (None, None)
}

/// The cap of the window.
pub fn resolve_cap_value(
    latest: Option<LatestCap>,
    median: Option<Real>,
    provider: Option<ProviderCap>,
    consumed: Real,
    observed: Option<Real>,
    row: &Option<LimitRow>,
    cfg: &Config,
    service: &str,
    unit: Unit,
) -> (d: CapDecision)
    ensures
        cap_decided(
            d,
            latest,
            median,
            provider,
            consumed,
            observed,
            kept_cap(provider, *row, cfg.services, service@, unit, consumed),
        ),
{
    match latest {
        Some(l) => {
            let above = match l.floor {
                Some(f) => f.le(l.implied),
                None => true,
            };
            if l.measured.positive() && above {
                return CapDecision {
                    cap: Some(l.implied),
                    source: Some("fiducial".to_owned()),
                    persist: true,
                };
            }
        },
        None => {},
    }
    if median.is_some() {
        return CapDecision { cap: median, source: Some("carried".to_owned()), persist: true };
    }
    match provider {
        Some(p) => {
            if enough(p.percent) && consumed.positive() {
                return CapDecision {
                    cap: Some(p.implied),
                    source: Some("real".to_owned()),
                    persist: true,
                };
            }
        },
        None => {},
    }
    match observed {
        Some(c) => {
            if c.positive() {
                return CapDecision {
                    cap: Some(c),
                    source: Some("carried".to_owned()),
                    persist: false,
                };
            }
        },
        None => {},
    }
    let (cap, source) = resolve_cap(provider, row, cfg, service, unit, consumed);
    CapDecision { cap, source, persist: false }
}

/// The key under which the cap observed last is kept.
pub fn observed_cap_key(service: &str) -> (r: String)
    ensures
        r@ == "observed_cap:"@ + service@,
{
    concat("observed_cap:", service)
}

/// Whether a percentage can be logged: above zero and at most a hundred.
pub fn valid_percent(percent: Real) -> (r: bool)
    ensures
        r == (zero().spec_lt(percent) && percent.spec_le(hundred())),
{
    percent.positive() && percent.le(Real { bits: HUNDRED_BITS })
}

/// A reading logged in the current window that counts tokens gives the cap if there is no
/// median to call it an outlier: what the user says is what is shown.
pub proof fn law_latest_reading_gives_the_cap(
    d: CapDecision,
    latest: LatestCap,
    provider: Option<ProviderCap>,
    consumed: Real,
    observed: Option<Real>,
    configured: (Option<Real>, Option<Seq<char>>),
)
    requires
        latest.floor is None,
        zero().spec_lt(latest.measured),
        cap_decided(d, Some(latest), None, provider, consumed, observed, configured),
    ensures
        d.cap == Some(latest.implied),
        d.persist,
{
}

/// Whatever is decided from readings, whether of this window or of those before, is kept, and
/// so carries the cap when there is nothing else: with no reading and no report, a cap that
/// was kept and is above zero stays the cap.
pub proof fn law_cap_survives_reset(
    d: CapDecision,
    next: CapDecision,
    latest: Option<LatestCap>,
    median: Option<Real>,
    provider: Option<ProviderCap>,
    consumed: Real,
    observed: Option<Real>,
    configured: (Option<Real>, Option<Seq<char>>),
    consumed_later: Real,
    configured_later: (Option<Real>, Option<Seq<char>>),
)
    requires
        cap_decided(d, latest, median, provider, consumed, observed, configured),
        d.persist,
        d.cap matches Some(c) && zero().spec_lt(c),
        cap_decided(next, None, None, None, consumed_later, d.cap, configured_later),
    ensures
        next.cap == d.cap,
        opt_text(next.source) == Some("carried"@),
{
}

// ---------------------------------------------------------------------------
// What gives the cap
// ---------------------------------------------------------------------------

/// Each service has the limit that is configured for it and no other: with no report of the
/// provider and no stored limit, a limit in the unit the service is tracked in is the cap, with
/// its value and source, and without one there is no cap.
pub proof fn law_configured_limit(row: Option<LimitRow>, s: Services, unit: Unit, consumed: Real)
    requires
        row matches Some(l) ==> l.limit_value is None,
    ensures
        ({
            let r = kept_cap(None, row, s, SERVICE_CLAUDE_CODE@, unit, consumed);
            let l = s.claude_code.weekly_limit;
            &&& l is Some && Unit::named(l->0.unit@) == Some(unit) ==> r.0 == Some(l->0.value) && r.1
                == Some(l->0.source@)
            &&& l is None || Unit::named(l->0.unit@) != Some(unit) ==> r.0 is None && r.1 is None
        }),
        ({
            let r = kept_cap(None, row, s, SERVICE_CODEX@, unit, consumed);
            let l = s.codex.weekly_limit;
            &&& l is Some && Unit::named(l->0.unit@) == Some(unit) ==> r.0 == Some(l->0.value) && r.1
                == Some(l->0.source@)
            &&& l is None || Unit::named(l->0.unit@) != Some(unit) ==> r.0 is None && r.1 is None
        }),
        ({
            let r = kept_cap(None, row, s, SERVICE_OPENROUTER@, unit, consumed);
            let l = s.openrouter.weekly_budget;
            &&& l is Some && Unit::named(l->0.unit@) == Some(unit) ==> r.0 == Some(l->0.value) && r.1
                == Some(l->0.source@)
            &&& l is None || Unit::named(l->0.unit@) != Some(unit) ==> r.0 is None && r.1 is None
        }),
{
    law_service_names();
}

/// A limit that is stored wins over what is configured, with its own value and source, and a
/// percentage that the provider reports over both, as soon as anything was consumed. This
/// holds for every service alike.
pub proof fn law_kept_cap(
    p: ProviderCap,
    row: Option<LimitRow>,
    s: Services,
    other: Services,
    service: Seq<char>,
    unit: Unit,
    consumed: Real,
)
    ensures
        row is Some && row->0.limit_value is Some ==> {
            let r = kept_cap(None, row, s, service, unit, consumed);
            r.0 == row->0.limit_value && r.1 == Some(row->0.limit_source@)
        },
        zero().spec_lt(p.percent) && zero().spec_lt(consumed) ==> kept_cap(
            Some(p),
            row,
            s,
            service,
            unit,
            consumed,
        ) == (Some(p.implied), Some("real"@)),
        !zero().spec_lt(p.percent) || !zero().spec_lt(consumed) ==> kept_cap(
            Some(p),
            row,
            s,
            service,
            unit,
            consumed,
        ) == kept_cap(None, row, s, service, unit, consumed),
        row is Some && row->0.limit_value is Some ==> kept_cap(None, row, s, service, unit, consumed)
            == kept_cap(None, row, other, service, unit, consumed),
{
}

/// A service is tracked in the unit of the limit configured for it, where that names one, else
/// in dollars for OpenRouter and in tokens for the logs.
pub proof fn law_unit_of_service(s: Services)
    ensures
        s.claude_code.weekly_limit matches Some(l) ==> Unit::named(l.unit@) matches Some(u) ==> unit_for(
            s,
            SERVICE_CLAUDE_CODE@,
        ) == u,
        s.codex.weekly_limit matches Some(l) ==> Unit::named(l.unit@) matches Some(u) ==> unit_for(
            s,
            SERVICE_CODEX@,
        ) == u,
        s.openrouter.weekly_budget matches Some(l) ==> Unit::named(l.unit@) matches Some(u) ==> unit_for(
            s,
            SERVICE_OPENROUTER@,
        ) == u,
        s.claude_code.weekly_limit is None || Unit::named(s.claude_code.weekly_limit->0.unit@) is None
            ==> unit_for(s, SERVICE_CLAUDE_CODE@) == Unit::Tokens,
        s.codex.weekly_limit is None || Unit::named(s.codex.weekly_limit->0.unit@) is None ==> unit_for(
            s,
            SERVICE_CODEX@,
        ) == Unit::Tokens,
        s.openrouter.weekly_budget is None || Unit::named(s.openrouter.weekly_budget->0.unit@) is None
            ==> unit_for(s, SERVICE_OPENROUTER@) == Unit::Usd,
{
    law_service_names();
}

/// The reset that the provider reports wins over the one that is stored, which counts where the
/// provider reports none.
pub proof fn law_reset(rl: Option<RateLimitStatus>, row: Option<LimitRow>)
    ensures
        rl matches Some(s) ==> s.resets_at matches Some(t) ==> reset_of(rl, row) == Some(t),
        (rl is None || rl->0.resets_at is None) ==> {
            &&& row matches Some(l) ==> reset_of(rl, row) == l.window_reset
            &&& row is None ==> reset_of(rl, row) is None
        },
{
}

/// The cap comes from the first that there is, in this order, and from no other: the latest
/// reading, unless it counts nothing or is below the floor; the median; the provider; the cap
/// observed last; what is configured. The first three are kept.
pub proof fn law_order_of_caps(
    d: CapDecision,
    latest: Option<LatestCap>,
    median: Option<Real>,
    provider: Option<ProviderCap>,
    consumed: Real,
    observed: Option<Real>,
    configured: (Option<Real>, Option<Seq<char>>),
)
    requires
        cap_decided(d, latest, median, provider, consumed, observed, configured),
    ensures
        ({
            let read = latest matches Some(l) && zero().spec_lt(l.measured) && (l.floor matches Some(f)
                ==> f.spec_le(l.implied));
            let reported = provider matches Some(p) && (Real { bits: CAP_MIN_PERCENT }).spec_le(
                p.percent,
            ) && zero().spec_lt(consumed);
            let seen = observed matches Some(c) && zero().spec_lt(c);
            &&& read ==> d.cap == Some(latest->0.implied) && opt_text(d.source) == Some("fiducial"@)
                && d.persist
            &&& !read && median is Some ==> d.cap == median && opt_text(d.source) == Some("carried"@)
                && d.persist
            &&& !read && median is None && reported ==> d.cap == Some(provider->0.implied)
                && opt_text(d.source) == Some("real"@) && d.persist
            &&& !read && median is None && !reported && seen ==> d.cap == observed && opt_text(
                d.source,
            ) == Some("carried"@) && !d.persist
            &&& !read && median is None && !reported && !seen ==> d.cap == configured.0 && opt_text(
                d.source,
            ) == configured.1 && !d.persist
        }),
{
}

/// Readings from three percent on that count tokens are usable, and no others; each gives its
/// own cap, in order.
pub proof fn law_usable_readings(a: Seq<Reading>, b: Seq<Reading>, r: Reading)
    ensures
        r.is_usable() <==> (Real { bits: CAP_MIN_PERCENT }).spec_le(r.percent) && zero().spec_lt(
            r.measured,
        ),
        r.is_usable() ==> implied_caps(seq![r]) == seq![r.implied],
        !r.is_usable() ==> implied_caps(seq![r]).len() == 0,
        implied_caps(a + b) == implied_caps(a) + implied_caps(b),
    decreases b.len(),
{
    assert(seq![r].drop_last() =~= Seq::<Reading>::empty());
    assert(implied_caps(Seq::<Reading>::empty()) =~= Seq::empty());
    assert(implied_caps(seq![r]) =~= if r.is_usable() {
        seq![r.implied]
    } else {
        Seq::empty()
    });
    if b.len() == 0 {
        assert(a + b =~= a);
        assert(implied_caps(a) + implied_caps(b) =~= implied_caps(a));
    } else {
        law_usable_readings(a, b.drop_last(), r);
        assert((a + b).drop_last() =~= a + b.drop_last());
        assert((a + b).last() == b.last());
        assert(implied_caps(a + b) =~= implied_caps(a) + implied_caps(b));
    }
}

/// A reading can give the cap of a window from its start on, if it is of three percent or more.
pub proof fn law_current_reading(f: Fiducial, start: Timestamp)
    ensures
        current(f, start) <==> (Real { bits: CAP_MIN_PERCENT }).spec_le(f.percent) && !f.ts.spec_lt(
            start,
        ),
{
}

/// Readings count for three weeks.
pub proof fn law_carry()
    ensures
        CAP_CARRY_DAYS == 3 * 7,
        min_percent().bits == 0x4008_0000_0000_0000,
        CAP_OUTLIER_FRAC == 0x3fd9_9999_9999_999a,
{
}

} // verus!
