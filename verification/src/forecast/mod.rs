//! The forecast of a weekly window.
//!
//! Use is modelled as a process whose rate depends on the day of the week and the hour. The
//! cap of a window and the share of it that is used rest on the readings that the user logs.
//! Quotients and sums of doubles are worked out by the caller; which of them count, and what
//! they say, is decided here.

pub mod cap;
pub mod cumulative;
pub mod median;
pub mod rate;
pub mod window;

use crate::config::Config;
use crate::db::{Fiducial, LimitRow};
use crate::forecast::cumulative::TokenCumPoint;
use crate::forecast::rate::RateModel;
use crate::forecast::window::{
    cone_time, cone_times, eta_after, has_room, horizon_end, horizon_of, low_confidence,
    service_window, tracked_window, week_before, CONE_STEPS, MAX_SPAN, WEEK,
};
use crate::models::{Forecast, Unit, SERVICE_CLAUDE_CODE, SERVICE_CODEX, SERVICE_OPENROUTER};
use crate::number::{one, zero, Real, ONE_BITS};
use crate::text::{opt_str, opt_text};
use crate::time::{parse_dt, rfc3339_instant, Timestamp, HOUR, MAX_SECS, MIN_SECS};
use vstd::prelude::*;

verus! {

/// The outcome of a projection.
#[derive(Debug, Clone)]
pub struct ForecastCore {
    pub projected: Real,
    pub pct_now: Option<Real>,
    pub pct_projected: Option<Real>,
    pub status: String,
    pub eta_to_limit: Option<Timestamp>,
    pub forecast_model: String,
}

/// What a projected share says: nothing where there is none, else how it stands to the two
/// thresholds.
pub open spec fn status_of(pct_projected: Option<Real>, warn: Real, danger: Real) -> Seq<char> {
    match pct_projected {
        None => "unknown"@,
        Some(p) => if p.spec_lt(warn) {
            "green"@
        } else if p.spec_lt(danger) {
            "amber"@
        } else {
            "red"@
        },
    }
}

/// What a projected share says.
pub fn status_for(pct_projected: Option<Real>, warn: Real, danger: Real) -> (r: String)
    ensures
        r@ == status_of(pct_projected, warn, danger),
{
    match pct_projected {
        None => "unknown".to_owned(),
        Some(p) => if p.lt(warn) {
            "green".to_owned()
        } else if p.lt(danger) {
            "amber".to_owned()
        } else {
            "red".to_owned()
        },
    }
}

/// How serious a status is.
pub open spec fn severity(status: Seq<char>) -> int {
    if status == "green"@ {
        1
    } else if status == "amber"@ {
        2
    } else if status == "red"@ {
        3
    } else {
        0
    }
}

/// A share is green below the first threshold, red from the second on, and amber in between;
/// a larger share is never less serious.
pub proof fn law_status_bands(p: Real, q: Real, warn: Real, danger: Real)
    requires
        !p.is_nan(),
        !q.is_nan(),
        !warn.is_nan(),
        !danger.is_nan(),
        p.spec_le(q),
    ensures
        severity(status_of(Some(p), warn, danger)) <= severity(status_of(Some(q), warn, danger)),
        severity(status_of(None, warn, danger)) == 0,
        severity(status_of(Some(p), warn, danger)) == 1 <==> p.spec_lt(warn),
        severity(status_of(Some(p), warn, danger)) == 2 <==> warn.spec_le(p) && p.spec_lt(danger),
        severity(status_of(Some(p), warn, danger)) == 3 <==> warn.spec_le(p) && danger.spec_le(p),
{
    reveal_strlit("green");
    reveal_strlit("amber");
    reveal_strlit("red");
    reveal_strlit("unknown");
    assert("green"@[0] != "amber"@[0]);
    assert("unknown"@.len() == 7 && "green"@.len() == 5 && "amber"@.len() == 5 && "red"@.len() == 3);
}

// ---------------------------------------------------------------------------
// Linear projection
// ---------------------------------------------------------------------------

/// The seconds of a window that have passed at `now` and those that remain, never negative.
pub fn linear_spans(start: Timestamp, end: Timestamp, now: Timestamp) -> (r: (i64, i64))
    requires
        start.wf(),
        end.wf(),
        now.wf(),
    ensures
        r.0 == not_negative(now.spec_seconds_since(start)),
        r.1 == not_negative(end.spec_seconds_since(now)),
{
    let elapsed: i64 = now.seconds_since(start);
    let remaining: i64 = end.seconds_since(now);
    (
        if elapsed < 0 {
            0
        } else {
            elapsed
        },
        if remaining < 0 {
            0
        } else {
            remaining
        },
    )
}

/// A number, zero in place of a negative one.
pub open spec fn not_negative(x: int) -> int {
    if x < 0 {
        0
    } else {
        x
    }
}

/// The figures of a linear projection, as far as they are defined: what is consumed with the
/// burn rate times the remaining seconds, the burn rate per second passed, the shares of the
/// limit that are consumed and projected, and the whole seconds from the start after which the
/// limit is reached.
#[derive(Debug, Clone, Copy, PartialEq, Eq, Structural)]
pub struct LinearFigures {
    pub projected: Real,
    pub burn: Real,
    pub pct_now: Real,
    pub pct_projected: Real,
    pub secs_to_limit: i64,
}

/// Whether there is a limit to take shares of.
pub open spec fn has_limit(limit: Option<Real>) -> bool {
    limit is Some && zero().spec_lt(limit->0)
}

/// Whether use leads to a limit at all: time has passed, and neither what is consumed nor the
/// burn rate is zero or less.
pub open spec fn burns(consumed: Real, limit: Option<Real>, elapsed: int, burn: Real) -> bool {
    limit is Some && elapsed > 0 && !consumed.spec_le(zero()) && !burn.spec_le(zero())
}

/// The linear projection: use goes on as it was from the start. Without time passed nothing
/// is added; without a limit above zero there are no shares.
pub fn linear(
    consumed: Real,
    limit: Option<Real>,
    start: Timestamp,
    now: Timestamp,
    warn: Real,
    danger: Real,
    f: LinearFigures,
) -> (r: ForecastCore)
    requires
        start.wf(),
        now.wf(),
        burns(consumed, limit, now.spec_seconds_since(start), f.burn) ==> -MAX_SPAN
            <= f.secs_to_limit <= MAX_SPAN,
    ensures
        r.projected == if now.spec_seconds_since(start) > 0 {
            f.projected
        } else {
            consumed
        },
        r.pct_now == if has_limit(limit) {
            Some(f.pct_now)
        } else {
            None
        },
        r.pct_projected == if has_limit(limit) {
            Some(f.pct_projected)
        } else {
            None
        },
        r.status@ == status_of(r.pct_projected, warn, danger),
        r.eta_to_limit == if burns(consumed, limit, now.spec_seconds_since(start), f.burn)
            && start.can_shift(f.secs_to_limit as int) {
            Some(start.shifted(f.secs_to_limit as int))
        } else {
            None
        },
        r.forecast_model@ == "linear"@,
{
    let elapsed: i64 = now.seconds_since(start);
    let limited = match limit {
        Some(l) => l.positive(),
        None => false,
    };
    let pct_now = if limited {
        Some(f.pct_now)
    } else {
        None
    };
    let pct_projected = if limited {
        Some(f.pct_projected)
    } else {
        None
    };
    let nought = Real { bits: 0 };
    let eta_to_limit = if limit.is_some() && elapsed > 0 && !consumed.le(nought) && !f.burn.le(
        nought,
    ) {
        eta_after(start, f.secs_to_limit)
    } else {
        None
    };
    let projected = if elapsed > 0 {
        f.projected
    } else {
        consumed
    };
    ForecastCore {
        projected,
        pct_now,
        pct_projected,
        status: status_for(pct_projected, warn, danger),
        eta_to_limit,
        forecast_model: "linear".to_owned(),
    }
}

// ---------------------------------------------------------------------------
// The forecast of a service
// ---------------------------------------------------------------------------

/// How use up to the horizon is projected.
#[derive(Debug, Clone, Copy, PartialEq, Eq, Structural)]
pub enum Projection {
    /// By the rates of the history, added to what is consumed.
    Rates,
    /// By the rates of the history, without what leaves the rolling window.
    RatesWithoutRolledOff,
    /// As what is consumed: there is no history for a rolling window.
    Level,
    /// By the linear projection: there is no history for a fixed window.
    Linear,
}

/// How use up to the horizon is projected, with or without history and for a rolling or a
/// fixed window.
pub open spec fn projection_by(has_data: bool, rolling: bool) -> Projection {
    match (has_data, rolling) {
        (true, false) => Projection::Rates,
        (true, true) => Projection::RatesWithoutRolledOff,
        (false, true) => Projection::Level,
        (false, false) => Projection::Linear,
    }
}

/// How use up to the horizon is projected.
pub fn projection_of(has_data: bool, rolling: bool) -> (r: Projection)
    ensures
        r == projection_by(has_data, rolling),
{
    if has_data {
        if rolling {
            Projection::RatesWithoutRolledOff
        } else {
            Projection::Rates
        }
    } else if rolling {
        Projection::Level
    } else {
        Projection::Linear
    }
}

/// The figures of a forecast, as far as they are defined: what the projection gives, the shares
/// of the cap that are used and projected, use per second, and the whole seconds until the cap
/// is used up at that rate.
#[derive(Debug, Clone, Copy, PartialEq, Eq, Structural)]
pub struct ForecastFigures {
    pub projected: Real,
    pub pct_now: Real,
    pub pct_projected: Real,
    pub burn_per_sec: Real,
    pub secs_left: i64,
}

/// What is projected, of the figure that the projection gives: never less than zero by the
/// rates, what is consumed where there is nothing to project from, and the figure as it is by
/// the linear projection, unless it is below zero although nothing consumed is.
pub open spec fn projected_by(p: Projection, consumed: Real, figure: Real) -> Real {
    match p {
        Projection::Rates | Projection::RatesWithoutRolledOff => if zero().spec_le(figure) {
            figure
        } else {
            zero()
        },
        Projection::Level => consumed,
        Projection::Linear => if zero().spec_le(consumed) && figure.spec_lt(zero()) {
            zero()
        } else {
            figure
        },
    }
}

/// What is projected.
fn project(p: Projection, consumed: Real, figure: Real) -> (r: Real)
    ensures
        r == projected_by(p, consumed, figure),
{
    let nought = Real { bits: 0 };
    match p {
        Projection::Rates | Projection::RatesWithoutRolledOff => if nought.le(figure) {
            figure
        } else {
            nought
        },
        Projection::Level => consumed,
        Projection::Linear => if nought.le(consumed) && figure.lt(nought) {
            nought
        } else {
            figure
        },
    }
}

/// The name of the model that makes a projection.
pub open spec fn model_name(p: Projection) -> Seq<char> {
    if p == Projection::Linear {
        "linear"@
    } else {
        "point_process"@
    }
}

/// Whether the cap is ahead and use leads to it.
pub open spec fn cap_ahead(cap: Option<Real>, f: ForecastFigures) -> bool {
    has_limit(cap) && f.pct_now.spec_lt(one()) && zero().spec_lt(f.burn_per_sec)
}

/// Whether a projection cannot be relied on yet.
pub open spec fn unreliable(now: Timestamp, start: Timestamp, rolling: bool, consumed: Real) -> bool {
    if rolling {
        consumed.spec_le(zero())
    } else {
        now.spec_seconds_since(start) < 24 * HOUR
    }
}

/// The time at which the cap is used up: none where it is not ahead or past the calendar.
pub open spec fn eta_of(cap: Option<Real>, f: ForecastFigures, now: Timestamp) -> Option<Timestamp> {
    if cap_ahead(cap, f) && f.secs_left >= 0 && now.can_shift(f.secs_left as int) {
        Some(now.shifted(f.secs_left as int))
    } else {
        None
    }
}

/// Whether a forecast says what follows from what is given: the shares that are used and
/// projected where there is a cap to take them of, the time at which the cap is used up where
/// it is ahead, never before `now`, the model that made the projection, and no status where
/// the projection cannot be relied on.
pub open spec fn is_forecast(
    r: Forecast,
    service: Seq<char>,
    unit: Unit,
    consumed: Real,
    cap: Option<Real>,
    cap_source: Option<Seq<char>>,
    has_data: bool,
    rolling: bool,
    now: Timestamp,
    warn: Real,
    danger: Real,
    f: ForecastFigures,
) -> bool {
    &&& r.service@ == service
    &&& r.window_kind@ == "weekly"@
    &&& r.unit == unit
    &&& r.consumed == consumed
    &&& r.limit == cap
    &&& opt_text(r.limit_source) == cap_source
    &&& r.pct_now == if has_limit(cap) {
        Some(f.pct_now)
    } else {
        None
    }
    &&& r.projected == projected_by(projection_by(has_data, rolling), consumed, f.projected)
    &&& r.pct_projected == if has_limit(cap) {
        Some(f.pct_projected)
    } else {
        None
    }
    &&& r.low_confidence == unreliable(now, r.window_start, rolling, consumed)
    &&& r.status@ == if r.low_confidence {
        "unknown"@
    } else {
        status_of(r.pct_projected, warn, danger)
    }
    &&& r.eta_to_limit == eta_of(cap, f, now)
    &&& r.forecast_model@ == model_name(projection_by(has_data, rolling))
}

/// The forecast of a service over a given window, with or without history to project from.
pub fn forecast_service(
    service: &str,
    unit: Unit,
    consumed: Real,
    cap: Option<Real>,
    cap_source: Option<String>,
    has_data: bool,
    window: (Timestamp, Timestamp, bool),
    now: Timestamp,
    warn: Real,
    danger: Real,
    f: ForecastFigures,
) -> (r: Forecast)
    requires
        window.0.wf(),
        window.1.wf(),
        now.wf(),
        cap_ahead(cap, f) ==> f.secs_left <= MAX_SPAN,
    ensures
        r.window_start == window.0,
        r.window_end == window.1,
        is_forecast(
            r,
            service@,
            unit,
            consumed,
            cap,
            opt_text(cap_source),
            has_data,
            window.2,
            now,
            warn,
            danger,
            f,
        ),
{
    let limited = has_share(cap);
    let (pct_now, pct_projected) = if limited {
        (Some(f.pct_now), Some(f.pct_projected))
    } else {
        (None, None)
    };
    let nothing = consumed.le(Real { bits: 0 });
    let low = low_confidence(now, window.0, window.2, nothing);
    let status = if low {
        "unknown".to_owned()
    } else {
        status_for(pct_projected, warn, danger)
    };
    let below = f.pct_now.lt(Real { bits: ONE_BITS });
    let eta_to_limit = if limited && below && f.burn_per_sec.positive() && f.secs_left >= 0 {
        eta_after(now, f.secs_left)
    } else {
        None
    };
    let p = projection_of(has_data, window.2);
    let forecast_model = match p {
        Projection::Linear => "linear".to_owned(),
        _ => "point_process".to_owned(),
    };
    Forecast {
        service: service.to_owned(),
        window_kind: "weekly".to_owned(),
        unit,
        consumed,
        limit: cap,
        limit_source: cap_source,
        pct_now,
        projected: project(p, consumed, f.projected),
        pct_projected,
        status,
        eta_to_limit,
        window_start: window.0,
        window_end: window.1,
        forecast_model,
        low_confidence: low,
    }
}

/// The forecast of a service at `now`, over the window that the next reset fixes where it is
/// known, else over the week up to `now`.
pub fn forecast_at(
    service: &str,
    unit: Unit,
    consumed: Real,
    cap: Option<Real>,
    cap_source: Option<String>,
    has_data: bool,
    reset: Option<Timestamp>,
    now: Timestamp,
    warn: Real,
    danger: Real,
    f: ForecastFigures,
) -> (r: Forecast)
    requires
        has_room(now),
        reset matches Some(t) ==> week_before(t),
        cap_ahead(cap, f) ==> f.secs_left <= MAX_SPAN,
    ensures
        tracked_window(now, reset, (r.window_start, r.window_end, reset is None)),
        is_forecast(
            r,
            service@,
            unit,
            consumed,
            cap,
            opt_text(cap_source),
            has_data,
            reset is None,
            now,
            warn,
            danger,
            f,
        ),
{
    let window = service_window(now, reset);
    forecast_service(
        service,
        unit,
        consumed,
        cap,
        cap_source,
        has_data,
        window,
        now,
        warn,
        danger,
        f,
    )
}

/// Where nothing consumed is below zero, nothing projected is, unless the linear projection
/// gives no number. The cap is used up only where it is ahead, and never before `now`.
pub proof fn law_forecast_is_sound(
    has_data: bool,
    rolling: bool,
    consumed: Real,
    cap: Option<Real>,
    now: Timestamp,
    f: ForecastFigures,
)
    requires
        now.wf(),
        zero().spec_le(consumed),
    ensures
        ({
            let x = projected_by(projection_by(has_data, rolling), consumed, f.projected);
            zero().spec_le(x) || (x.is_nan() && !has_data && !rolling)
        }),
        eta_of(cap, f, now) matches Some(t) ==> now.spec_le(t) && has_limit(cap)
            && f.pct_now.spec_lt(one()),
{
}

/// Whether the share that is used can be told: there is a cap above zero to take it of.
pub fn has_share(cap: Option<Real>) -> (r: bool)
    ensures
        r == has_limit(cap),
{
    match cap {
        Some(c) => c.positive(),
        None => false,
    }
}

// ---------------------------------------------------------------------------
// The cumulative view
// ---------------------------------------------------------------------------

/// A point of the projection: its middle and its bounds.
#[derive(Debug, Clone, Copy, PartialEq, Eq, Structural)]
pub struct ConePoint {
    pub ts: Timestamp,
    pub lo: Real,
    pub mid: Real,
    pub hi: Real,
}

/// A logged reading.
#[derive(Debug, Clone, Copy, PartialEq, Eq, Structural)]
pub struct FiducialPoint {
    pub ts: Timestamp,
    pub percent: Real,
}

/// Everything that the chart of a window shows.
#[derive(Debug, Clone)]
pub struct Cumulative {
    pub service: String,
    pub unit: Unit,
    /// `fixed` or `rolling`.
    pub mode: String,
    pub window_start: Timestamp,
    pub window_end: Timestamp,
    pub now: Timestamp,
    pub cap: Option<Real>,
    pub cap_source: Option<String>,
    pub consumed: Real,
    pub projected: Real,
    pub pct_now: Option<Real>,
    pub pct_projected: Option<Real>,
    pub status: String,
    pub eta_to_limit: Option<Timestamp>,
    pub forecast_model: String,
    pub low_confidence: bool,
    /// The tokens at a hundred percent: none until a reading is logged.
    pub axis_cap: Option<Real>,
    pub models: Vec<String>,
    pub token_points: Vec<TokenCumPoint>,
    /// The projection in percent of the cap.
    pub cone_pct: Vec<ConePoint>,
    pub fiducials: Vec<FiducialPoint>,
    pub pace_weekly: Real,
    pub pace_sigma: Real,
    /// Tokens counted on this device, and those estimated to have been used elsewhere, in
    /// all and per hour.
    pub on_device_tokens: Real,
    pub off_device_tokens: Real,
    pub off_device_rate: Real,
}

/// The readings as points, and their times.
pub fn fiducial_points(raw: &Vec<Fiducial>) -> (r: (Vec<FiducialPoint>, Vec<Timestamp>))
    ensures
        r.0@.len() == raw@.len(),
        r.1@.len() == raw@.len(),
        forall|i: int|
            0 <= i < raw@.len() ==> (#[trigger] r.0@[i]).ts == raw@[i].ts && r.0@[i].percent
                == raw@[i].percent,
        forall|i: int| 0 <= i < raw@.len() ==> #[trigger] r.1@[i] == raw@[i].ts,
{
    let mut points: Vec<FiducialPoint> = Vec::new();
    let mut times: Vec<Timestamp> = Vec::new();
    for k in 0..raw.len()
        invariant
            points@.len() == k,
            times@.len() == k,
            forall|i: int|
                0 <= i < k ==> (#[trigger] points@[i]).ts == raw@[i].ts && points@[i].percent
                    == raw@[i].percent,
            forall|i: int| 0 <= i < k ==> #[trigger] times@[i] == raw@[i].ts,
    {
        points.push(FiducialPoint { ts: raw[k].ts, percent: raw[k].percent });
        times.push(raw[k].ts);
    }
    (points, times)
}

/// The figures of a point of the projection, in percent of the cap.
#[derive(Debug, Clone, Copy, PartialEq, Eq, Structural)]
pub struct ConeFigures {
    pub lo: Real,
    pub mid: Real,
    pub hi: Real,
}

/// A point of the projection `span` seconds ahead: its bounds are the figures, as far as they
/// lie on their side of the middle.
pub open spec fn fan_point(now: Timestamp, span: int, i: int, f: ConeFigures) -> ConePoint {
    ConePoint {
        ts: cone_time(now, span, i),
        lo: if f.lo.spec_le(f.mid) {
            f.lo
        } else {
            f.mid
        },
        mid: f.mid,
        hi: if f.mid.spec_le(f.hi) {
            f.hi
        } else {
            f.mid
        },
    }
}

/// Whether points are the projection from `now` to the horizon: one at the start and at the
/// end of each step, none where the horizon is not a second away or the figures are not those
/// of every point.
pub open spec fn is_fan(
    points: Seq<ConePoint>,
    now: Timestamp,
    horizon: Timestamp,
    figures: Seq<ConeFigures>,
) -> bool {
    let span = horizon.spec_seconds_since(now);
    if span > 0 && figures.len() == CONE_STEPS + 1 {
        &&& points.len() == CONE_STEPS + 1
        &&& forall|i: int|
            0 <= i < points.len() ==> #[trigger] points[i] == fan_point(now, span, i, figures[i])
    } else {
        points.len() == 0
    }
}

/// The projection from `now` to the horizon.
pub fn cone_points(now: Timestamp, horizon: Timestamp, figures: &Vec<ConeFigures>) -> (r: Vec<
    ConePoint,
>)
    requires
        now.wf(),
        horizon.wf(),
        horizon.secs < MAX_SECS,
    ensures
        is_fan(r@, now, horizon, figures@),
{
    let times = cone_times(now, horizon);
    let mut out: Vec<ConePoint> = Vec::new();
    if times.len() != figures.len() {
        return out;
    }
    let ghost span = horizon.spec_seconds_since(now);
    for i in 0..times.len()
        invariant
            span == horizon.spec_seconds_since(now),
            times@.len() == figures@.len(),
            forall|k: int| 0 <= k < times@.len() ==> #[trigger] times@[k] == cone_time(now, span, k),
            out@.len() == i,
            forall|k: int| 0 <= k < i ==> #[trigger] out@[k] == fan_point(now, span, k, figures@[k]),
    {
        let f = figures[i];
        let lo = if f.lo.le(f.mid) {
            f.lo
        } else {
            f.mid
        };
        let hi = if f.mid.le(f.hi) {
            f.hi
        } else {
            f.mid
        };
        assert(times@[i as int] == cone_time(now, span, i as int));
        out.push(ConePoint { ts: times[i], lo, mid: f.mid, hi });
    }
    out
}

/// A projection that is drawn has a point at the start and the end of each of its steps, none
/// of them with bounds on the wrong side of the middle. It starts at `now` and, between whole
/// seconds, ends at the horizon.
pub proof fn law_fan(
    points: Seq<ConePoint>,
    now: Timestamp,
    horizon: Timestamp,
    figures: Seq<ConeFigures>,
    i: int,
)
    requires
        is_fan(points, now, horizon, figures),
        points.len() > 0,
        0 <= i < points.len(),
    ensures
        points.len() == CONE_STEPS + 1,
        points[0].ts == now,
        now.nanos == 0 && horizon.nanos == 0 ==> points.last().ts == horizon,
        !points[i].mid.is_nan() ==> points[i].lo.spec_le(points[i].mid) && points[i].mid.spec_le(
            points[i].hi,
        ),
{
    let span = horizon.spec_seconds_since(now);
    assert(points[i] == fan_point(now, span, i, figures[i]));
    assert(points[0] == fan_point(now, span, 0, figures[0]));
    assert(points[48] == fan_point(now, span, 48, figures[48]));
    assert(span * 0 / 48 == 0);
    assert(span * 48 / 48 == span);
    if now.nanos == 0 && horizon.nanos == 0 {
        assert(span == horizon.secs - now.secs);
    }
}

/// The cumulative view of a forecast: its own figures, the cap as the scale of the axis once a
/// reading is logged, the curve of the tokens, the readings, and the projection in percent
/// where there is history, a cap and a share to start from.
pub fn cumulative_view(
    f: Forecast,
    rolling: bool,
    now: Timestamp,
    models: Vec<String>,
    token_points: Vec<TokenCumPoint>,
    model: &RateModel,
    cone: &Vec<ConeFigures>,
    fiducials: Vec<FiducialPoint>,
    logged: bool,
    pace: (Real, Real),
) -> (r: Cumulative)
    requires
        now.wf(),
        f.window_end.wf(),
        rolling ==> now.can_shift(WEEK as int),
        horizon_of(now, f.window_end, rolling).secs < MAX_SECS,
    ensures
        r.service == f.service,
        r.unit == f.unit,
        r.mode@ == if rolling {
            "rolling"@
        } else {
            "fixed"@
        },
        r.window_start == f.window_start,
        r.window_end == f.window_end,
        r.now == now,
        r.cap == f.limit,
        r.cap_source == f.limit_source,
        r.consumed == f.consumed,
        r.projected == f.projected,
        r.pct_now == f.pct_now,
        r.pct_projected == f.pct_projected,
        r.status == f.status,
        r.eta_to_limit == f.eta_to_limit,
        r.forecast_model == f.forecast_model,
        r.low_confidence == f.low_confidence,
        r.axis_cap == if logged {
            f.limit
        } else {
            None
        },
        r.models == models,
        r.token_points == token_points,
        if has_limit(f.limit) && f.pct_now is Some && model.is_fitted() {
            is_fan(r.cone_pct@, now, horizon_of(now, f.window_end, rolling), cone@)
        } else {
            r.cone_pct@.len() == 0
        },
        r.fiducials == fiducials,
        r.pace_weekly == pace.0,
        r.pace_sigma == pace.1,
        r.on_device_tokens == f.consumed,
        r.off_device_tokens == zero(),
        r.off_device_rate == zero(),
{
    let mode = if rolling {
        "rolling".to_owned()
    } else {
        "fixed".to_owned()
    };
    let cone_pct = if has_share(f.limit) && f.pct_now.is_some() && model.has_data() {
        cone_points(now, horizon_end(now, f.window_end, rolling), cone)
    } else {
        Vec::new()
    };
    let axis_cap = if logged {
        f.limit
    } else {
        None
    };
    Cumulative {
        service: f.service,
        unit: f.unit,
        mode,
        window_start: f.window_start,
        window_end: f.window_end,
        now,
        cap: f.limit,
        cap_source: f.limit_source,
        consumed: f.consumed,
        projected: f.projected,
        pct_now: f.pct_now,
        pct_projected: f.pct_projected,
        status: f.status,
        eta_to_limit: f.eta_to_limit,
        forecast_model: f.forecast_model,
        low_confidence: f.low_confidence,
        axis_cap,
        models,
        token_points,
        cone_pct,
        fiducials,
        pace_weekly: pace.0,
        pace_sigma: pace.1,
        on_device_tokens: f.consumed,
        off_device_tokens: Real { bits: 0 },
        off_device_rate: Real { bits: 0 },
    }
}

// ---------------------------------------------------------------------------
// Logging a reading
// ---------------------------------------------------------------------------

/// What keeps a reading from giving a cap.
#[derive(Debug, Clone, Copy, PartialEq, Eq, Structural)]
pub enum AnchorError {
    /// The percentage is not one that can be logged.
    Percent,
    /// The reading is logged, but no reading gives a cap yet.
    NoCap,
    /// The text of the reset names no instant.
    Reset,
}

impl AnchorError {
    /// The message of the error.
    pub open spec fn text(self) -> Seq<char> {
        match self {
            AnchorError::Percent => "percent must be in (0, 100]"@,
            AnchorError::NoCap => "recorded, but no usable reading yet to derive a cap from"@,
            AnchorError::Reset => "could not parse --resets-at (use ISO-8601, e.g. 2026-08-28T00:00:00Z)"@,
        }
    }

    /// The message of the error.
    pub fn message(&self) -> (r: &'static str)
        ensures
            r@ == self.text(),
    {
        match self {
            AnchorError::Percent => "percent must be in (0, 100]",
            AnchorError::NoCap => "recorded, but no usable reading yet to derive a cap from",
            AnchorError::Reset => "could not parse --resets-at (use ISO-8601, e.g. 2026-08-28T00:00:00Z)",
        }
    }
}

/// The reset that the user gives, if they give one: a text that names no instant is refused.
pub fn given_reset(text: Option<&str>) -> (r: Result<Option<Timestamp>, AnchorError>)
    ensures
        r == match opt_str(text) {
            Some(s) => match rfc3339_instant(s) {
                Some(t) => Ok::<Option<Timestamp>, AnchorError>(Some(t)),
                None => Err(AnchorError::Reset),
            },
            None => Ok(None),
        },
        r matches Ok(Some(t)) ==> t.wf(),
{
    match text {
        Some(s) => match parse_dt(s) {
            Some(t) => Ok(Some(t)),
            None => Err(AnchorError::Reset),
        },
        None => Ok(None),
    }
}

/// The reset that a reading is logged with: the one that the user gives, else the known one.
pub fn anchor_reset(given: Option<Timestamp>, known: Option<Timestamp>) -> (r: Option<Timestamp>)
    ensures
        r == if given is Some {
            given
        } else {
            known
        },
{
    match given {
        Some(t) => Some(t),
        None => known,
    }
}

/// What is stored for a reading: the reading itself, and the reset where the user gives one,
/// so that later windows are fixed. A percentage that is not above zero and at most a hundred
/// is refused.
pub fn apply_anchor(
    service: &str,
    percent: Real,
    resets_at: Option<Timestamp>,
    now: Timestamp,
    start: Timestamp,
    consumed: Real,
    unit: Unit,
) -> (r: Result<(Fiducial, Option<LimitRow>), AnchorError>)
    requires
        now.wf(),
        start.wf(),
        resets_at matches Some(t) ==> t.wf(),
    ensures
        r is Ok <==> zero().spec_lt(percent) && percent.spec_le(crate::number::hundred()),
        r matches Err(e) ==> e == AnchorError::Percent,
        r matches Ok((f, l)) ==> {
            &&& f.service@ == service@
            &&& f.window_kind@ == "weekly"@
            &&& f.ts == now
            &&& f.percent == percent
            &&& f.resets_at == resets_at
            &&& f.window_start == start
            &&& f.measured_cumulative == consumed
            &&& f.unit == unit
            &&& f.wf()
            &&& l is Some <==> resets_at is Some
            &&& l matches Some(row) ==> {
                &&& row.service@ == service@
                &&& row.window_kind@ == "weekly"@
                &&& row.limit_value is None
                &&& row.limit_unit == unit
                &&& row.limit_source@ == "fiducial"@
                &&& row.window_reset == resets_at
                &&& row.window_anchor is None
                &&& row.wf()
            }
        },
{
    if !crate::forecast::cap::valid_percent(percent) {
        return Err(AnchorError::Percent);
    }
    let f = Fiducial {
        id: 0,
        service: service.to_owned(),
        window_kind: "weekly".to_owned(),
        ts: now,
        percent,
        resets_at,
        window_start: start,
        measured_cumulative: consumed,
        unit,
    };
    let l = if resets_at.is_some() {
        Some(
            LimitRow {
                service: service.to_owned(),
                window_kind: "weekly".to_owned(),
                limit_value: None,
                limit_unit: unit,
                limit_source: "fiducial".to_owned(),
                window_reset: resets_at,
                window_anchor: None,
            },
        )
    } else {
        None
    };
    Ok((f, l))
}

/// The cap to report after a reading is logged.
pub fn anchor_cap(cap: Option<Real>) -> (r: Result<Real, AnchorError>)
    ensures
        r == match cap {
            Some(c) => Ok::<Real, AnchorError>(c),
            None => Err(AnchorError::NoCap),
        },
{
    match cap {
        Some(c) => Ok(c),
        None => Err(AnchorError::NoCap),
    }
}

// ---------------------------------------------------------------------------
// Services
// ---------------------------------------------------------------------------

/// The services that are enabled, in a fixed order.
pub open spec fn enabled(claude_code: bool, codex: bool, openrouter: bool) -> Seq<Seq<char>> {
    (if claude_code {
        seq![SERVICE_CLAUDE_CODE@]
    } else {
        Seq::empty()
    }) + (if codex {
        seq![SERVICE_CODEX@]
    } else {
        Seq::empty()
    }) + (if openrouter {
        seq![SERVICE_OPENROUTER@]
    } else {
        Seq::empty()
    })
}

/// The services that are enabled, in a fixed order.
pub fn enabled_services(cfg: &Config) -> (r: Vec<&'static str>)
    ensures
        r@.map_values(|s: &'static str| s@) == enabled(
            cfg.services.claude_code.enabled,
            cfg.services.codex.enabled,
            cfg.services.openrouter.enabled,
        ),
{
    let mut v: Vec<&'static str> = Vec::new();
    if cfg.services.claude_code.enabled {
        v.push(SERVICE_CLAUDE_CODE);
    }
    if cfg.services.codex.enabled {
        v.push(SERVICE_CODEX);
    }
    if cfg.services.openrouter.enabled {
        v.push(SERVICE_OPENROUTER);
    }
    assert(v@.map_values(|s: &'static str| s@) =~= enabled(
        cfg.services.claude_code.enabled,
        cfg.services.codex.enabled,
        cfg.services.openrouter.enabled,
    ));
    v
}

/// A status is shown only where the projection can be relied on: on the first day of a fixed
/// window, and in a rolling window without use, there is none.
pub proof fn law_no_early_alarm(
    now: Timestamp,
    start: Timestamp,
    end: Timestamp,
    consumed: Real,
    reset: Option<Timestamp>,
)
    requires
        !consumed.is_nan(),
    ensures
        tracked_window(now, reset, (start, end, false)) && now.spec_seconds_since(start) < 86_400
            ==> unreliable(now, start, false, consumed),
        tracked_window(now, reset, (start, end, true)) ==> (unreliable(now, start, true, consumed)
            <==> !zero().spec_lt(consumed)),
{
}

// ---------------------------------------------------------------------------
// What a forecast says
// ---------------------------------------------------------------------------

/// There are shares only of a limit above zero.
pub proof fn law_limit(c: Real)
    ensures
        has_limit(Some(c)) <==> zero().spec_lt(c),
        !has_limit(None),
{
}

/// Which projection is made follows from the history and the window alone: the rates where
/// there is history, without what leaves a rolling window; else the level for a rolling window
/// and the line for a fixed one, and only the line is called linear.
pub proof fn law_projection(rolling: bool)
    ensures
        projection_by(true, false) == Projection::Rates,
        projection_by(true, true) == Projection::RatesWithoutRolledOff,
        projection_by(false, true) == Projection::Level,
        projection_by(false, false) == Projection::Linear,
        model_name(projection_by(false, false)) == "linear"@,
        model_name(projection_by(true, rolling)) == "point_process"@,
        model_name(projection_by(false, true)) == "point_process"@,
{
}

/// A figure that is not below zero is what is projected, by the rates and by the line; without
/// history a rolling window stays at what is consumed, whatever the figure.
pub proof fn law_projected(consumed: Real, figure: Real, rolling: bool)
    ensures
        zero().spec_le(figure) ==> projected_by(projection_by(true, rolling), consumed, figure) == figure
            && projected_by(projection_by(false, false), consumed, figure) == figure,
        figure.spec_lt(zero()) ==> projected_by(projection_by(true, rolling), consumed, figure)
            == zero(),
        projected_by(projection_by(false, true), consumed, figure) == consumed,
{
}

/// The time at which the cap is used up is as many seconds after now as are left, given as soon
/// as there is a cap above zero of which less than all is used, use goes on, and the calendar
/// has that time; and only then.
pub proof fn law_eta(cap: Option<Real>, f: ForecastFigures, now: Timestamp)
    requires
        !now.leap(),
    ensures
        eta_of(cap, f, now) is Some <==> (cap matches Some(c) && zero().spec_lt(c)) && f.pct_now.spec_lt(
            one(),
        ) && zero().spec_lt(f.burn_per_sec) && f.secs_left >= 0 && MIN_SECS <= now.secs + f.secs_left
            <= MAX_SECS,
        eta_of(cap, f, now) matches Some(t) ==> t.secs == now.secs + f.secs_left && t.nanos == now.nanos,
{
}

/// A projection is relied on from the first whole day of a fixed window on, and in a rolling
/// window as soon as anything is consumed.
pub proof fn law_reliable(now: Timestamp, start: Timestamp, consumed: Real)
    ensures
        unreliable(now, start, false, consumed) <==> now.spec_seconds_since(start) < 86_400,
        unreliable(now, start, true, consumed) <==> consumed.spec_le(zero()),
{
}

/// A forecast carries what it was made of, tells both shares of a cap above zero and neither
/// otherwise, and raises an alarm by the projected share alone: red from the second threshold
/// on, amber from the first, green below, and none where it cannot be relied on.
pub proof fn law_forecast(
    r: Forecast,
    service: Seq<char>,
    unit: Unit,
    consumed: Real,
    cap: Option<Real>,
    cap_source: Option<Seq<char>>,
    has_data: bool,
    rolling: bool,
    now: Timestamp,
    warn: Real,
    danger: Real,
    f: ForecastFigures,
)
    requires
        is_forecast(
            r,
            service,
            unit,
            consumed,
            cap,
            cap_source,
            has_data,
            rolling,
            now,
            warn,
            danger,
            f,
        ),
    ensures
        r.service@ == service && r.unit == unit && r.consumed == consumed && r.limit == cap,
        opt_text(r.limit_source) == cap_source,
        r.window_kind@ == "weekly"@,
        cap matches Some(c) ==> zero().spec_lt(c) ==> r.pct_now == Some(f.pct_now)
            && r.pct_projected == Some(f.pct_projected),
        cap is None || !zero().spec_lt(cap->0) ==> r.pct_now is None && r.pct_projected is None
            && r.eta_to_limit is None && r.status@ == "unknown"@,
        has_data && zero().spec_le(f.projected) ==> r.projected == f.projected,
        !has_data && rolling ==> r.projected == consumed,
        !has_data && !rolling ==> r.forecast_model@ == "linear"@,
        has_data || rolling ==> r.forecast_model@ == "point_process"@,
        r.low_confidence <==> if rolling {
            consumed.spec_le(zero())
        } else {
            now.spec_seconds_since(r.window_start) < 86_400
        },
        r.low_confidence ==> r.status@ == "unknown"@,
        !r.low_confidence ==> (r.pct_projected matches Some(p) ==> {
            &&& p.spec_lt(warn) ==> r.status@ == "green"@
            &&& !p.spec_lt(warn) && p.spec_lt(danger) ==> r.status@ == "amber"@
            &&& !p.spec_lt(warn) && !p.spec_lt(danger) ==> r.status@ == "red"@
        }),
{
}

/// The line is drawn from what is consumed: with a limit above zero both shares count, and the
/// limit is reached after as many seconds from the start as the burn rate takes, where time has
/// passed and anything was consumed.
pub proof fn law_line_burns(consumed: Real, limit: Option<Real>, elapsed: int, burn: Real)
    ensures
        limit is None ==> !burns(consumed, limit, elapsed, burn),
        elapsed <= 0 ==> !burns(consumed, limit, elapsed, burn),
        consumed.spec_le(zero()) ==> !burns(consumed, limit, elapsed, burn),
        burn.spec_le(zero()) ==> !burns(consumed, limit, elapsed, burn),
        limit is Some && elapsed > 0 && zero().spec_lt(consumed) && zero().spec_lt(burn) ==> burns(
            consumed,
            limit,
            elapsed,
            burn,
        ),
        not_negative(elapsed) >= 0,
        elapsed >= 0 ==> not_negative(elapsed) == elapsed,
        elapsed < 0 ==> not_negative(elapsed) == 0,
{
}

/// A point of the fan has the middle that was worked out for it, and its bounds as well where
/// these lie on their sides of it.
pub proof fn law_fan_figures(
    points: Seq<ConePoint>,
    now: Timestamp,
    horizon: Timestamp,
    figures: Seq<ConeFigures>,
    i: int,
)
    requires
        is_fan(points, now, horizon, figures),
        0 <= i < points.len(),
        !now.leap(),
        now.wf(),
        horizon.wf(),
        horizon.secs < MAX_SECS,
    ensures
        points[i].mid == figures[i].mid,
        figures[i].lo.spec_le(figures[i].mid) ==> points[i].lo == figures[i].lo,
        figures[i].mid.spec_le(figures[i].hi) ==> points[i].hi == figures[i].hi,
        points.len() == 49,
        points.len() == figures.len(),
{
}

/// A fan is drawn as soon as the horizon is a second away and there are figures for it.
pub proof fn law_fan_is_drawn(points: Seq<ConePoint>, now: Timestamp, horizon: Timestamp, figures: Seq<ConeFigures>)
    requires
        is_fan(points, now, horizon, figures),
    ensures
        horizon.spec_seconds_since(now) > 0 && figures.len() == 49 ==> points.len() == 49,
        horizon.spec_seconds_since(now) <= 0 ==> points.len() == 0,
{
}

/// A service is listed exactly where it is enabled, the logs before the credits.
pub proof fn law_enabled(claude_code: bool, codex: bool, openrouter: bool)
    ensures
        ({
            let e = enabled(claude_code, codex, openrouter);
            &&& e.contains(SERVICE_CLAUDE_CODE@) <==> claude_code
            &&& e.contains(SERVICE_CODEX@) <==> codex
            &&& e.contains(SERVICE_OPENROUTER@) <==> openrouter
            &&& claude_code ==> e[0] == SERVICE_CLAUDE_CODE@
            &&& openrouter ==> e.last() == SERVICE_OPENROUTER@
            &&& e.len() <= 3
        }),
{
    crate::models::law_service_names();
    let e = enabled(claude_code, codex, openrouter);
    if claude_code {
        assert(e[0] == SERVICE_CLAUDE_CODE@);
    }
    if openrouter {
        assert(e[e.len() - 1] == SERVICE_OPENROUTER@);
    }
    if codex {
        assert(e[if claude_code {
            1int
        } else {
            0
        }] == SERVICE_CODEX@);
    }
}

} // verus!
