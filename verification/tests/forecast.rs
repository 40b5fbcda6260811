use metoks::config::{Config, LimitCfg};
use metoks::forecast::cap::service_unit;
use metoks::forecast::window::{
    cone_times, eta_after, horizon_end, low_confidence, pace_span, resolve_window, rolled_off,
    service_window, WEEK, WINDOW_DAYS,
};
use metoks::forecast::{
    anchor_cap, anchor_reset, apply_anchor, cone_points, cumulative_view, enabled_services,
    fiducial_points, forecast_at, forecast_service, given_reset, has_share, linear, linear_spans, projection_of,
    status_for, AnchorError, ConeFigures, ForecastCore, ForecastFigures, LinearFigures, Projection,
};
use metoks::forecast::rate::RateModel;
use metoks::models::Unit;
use metoks::number::Real;
use metoks::time::{parse_dt, Timestamp};

fn num(x: f64) -> Real {
    Real { bits: x.to_bits() }
}

fn val(x: Real) -> f64 {
    f64::from_bits(x.bits)
}

fn dt(s: &str) -> Timestamp {
    parse_dt(s).unwrap()
}

fn linear_of(
    consumed: f64,
    limit: Option<f64>,
    start: Timestamp,
    end: Timestamp,
    now: Timestamp,
    warn: f64,
    danger: f64,
) -> ForecastCore {
    let (elapsed, remaining) = linear_spans(start, end, now);
    let burn = consumed / elapsed as f64;
    let projected = if elapsed > 0 { consumed + burn * remaining as f64 } else { consumed };
    let l = limit.unwrap_or(1.0);
    let f = LinearFigures {
        projected: num(projected),
        burn: num(burn),
        pct_now: num(consumed / l),
        pct_projected: num(projected / l),
        secs_to_limit: (l / burn) as i64,
    };
    linear(num(consumed), limit.map(num), start, now, num(warn), num(danger), f)
}

#[test]
fn linear_halfway_doubles() {
    // Window is 10 days; 5 days elapsed; consumed 50 → projected 100.
    let start = dt("2026-08-10T00:00:00Z");
    let end = dt("2026-08-20T00:00:00Z");
    let now = dt("2026-08-15T00:00:00Z");
    let f = linear_of(50.0, Some(100.0), start, end, now, 0.8, 1.0);
    assert!((val(f.projected) - 100.0).abs() < 1e-6, "projected={}", val(f.projected));
    assert!((val(f.pct_now.unwrap()) - 0.5).abs() < 1e-6);
    assert!((val(f.pct_projected.unwrap()) - 1.0).abs() < 1e-6);
    // pct_projected == danger(1.0) → not < danger → red
    assert_eq!(f.status, "red");
}

#[test]
fn linear_status_bands() {
    let start = dt("2026-08-10T00:00:00Z");
    let end = dt("2026-08-17T00:00:00Z");
    let now = dt("2026-08-13T12:00:00Z"); // exactly half
    // consumed 30 → projected 60 → 60% → green
    let g = linear_of(30.0, Some(100.0), start, end, now, 0.8, 1.0);
    assert_eq!(g.status, "green");
    // consumed 45 → projected 90 → 90% → amber
    let a = linear_of(45.0, Some(100.0), start, end, now, 0.8, 1.0);
    assert_eq!(a.status, "amber");
}

#[test]
fn eta_to_limit_matches_formula() {
    // burn = 100/5d; limit 100 → hits limit at start+5d.
    let start = dt("2026-08-10T00:00:00Z");
    let end = dt("2026-08-24T00:00:00Z");
    let now = dt("2026-08-15T00:00:00Z"); // 5 days elapsed
    let f = linear_of(100.0, Some(100.0), start, end, now, 0.8, 1.0);
    let eta = f.eta_to_limit.unwrap();
    assert_eq!(eta, dt("2026-08-15T00:00:00Z"));
}

#[test]
fn no_limit_is_unknown() {
    let start = dt("2026-08-10T00:00:00Z");
    let end = dt("2026-08-17T00:00:00Z");
    let now = dt("2026-08-13T00:00:00Z");
    let f = linear_of(10.0, None, start, end, now, 0.8, 1.0);
    assert_eq!(f.status, "unknown");
    assert!(f.pct_now.is_none());
    assert!(f.eta_to_limit.is_none());
}

#[test]
fn linear_without_time_or_use() {
    let start = dt("2026-08-10T00:00:00Z");
    let end = dt("2026-08-17T00:00:00Z");
    let f = linear_of(10.0, Some(100.0), start, end, start, 0.8, 1.0);
    assert_eq!(val(f.projected), 10.0);
    assert!(f.eta_to_limit.is_none());
    assert_eq!(f.forecast_model, "linear");
    let f = linear_of(0.0, Some(100.0), start, end, dt("2026-08-12T00:00:00Z"), 0.8, 1.0);
    assert!(f.eta_to_limit.is_none());
    let f = linear_of(5.0, Some(0.0), start, end, dt("2026-08-12T00:00:00Z"), 0.8, 1.0);
    assert!(f.pct_now.is_none() && f.pct_projected.is_none());
    assert_eq!(f.status, "unknown");
    // Before the start nothing has passed, and after the end nothing remains.
    assert_eq!(linear_spans(start, end, dt("2026-08-09T00:00:00Z")), (0, 8 * 86400));
    assert_eq!(linear_spans(start, end, dt("2026-08-18T00:00:00Z")), (8 * 86400, 0));
}

#[test]
fn status_has_four_values() {
    let (w, d) = (num(0.8), num(1.0));
    assert_eq!(status_for(None, w, d), "unknown");
    assert_eq!(status_for(Some(num(0.79)), w, d), "green");
    assert_eq!(status_for(Some(num(0.8)), w, d), "amber");
    assert_eq!(status_for(Some(num(1.0)), w, d), "red");
    assert_eq!(status_for(Some(num(f64::NAN)), w, d), "red");
}

#[test]
fn resolve_window_rolls_past_reset_forward() {
    let now = dt("2026-08-24T00:00:00Z");
    let past_reset = dt("2026-08-20T00:00:00Z");
    let (start, end) = resolve_window(now, Some(past_reset));
    assert!(now.lt(end));
    assert_eq!(end.seconds_since(start), 7 * 86400);
    // 2026-08-20 + 7d = 2026-08-27
    assert_eq!(end, dt("2026-08-27T00:00:00Z"));
}

#[test]
fn resolve_window_future_reset_used_directly() {
    let now = dt("2026-08-24T00:00:00Z");
    let reset = dt("2026-08-31T00:00:00Z");
    let (start, end) = resolve_window(now, Some(reset));
    assert_eq!(end, reset);
    assert_eq!(start, dt("2026-08-24T00:00:00Z"));
}

#[test]
fn resolve_window_reset_at_now_starts_the_next() {
    let now = dt("2026-08-24T00:00:00Z");
    let (start, end) = resolve_window(now, Some(now));
    assert_eq!(start, now);
    assert_eq!(end, dt("2026-08-31T00:00:00Z"));
    let (_, later) = resolve_window(now, Some(dt("2020-01-01T12:00:00.5Z")));
    assert_eq!(later, dt("2026-08-26T12:00:00.5Z"));
}

#[test]
fn resolve_window_without_reset_is_on_the_grid() {
    let (start, end) = resolve_window(dt("2026-08-24T13:00:00Z"), None);
    assert_eq!(start, dt("2026-08-24T00:00:00Z"));
    assert_eq!(end, dt("2026-08-31T00:00:00Z"));
    let (start, _) = resolve_window(dt("2024-01-01T00:00:00Z"), None);
    assert_eq!(start, dt("2024-01-01T00:00:00Z"));
    let (start, _) = resolve_window(dt("2023-12-31T23:59:59Z"), None);
    assert_eq!(start, dt("2023-12-25T00:00:00Z"));
    // Seconds are counted towards zero: half a second before the anchor counts as the anchor.
    let (start, _) = resolve_window(dt("2023-12-31T23:59:59.5Z"), None);
    assert_eq!(start, dt("2024-01-01T00:00:00Z"));
    assert_eq!(WINDOW_DAYS * 86400, WEEK);
}

#[test]
fn tracked_window_is_fixed_or_rolling() {
    let now = dt("2026-08-24T06:00:00Z");
    assert_eq!(service_window(now, None), (dt("2026-08-17T06:00:00Z"), now, true));
    assert_eq!(
        service_window(now, Some(dt("2026-08-25T00:00:00Z"))),
        (dt("2026-08-18T00:00:00Z"), dt("2026-08-25T00:00:00Z"), false)
    );
}

#[test]
fn horizon_is_never_behind() {
    let now = dt("2026-08-24T06:00:00Z");
    assert_eq!(horizon_end(now, now, true), dt("2026-08-31T06:00:00Z"));
    assert_eq!(horizon_end(now, dt("2026-08-25T00:00:00Z"), false), dt("2026-08-25T00:00:00Z"));
    assert_eq!(horizon_end(now, dt("2026-08-23T00:00:00Z"), false), now);
}

#[test]
fn cone_is_drawn_in_forty_eight_steps() {
    let now = dt("2026-08-24T00:00:00Z");
    let ts = cone_times(now, dt("2026-08-31T00:00:00Z"));
    assert_eq!(ts.len(), 49);
    assert_eq!(ts[0], now);
    assert_eq!(ts[1], dt("2026-08-24T03:30:00Z"));
    assert_eq!(ts[48], dt("2026-08-31T00:00:00Z"));
    assert!(cone_times(now, now).is_empty());
    assert_eq!(cone_times(now, dt("2026-08-24T00:00:01Z"))[47], now);
}

#[test]
fn what_rolls_off_lasts_as_long_as_the_step() {
    let now = dt("2026-08-24T00:00:00Z");
    assert_eq!(
        rolled_off(now, dt("2026-08-24T03:30:00Z")),
        (dt("2026-08-17T00:00:00Z"), dt("2026-08-17T03:30:00Z"))
    );
}

#[test]
fn pace_is_taken_of_two_days_or_the_window() {
    let (now, start) = (dt("2026-08-24T06:00:00Z"), dt("2026-08-24T00:00:00Z"));
    assert_eq!(pace_span(now, start, true), (dt("2026-08-22T06:00:00Z"), 172_800));
    assert_eq!(pace_span(now, start, false), (start, 21_600));
    assert_eq!(pace_span(start, start, false), (start, 0));
    assert_eq!(pace_span(start, now, false), (now, 0));
}

#[test]
fn confidence_needs_a_day_or_use() {
    let start = dt("2026-08-24T00:00:00Z");
    assert!(low_confidence(dt("2026-08-24T23:59:59Z"), start, false, false));
    assert!(!low_confidence(dt("2026-08-25T00:00:00Z"), start, false, true));
    assert!(low_confidence(dt("2026-08-25T00:00:00Z"), start, true, true));
    assert!(!low_confidence(start, start, true, false));
}

#[test]
fn eta_past_the_calendar_is_none() {
    let t = dt("2026-08-24T00:00:00Z");
    assert_eq!(eta_after(t, 3600), Some(dt("2026-08-24T01:00:00Z")));
    assert_eq!(eta_after(t, 9_000_000_000_000), None);
}

#[test]
fn projection_depends_on_history_and_window() {
    assert_eq!(projection_of(true, false), Projection::Rates);
    assert_eq!(projection_of(true, true), Projection::RatesWithoutRolledOff);
    assert_eq!(projection_of(false, true), Projection::Level);
    assert_eq!(projection_of(false, false), Projection::Linear);
}

#[test]
fn linear_eta_of_what_is_no_number_is_the_start() {
    let (start, now) = (dt("2026-08-10T00:00:00Z"), dt("2026-08-12T00:00:00Z"));
    let nan = num(f64::NAN);
    let f = LinearFigures { projected: nan, burn: nan, pct_now: nan, pct_projected: nan, secs_to_limit: 0 };
    let r = linear(nan, Some(num(100.0)), start, now, num(0.8), num(1.0), f);
    assert_eq!(r.eta_to_limit, Some(start));
    assert_eq!(r.status, "red");
}

fn figures(pct_now: f64, pct: f64, burn: f64, secs: i64) -> ForecastFigures {
    ForecastFigures {
        projected: num(80.0),
        pct_now: num(pct_now),
        pct_projected: num(pct),
        burn_per_sec: num(burn),
        secs_left: secs,
    }
}

#[test]
fn forecast_of_a_fixed_window() {
    let (start, end) = (dt("2026-08-20T00:00:00Z"), dt("2026-08-27T00:00:00Z"));
    let now = dt("2026-08-24T00:00:00Z");
    let f = forecast_service(
        "codex",
        Unit::Tokens,
        num(40.0),
        Some(num(100.0)),
        Some("fiducial".to_string()),
        true,
        (start, end, false),
        now,
        num(0.8),
        num(1.0),
        figures(0.4, 0.9, 0.001, 3600),
    );
    assert_eq!((f.service.as_str(), f.window_kind.as_str()), ("codex", "weekly"));
    assert_eq!(f.forecast_model, "point_process");
    assert_eq!(f.limit, Some(num(100.0)));
    assert_eq!(f.limit_source.as_deref(), Some("fiducial"));
    assert_eq!((f.pct_now, f.pct_projected), (Some(num(0.4)), Some(num(0.9))));
    assert_eq!(f.projected, num(80.0));
    assert_eq!(f.status, "amber");
    assert!(!f.low_confidence);
    assert_eq!(f.eta_to_limit, Some(dt("2026-08-24T01:00:00Z")));
    assert_eq!((f.window_start, f.window_end), (start, end));
}

#[test]
fn forecast_says_nothing_early_or_without_a_cap() {
    let (start, end) = (dt("2026-08-24T00:00:00Z"), dt("2026-08-31T00:00:00Z"));
    let now = dt("2026-08-24T12:00:00Z");
    let of = |cap: Option<f64>, pct: f64, window: (Timestamp, Timestamp, bool), burn: f64, secs: i64| {
        forecast_service(
            "claude_code",
            Unit::Tokens,
            num(40.0),
            cap.map(num),
            None,
            true,
            window,
            now,
            num(0.8),
            num(1.0),
            figures(pct, 2.0, burn, secs),
        )
    };
    let early = of(Some(100.0), 0.4, (start, end, false), 1.0, 60);
    assert!(early.low_confidence);
    assert_eq!(early.status, "unknown");
    assert_eq!(early.pct_projected, Some(num(2.0)));
    let rolling = of(Some(100.0), 0.4, (start, now, true), 0.0, 60);
    assert_eq!(rolling.status, "red");
    assert_eq!(rolling.eta_to_limit, None);
    for cap in [None, Some(0.0), Some(-1.0), Some(f64::NAN)] {
        let none = of(cap, 0.4, (start, now, true), 1.0, 60);
        assert_eq!(none.status, "unknown");
        assert_eq!((none.pct_now, none.pct_projected, none.eta_to_limit), (None, None, None));
    }
    let full = of(Some(100.0), 1.0, (start, now, true), 1.0, 60);
    assert_eq!(full.eta_to_limit, None);
    // The cap is never used up before now.
    assert_eq!(of(Some(100.0), 0.4, (start, now, true), 1.0, -1).eta_to_limit, None);
    assert_eq!(of(Some(100.0), 0.4, (start, now, true), 1.0, 0).eta_to_limit, Some(now));
    assert!(has_share(Some(num(1.0))));
    assert!(!has_share(Some(num(0.0))));
    assert!(!has_share(None));
}

#[test]
fn forecast_names_the_model_that_made_it() {
    let now = dt("2026-08-24T00:00:00Z");
    let of = |has_data: bool, rolling: bool, projected: f64| {
        forecast_service(
            "codex",
            Unit::Tokens,
            num(40.0),
            None,
            None,
            has_data,
            (dt("2026-08-20T00:00:00Z"), dt("2026-08-27T00:00:00Z"), rolling),
            now,
            num(0.8),
            num(1.0),
            ForecastFigures { projected: num(projected), ..figures(0.0, 0.0, 0.0, 0) },
        )
    };
    assert_eq!(of(false, false, 70.0).forecast_model, "linear");
    assert_eq!(of(false, false, 70.0).projected, num(70.0));
    assert_eq!(of(false, true, 70.0).forecast_model, "point_process");
    // Without history a rolling window stays where it is.
    assert_eq!(of(false, true, 70.0).projected, num(40.0));
    for rolling in [false, true] {
        assert_eq!(of(true, rolling, 70.0).forecast_model, "point_process");
        assert_eq!(of(true, rolling, 70.0).projected, num(70.0));
        assert_eq!(of(true, rolling, -3.0).projected, num(0.0));
    }
}

#[test]
fn forecast_follows_the_reset() {
    let now = dt("2026-08-24T06:00:00Z");
    let of = |reset: Option<Timestamp>| {
        forecast_at(
            "codex",
            Unit::Tokens,
            num(40.0),
            Some(num(100.0)),
            Some("real".to_string()),
            false,
            reset,
            now,
            num(0.8),
            num(1.0),
            figures(0.4, 0.9, 0.001, 3600),
        )
    };
    // A reset to come ends the window, one that is past is carried on week by week.
    let f = of(Some(dt("2026-08-27T00:00:00Z")));
    assert_eq!((f.window_start, f.window_end), (dt("2026-08-20T00:00:00Z"), dt("2026-08-27T00:00:00Z")));
    assert_eq!((f.forecast_model.as_str(), f.status.as_str()), ("linear", "amber"));
    assert_eq!(f.eta_to_limit, Some(dt("2026-08-24T07:00:00Z")));
    let f = of(Some(dt("2026-08-10T00:00:00Z")));
    assert_eq!((f.window_start, f.window_end), (dt("2026-08-24T00:00:00Z"), dt("2026-08-31T00:00:00Z")));
    assert!(f.low_confidence);
    let f = of(None);
    assert_eq!((f.window_start, f.window_end), (dt("2026-08-17T06:00:00Z"), now));
    assert_eq!((f.forecast_model.as_str(), f.projected), ("point_process", num(40.0)));
}

/// Rates of one an hour, or of nothing.
fn rates(x: f64) -> RateModel {
    RateModel {
        lambda: [[num(x); 24]; 7],
        var: [[num(0.0); 24]; 7],
        tz: "UTC".to_string(),
        weeks: num(2.0),
    }
}

fn fan(lo: f64, mid: f64, hi: f64) -> Vec<ConeFigures> {
    vec![ConeFigures { lo: num(lo), mid: num(mid), hi: num(hi) }; 49]
}

#[test]
fn cumulative_view_of_a_forecast() {
    let (start, end) = (dt("2026-08-20T00:00:00Z"), dt("2026-08-27T00:00:00Z"));
    let now = dt("2026-08-24T00:00:00Z");
    let of = |cap: Option<f64>| {
        forecast_service(
            "codex",
            Unit::Tokens,
            num(40.0),
            cap.map(num),
            None,
            true,
            (start, end, false),
            now,
            num(0.8),
            num(1.0),
            figures(0.4, 0.9, 0.0, 0),
        )
    };
    let view = |cap: Option<f64>, rolling: bool, x: f64, logged: bool| {
        let pace = (num(7.0), num(8.0));
        cumulative_view(
            of(cap), rolling, now, vec![], vec![], &rates(x), &fan(1.0, 2.0, 3.0), vec![], logged, pace,
        )
    };
    let c = view(Some(100.0), false, 1.0, true);
    assert_eq!(c.mode, "fixed");
    assert_eq!(c.axis_cap, Some(num(100.0)));
    assert_eq!(c.cone_pct.len(), 49);
    assert_eq!((c.cone_pct[0].ts, c.cone_pct[48].ts), (now, end));
    assert_eq!((c.cone_pct[7].lo, c.cone_pct[7].mid, c.cone_pct[7].hi), (num(1.0), num(2.0), num(3.0)));
    assert_eq!((c.pace_weekly, c.pace_sigma), (num(7.0), num(8.0)));
    assert_eq!(c.on_device_tokens, num(40.0));
    assert_eq!(c.off_device_rate, num(0.0));
    // The axis has no scale before a reading is logged, though there is a cap.
    let c = view(Some(100.0), false, 1.0, false);
    assert_eq!((c.axis_cap, c.cap), (None, Some(num(100.0))));
    assert!(view(Some(100.0), false, 0.0, true).cone_pct.is_empty());
    let c = view(None, true, 1.0, true);
    assert_eq!(c.mode, "rolling");
    assert_eq!(c.axis_cap, None);
    assert!(c.cone_pct.is_empty());
    let c = view(Some(100.0), true, 1.0, true);
    assert_eq!(c.cone_pct[48].ts, dt("2026-08-31T00:00:00Z"));
}

#[test]
fn fan_keeps_its_bounds_apart() {
    let (now, end) = (dt("2026-08-24T00:00:00Z"), dt("2026-08-31T00:00:00Z"));
    let points = cone_points(now, end, &fan(5.0, 2.0, -1.0));
    assert_eq!(points.len(), 49);
    for p in &points {
        assert_eq!((p.lo, p.mid, p.hi), (num(2.0), num(2.0), num(2.0)));
    }
    assert_eq!(points[1].ts, dt("2026-08-24T03:30:00Z"));
    assert!(cone_points(now, now, &fan(1.0, 2.0, 3.0)).is_empty());
    assert!(cone_points(now, end, &vec![]).is_empty());
}

#[test]
fn logging_a_reading() {
    let now = dt("2026-08-24T00:00:00Z");
    let start = dt("2026-08-20T00:00:00Z");
    let reset = dt("2026-08-27T00:00:00Z");
    let log = |percent: f64, resets: Option<Timestamp>| {
        apply_anchor("codex", num(percent), resets, now, start, num(5.0), Unit::Tokens)
    };
    for bad in [0.0, -0.0, -1.0, 100.5, f64::NAN, f64::INFINITY] {
        let e = log(bad, None).unwrap_err();
        assert_eq!(e, AnchorError::Percent);
        assert_eq!(e.message(), "percent must be in (0, 100]");
    }
    let (f, row) = log(100.0, None).unwrap();
    assert!(row.is_none());
    assert_eq!((f.ts, f.window_start, f.resets_at), (now, start, None));
    assert_eq!(f.percent, num(100.0));
    assert_eq!(f.measured_cumulative, num(5.0));
    let (f, row) = log(47.0, Some(reset)).unwrap();
    let row = row.unwrap();
    assert_eq!(f.resets_at, Some(reset));
    assert_eq!(row.window_reset, Some(reset));
    assert_eq!(row.limit_source, "fiducial");
    assert_eq!(row.limit_value, None);
    let (points, times) = fiducial_points(&vec![f]);
    assert_eq!(points[0].percent, num(47.0));
    assert_eq!(times, vec![now]);
}

#[test]
fn reset_of_a_reading() {
    let t = dt("2026-08-28T00:00:00Z");
    assert_eq!(given_reset(None), Ok(None));
    assert_eq!(given_reset(Some("2026-08-28T00:00:00Z")), Ok(Some(t)));
    let e = given_reset(Some("friday")).unwrap_err();
    assert_eq!(e, AnchorError::Reset);
    assert_eq!(e.message(), "could not parse --resets-at (use ISO-8601, e.g. 2026-08-28T00:00:00Z)");
    let other = dt("2026-08-29T00:00:00Z");
    assert_eq!(anchor_reset(Some(t), Some(other)), Some(t));
    assert_eq!(anchor_reset(None, Some(other)), Some(other));
    assert_eq!(anchor_reset(None, None), None);
}

#[test]
fn reading_without_a_cap_is_told() {
    assert_eq!(anchor_cap(Some(num(5.0))), Ok(num(5.0)));
    let e = anchor_cap(None).unwrap_err();
    assert_eq!(e, AnchorError::NoCap);
    assert_eq!(e.message(), "recorded, but no usable reading yet to derive a cap from");
}

#[test]
fn services_come_in_a_fixed_order() {
    let mut cfg = Config::sample();
    assert_eq!(enabled_services(&cfg), vec!["claude_code", "codex"]);
    cfg.services.openrouter.enabled = true;
    cfg.services.claude_code.enabled = false;
    assert_eq!(enabled_services(&cfg), vec!["codex", "openrouter"]);
    cfg.services.codex.enabled = false;
    cfg.services.openrouter.enabled = false;
    assert!(enabled_services(&cfg).is_empty());
}

#[test]
fn unit_follows_the_configured_limit() {
    let limit = |unit: &str| {
        Some(LimitCfg { value: num(1.0), unit: unit.to_string(), source: "configured".to_string() })
    };
    let mut cfg = Config::sample();
    assert_eq!(service_unit(&cfg, "claude_code"), Unit::Tokens);
    assert_eq!(service_unit(&cfg, "codex"), Unit::Tokens);
    assert_eq!(service_unit(&cfg, "openrouter"), Unit::Usd);
    cfg.services.codex.weekly_limit = limit("usd");
    cfg.services.openrouter.weekly_budget = limit("tokens");
    cfg.services.claude_code.weekly_limit = limit("parsecs");
    assert_eq!(service_unit(&cfg, "codex"), Unit::Usd);
    assert_eq!(service_unit(&cfg, "openrouter"), Unit::Tokens);
    assert_eq!(service_unit(&cfg, "claude_code"), Unit::Tokens);
}
