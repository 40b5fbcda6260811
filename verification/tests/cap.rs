use metoks::config::{Config, LimitCfg};
use metoks::db::{Fiducial, LimitRow, RateLimitStatus};
use metoks::forecast::cap::{
    latest_reading, observed_cap_key, plan_cap, resolve_cap, resolve_cap_value, resolve_reset,
    share_anchor, valid_percent, LatestCap, ProviderCap, Reading, CAP_CARRY_DAYS, CAP_MIN_PERCENT,
    CAP_OUTLIER_FRAC,
};
use metoks::forecast::median::{middle, sort_numbers};
use metoks::models::Unit;
use metoks::number::Real;
use metoks::time::{parse_dt, Timestamp};

fn num(x: f64) -> Real {
    Real { bits: x.to_bits() }
}

fn val(x: Real) -> f64 {
    f64::from_bits(x.bits)
}

fn dt(s: &str) -> Timestamp {
    parse_dt(s).unwrap()
}

fn plan(readings: &[(f64, f64)]) -> Option<f64> {
    let v: Vec<Reading> = readings
        .iter()
        .map(|(m, p)| Reading { measured: num(*m), percent: num(*p), implied: num(m / (p / 100.0)) })
        .collect();
    plan_cap(&v).map(val)
}

#[test]
fn plan_cap_is_median_of_readings() {
    // caps: 100/.5=200, 69/.05=1380, 200/.09≈2222 → median 1380.
    let cap = plan(&[(100.0, 50.0), (69.0, 5.0), (200.0, 9.0)]).unwrap();
    assert!((cap - 1380.0).abs() < 1.0, "cap={cap}");
}

#[test]
fn plan_cap_ignores_noisy_low_readings() {
    // A "1%" reading right after a reset (1.6 tokens) would imply cap 160 —
    // it's below the floor and must be ignored; the 20% reading wins.
    let cap = plan(&[(1.6, 1.0), (315.0, 20.0)]).unwrap();
    assert!((cap - 1575.0).abs() < 1.0, "cap={cap}");
    // If every reading is sub-floor, there's no usable cap.
    assert!(plan(&[(1.6, 1.0)]).is_none());
    assert!(plan(&[]).is_none());
}

#[test]
fn plan_cap_of_an_even_number_is_the_upper_one() {
    assert_eq!(plan(&[(10.0, 50.0), (30.0, 50.0), (20.0, 50.0), (40.0, 50.0)]), Some(60.0));
    assert_eq!(plan(&[(0.0, 50.0)]), None);
    assert_eq!(plan(&[(6.0, 3.0)]), Some(200.0));
}

#[test]
fn plan_cap_keeps_what_is_no_number() {
    let nan = Reading { measured: num(10.0), percent: num(50.0), implied: num(f64::NAN) };
    let of = |implied: f64| Reading { implied: num(implied), ..nan };
    assert_eq!(plan_cap(&vec![nan]), Some(num(f64::NAN)));
    // Nothing here is below another, so that the one in the middle is taken as they stand.
    assert_eq!(plan_cap(&vec![nan, of(20.0)]), Some(num(20.0)));
    assert_eq!(plan_cap(&vec![of(20.0), nan]), Some(num(f64::NAN)));
    assert_eq!(plan_cap(&vec![of(20.0), nan, of(20.0)]), Some(num(f64::NAN)));
    // Among numbers that differ it is one of them all.
    let mixed = plan_cap(&vec![of(30.0), nan, of(10.0), of(20.0)]).unwrap();
    assert!([10.0, 20.0, 30.0].contains(&val(mixed)) || val(mixed).is_nan());
    // An infinite share of an infinite amount gives no number.
    assert!(plan(&[(f64::INFINITY, f64::INFINITY)]).unwrap().is_nan());
}

#[test]
fn share_is_anchored_to_the_last_reading_of_the_window() {
    let start = dt("2026-08-20T00:00:00Z");
    let old = reading("2026-08-19T23:59:59Z", 90.0);
    let first = reading("2026-08-20T00:00:00Z", 38.0);
    // However little it says about the cap.
    let low = reading("2026-08-21T00:00:00Z", 1.0);
    assert_eq!(share_anchor(&vec![], start), None);
    assert_eq!(share_anchor(&vec![old.clone()], start), None);
    assert_eq!(share_anchor(&vec![old.clone(), first.clone()], start), Some(1));
    assert_eq!(share_anchor(&vec![old.clone(), first.clone(), low.clone()], start), Some(2));
    assert_eq!(latest_reading(&vec![old.clone(), first.clone(), low], start), Some(1));
    assert_eq!(share_anchor(&vec![first, old], start), Some(0));
}

#[test]
fn constants_of_the_cap() {
    assert_eq!(f64::from_bits(CAP_MIN_PERCENT), 3.0);
    assert_eq!(f64::from_bits(CAP_OUTLIER_FRAC), 0.4);
    assert_eq!(CAP_CARRY_DAYS, 21);
}

#[test]
fn sorting_keeps_every_number() {
    let v: Vec<Real> = [3.0, -1.0, 2.0, 3.0, 0.5].iter().map(|x| num(*x)).collect();
    let s: Vec<f64> = sort_numbers(v.clone()).iter().map(|x| val(*x)).collect();
    assert_eq!(s, vec![-1.0, 0.5, 2.0, 3.0, 3.0]);
    assert_eq!(middle(v).map(val), Some(2.0));
    assert_eq!(middle(vec![]), None);
    // Nothing moves where nothing is below another.
    let zeros = vec![num(0.0), num(-0.0), num(f64::NAN), num(0.0)];
    assert_eq!(sort_numbers(zeros.clone()), zeros);
}

fn reading(ts: &str, percent: f64) -> Fiducial {
    Fiducial {
        id: 1,
        service: "codex".to_string(),
        window_kind: "weekly".to_string(),
        ts: dt(ts),
        percent: num(percent),
        resets_at: None,
        window_start: dt("2026-08-20T00:00:00Z"),
        measured_cumulative: num(1.0),
        unit: Unit::Tokens,
    }
}

#[test]
fn latest_reading_is_of_this_window_and_says_enough() {
    let start = dt("2026-08-20T00:00:00Z");
    let v = vec![
        reading("2026-08-19T00:00:00Z", 90.0),
        reading("2026-08-20T00:00:00Z", 5.0),
        reading("2026-08-21T00:00:00Z", 12.0),
        reading("2026-08-22T00:00:00Z", 2.9),
    ];
    assert_eq!(latest_reading(&v, start), Some(2));
    assert_eq!(latest_reading(&v[..2].to_vec(), start), Some(1));
    assert_eq!(latest_reading(&v[..1].to_vec(), start), None);
    assert_eq!(latest_reading(&vec![], start), None);
}

fn decide(
    latest: Option<(f64, f64, Option<f64>)>,
    median: Option<f64>,
    provider: Option<(f64, f64)>,
    consumed: f64,
    observed: Option<f64>,
    configured: Option<(f64, &str)>,
) -> (Option<f64>, Option<String>, bool) {
    let kept = configured.map(|(v, s)| {
        let mut l = row(Some(v), None);
        l.limit_source = s.to_string();
        l
    });
    let d = resolve_cap_value(
        latest.map(|(m, c, f)| LatestCap { measured: num(m), implied: num(c), floor: f.map(num) }),
        median.map(num),
        provider.map(|(p, c)| ProviderCap { percent: num(p), implied: num(c) }),
        num(consumed),
        observed.map(num),
        &kept,
        &Config::sample(),
        "codex",
        Unit::Tokens,
    );
    (d.cap.map(val), d.source, d.persist)
}

#[test]
fn cap_follows_the_precedence() {
    let cfg = Some((1.0, "configured"));
    let s = |x: &str| Some(x.to_string());
    assert_eq!(
        decide(Some((5.0, 50.0, Some(40.0))), Some(100.0), Some((9.0, 9.0)), 1.0, Some(8.0), cfg),
        (Some(50.0), s("fiducial"), true)
    );
    // An outlier gives way to the median.
    assert_eq!(
        decide(Some((5.0, 39.0, Some(40.0))), Some(100.0), Some((9.0, 9.0)), 1.0, Some(8.0), cfg),
        (Some(100.0), s("carried"), true)
    );
    // So does a reading before anything was counted.
    assert_eq!(
        decide(Some((0.0, 50.0, Some(40.0))), Some(100.0), None, 1.0, None, cfg),
        (Some(100.0), s("carried"), true)
    );
    assert_eq!(decide(None, None, Some((9.0, 90.0)), 1.0, Some(8.0), cfg), (Some(90.0), s("real"), true));
    assert_eq!(decide(None, None, Some((2.0, 90.0)), 1.0, Some(8.0), cfg), (Some(8.0), s("carried"), false));
    assert_eq!(decide(None, None, Some((9.0, 90.0)), 0.0, Some(8.0), cfg), (Some(8.0), s("carried"), false));
    assert_eq!(decide(None, None, None, 1.0, Some(0.0), cfg), (Some(1.0), s("configured"), false));
    assert_eq!(decide(None, None, Some((2.0, 90.0)), 1.0, None, cfg), (Some(90.0), s("real"), false));
    assert_eq!(decide(None, None, None, 1.0, None, None), (None, None, false));
}

#[test]
fn cap_survives_a_reset() {
    let (cap, _, persist) = decide(Some((5.0, 50.0, None)), None, None, 5.0, None, None);
    assert!(persist);
    let (later, source, again) = decide(None, None, None, 0.0, cap, Some((1.0, "configured")));
    assert_eq!((later, source.as_deref(), again), (cap, Some("carried"), false));
}

fn status(used: Option<f64>, resets: Option<&str>) -> RateLimitStatus {
    RateLimitStatus {
        service: "codex".to_string(),
        window_kind: "weekly".to_string(),
        used_percent: used.map(num),
        window_minutes: Some(10080),
        resets_at: resets.map(dt),
        observed_at: dt("2026-08-20T00:00:00Z"),
    }
}

fn row(value: Option<f64>, reset: Option<&str>) -> LimitRow {
    LimitRow {
        service: "codex".to_string(),
        window_kind: "weekly".to_string(),
        limit_value: value.map(num),
        limit_unit: Unit::Tokens,
        limit_source: "stored".to_string(),
        window_reset: reset.map(dt),
        window_anchor: None,
    }
}

#[test]
fn reset_is_the_providers_first() {
    let (a, b) = ("2026-08-27T00:00:00Z", "2026-08-28T00:00:00Z");
    assert_eq!(resolve_reset(&Some(status(None, Some(a))), &Some(row(None, Some(b)))), Some(dt(a)));
    assert_eq!(resolve_reset(&Some(status(None, None)), &Some(row(None, Some(b)))), Some(dt(b)));
    assert_eq!(resolve_reset(&None, &Some(row(None, Some(b)))), Some(dt(b)));
    assert_eq!(resolve_reset(&None, &Some(row(None, None))), None);
    assert_eq!(resolve_reset(&None, &None), None);
}

#[test]
fn configured_cap_has_its_own_precedence() {
    let mut cfg = Config::sample();
    let tok = Unit::Tokens;
    cfg.services.codex.weekly_limit =
        Some(LimitCfg { value: num(7.0), unit: "tokens".to_string(), source: "mine".to_string() });
    let provider = Some(ProviderCap { percent: num(50.0), implied: num(2.0) });
    let stored = Some(row(Some(9.0), None));
    let of = |p: Option<ProviderCap>, row: &Option<LimitRow>, service: &str, unit: Unit, consumed: f64| {
        let (cap, source) = resolve_cap(p, row, &cfg, service, unit, num(consumed));
        (cap.map(val), source)
    };
    let is = |x: f64, s: &str| (Some(x), Some(s.to_string()));
    assert_eq!(of(provider, &stored, "codex", tok, 1.0), is(2.0, "real"));
    assert_eq!(of(provider, &stored, "codex", tok, 0.0), is(9.0, "stored"));
    assert_eq!(of(None, &Some(row(None, None)), "codex", tok, 1.0), is(7.0, "mine"));
    assert_eq!(of(None, &None, "codex", Unit::Usd, 1.0), (None, None));
    assert_eq!(of(None, &None, "claude_code", tok, 1.0), (None, None));
}

#[test]
fn observed_cap_is_kept_per_service() {
    assert_eq!(observed_cap_key("codex"), "observed_cap:codex");
}

#[test]
fn percentages_that_can_be_logged() {
    assert!(valid_percent(num(0.1)) && valid_percent(num(100.0)));
    assert!(!valid_percent(num(0.0)) && !valid_percent(num(100.1)) && !valid_percent(num(f64::NAN)));
}
