use metoks::forecast::rate::{
    active_hours, covered_hours, cut_off, group_hours, hour_start, hours_of, Cell, HourGroup,
    without_extremes, RateModel, Segment, ENOUGH_HOURS,
};
use metoks::number::Real;
use metoks::time::{parse_dt, Timestamp};

fn num(x: f64) -> Real {
    Real { bits: x.to_bits() }
}

fn val(x: Real) -> f64 {
    f64::from_bits(x.bits)
}

fn dt(s: &str) -> Timestamp {
    parse_dt(s).unwrap()
}

fn model_in(tz: &str, lambda: f64, var: f64) -> RateModel {
    RateModel {
        lambda: [[num(lambda); 24]; 7],
        var: [[num(var); 24]; 7],
        tz: tz.to_string(),
        weeks: num(4.0),
    }
}

fn uniform_model(lambda: f64, var: f64) -> RateModel {
    model_in("UTC", lambda, var)
}

fn accumulate(m: &RateModel, now: Timestamp, upto: Timestamp) -> (f64, f64) {
    let (mut mean, mut var) = (0.0, 0.0);
    for s in m.accumulate_future(now, upto).unwrap() {
        let frac = s.secs as f64 / 3600.0;
        mean += val(s.rate) * frac;
        var += val(s.variance) * frac;
    }
    (mean, var)
}

#[test]
fn rate_model_accumulate_grows_mean_and_var_linearly() {
    let m = uniform_model(10.0, 4.0);
    let now = dt("2026-08-10T00:00:00Z");
    let (m1, v1) = accumulate(&m, now, now.shift(10 * 3600));
    assert!((m1 - 100.0).abs() < 1e-6, "mean={m1}"); // 10h × 10
    assert!((v1 - 40.0).abs() < 1e-6, "var={v1}"); // 10h × 4
    // Twice the horizon → twice the mean and twice the variance (so the ±σ
    // band widens like √horizon, not linearly).
    let (m2, v2) = accumulate(&m, now, now.shift(20 * 3600));
    assert!((m2 - 200.0).abs() < 1e-6);
    assert!((v2 - 80.0).abs() < 1e-6);
}

#[test]
fn rate_model_partial_hour_apportioned() {
    let m = uniform_model(10.0, 4.0);
    let now = dt("2026-08-10T00:30:00Z"); // start mid-hour
    let (mean, var) = accumulate(&m, now, now.shift(30 * 60));
    assert!((mean - 5.0).abs() < 1e-6, "mean={mean}"); // half an hour
    assert!((var - 2.0).abs() < 1e-6, "var={var}");
}

#[test]
fn segments_follow_the_hours_of_the_zone() {
    let mut m = model_in("America/Los_Angeles", 1.0, 0.0);
    m.lambda[6][23] = num(7.0); // Sunday, 23:00 local
    let now = dt("2026-08-10T06:30:00Z"); // Sunday 23:30 in Los Angeles
    let s: Vec<Segment> = m.accumulate_future(now, dt("2026-08-10T08:15:00Z")).unwrap();
    assert_eq!(s.len(), 3);
    assert_eq!((s[0].secs, s[1].secs, s[2].secs), (1800, 3600, 900));
    assert_eq!((val(s[0].rate), val(s[1].rate)), (7.0, 1.0));
    assert_eq!(s[0].from, now);
    assert_eq!(s[0].until, s[1].from);
    assert_eq!(s[2].until, dt("2026-08-10T08:15:00Z"));
}

#[test]
fn nothing_is_expected_of_the_past() {
    let m = uniform_model(10.0, 4.0);
    let now = dt("2026-08-10T00:30:00Z");
    assert!(m.accumulate_future(now, now).unwrap().is_empty());
    assert!(m.accumulate_future(now, dt("2026-08-09T00:00:00Z")).unwrap().is_empty());
}

#[test]
fn clock_changes_of_an_hour_are_walked_over() {
    let m = model_in("America/Los_Angeles", 1.0, 1.0);
    // The hour from 1:00 to 2:00 is shown twice on 1 November 2026.
    let (mean, _) = accumulate(&m, dt("2026-11-01T06:00:00Z"), dt("2026-11-01T14:00:00Z"));
    assert!((mean - 8.0).abs() < 1e-9);
    // The hour from 2:00 to 3:00 is skipped on 8 March 2026.
    let (mean, _) = accumulate(&m, dt("2026-03-08T06:00:00Z"), dt("2026-03-08T14:00:00Z"));
    assert!((mean - 8.0).abs() < 1e-9);
}

#[test]
fn walk_that_does_not_advance_is_told() {
    // Clocks on Lord Howe Island are set back by half an hour at 2:00.
    let m = model_in("Australia/Lord_Howe", 1.0, 1.0);
    assert!(m.accumulate_future(dt("2026-04-04T12:00:00Z"), dt("2026-04-04T18:00:00Z")).is_none());
    assert!(m.accumulate_future(dt("2026-04-05T12:00:00Z"), dt("2026-04-05T18:00:00Z")).is_some());
}

#[test]
fn unknown_zone_is_utc() {
    let m = model_in("Mars/Olympus", 3.0, 1.0);
    let s = m.accumulate_future(dt("2026-08-10T00:30:00Z"), dt("2026-08-10T02:00:00Z")).unwrap();
    assert_eq!(s.iter().map(|x| x.secs).collect::<Vec<_>>(), vec![1800, 3600]);
}

/// The seconds that a run spends in each hour of the week, by its rate.
fn per_hour(s: &[Segment]) -> Vec<i64> {
    let mut v = vec![0; 168];
    for x in s {
        v[val(x.rate) as usize] += x.secs;
    }
    v
}

/// Rates that tell the hours of the week apart.
fn numbered_model() -> RateModel {
    let mut m = uniform_model(0.0, 0.0);
    for d in 0..7 {
        for h in 0..24 {
            m.lambda[d][h] = num((24 * d + h) as f64);
        }
    }
    m
}

#[test]
fn adjoining_spans_add_up_to_the_whole() {
    let m = numbered_model();
    let (a, b, c) = (dt("2026-08-10T00:30:00Z"), dt("2026-08-12T07:45:12Z"), dt("2026-08-15T23:10:00Z"));
    let whole = per_hour(&m.accumulate_future(a, c).unwrap());
    let (x, y) = (
        per_hour(&m.accumulate_future(a, b).unwrap()),
        per_hour(&m.accumulate_future(b, c).unwrap()),
    );
    assert!((0..168).all(|i| whole[i] == x[i] + y[i]));
    assert_eq!(whole[24 * 2 + 7], 3600);
    assert_eq!(x[24 * 2 + 7], 45 * 60 + 12);
}

#[test]
fn week_holds_every_hour_once() {
    let m = numbered_model();
    let a = dt("2026-08-12T07:45:12Z");
    assert_eq!(per_hour(&m.accumulate_future(a, a.shift(7 * 86400)).unwrap()), vec![3600; 168]);
    let (mean, var) = accumulate(&uniform_model(10.0, 4.0), a, a.shift(7 * 86400));
    assert!((mean - 1680.0).abs() < 1e-6 && (var - 672.0).abs() < 1e-6);
}

#[test]
fn growing_spike_changes_nothing() {
    let with = |spike: f64| -> Vec<Real> {
        (1..=12).map(|i| num(i as f64)).chain([num(0.0), num(spike)]).collect()
    };
    let of = |v: Vec<Real>| -> Vec<f64> {
        without_extremes(
            v,
            |x, med| num((val(x) - val(med)).abs()),
            |med, mad| num(val(med) + 4.0 * 1.4826 * val(mad)),
        )
        .iter()
        .map(|x| val(*x))
        .collect()
    };
    // The middle is 7, the distance in the middle 3.
    let mut cut: Vec<f64> = (1..=12).map(|i| i as f64).collect();
    cut.extend([0.0, 7.0 + 4.0 * 1.4826 * 3.0]);
    assert_eq!(of(with(1000.0)), cut);
    assert_eq!(of(with(1e12)), cut);
    // An hour below the bound is left as it is, and so are all of too few.
    assert_eq!(of(with(20.0))[13], 20.0);
    let few: Vec<Real> = (1..=10).map(|i| num(i as f64)).chain([num(1e12)]).collect();
    assert_eq!(of(few)[10], 1e12);
}

#[test]
fn model_has_data_with_a_rate_and_weeks() {
    assert!(uniform_model(10.0, 4.0).has_data());
    assert!(!uniform_model(0.0, 4.0).has_data());
    let mut m = uniform_model(0.0, 0.0);
    m.lambda[6][23] = num(0.5);
    assert!(m.has_data());
    m.weeks = num(0.0);
    assert!(!m.has_data());
}

#[test]
fn hours_are_grouped_in_order() {
    let ts: Vec<String> = [
        "2026-08-10T05:10:00Z",
        "2026-08-10T03:59:59Z",
        "nonsense",
        "2026-08-10T07:00:00+02:00",
        "2026-08-10T03:00:00Z",
    ]
    .iter()
    .map(|s| s.to_string())
    .collect();
    let hours = hours_of(&ts);
    let h3 = dt("2026-08-10T03:00:00Z").secs;
    let h5 = dt("2026-08-10T05:00:00Z").secs;
    assert_eq!(hours, vec![Some(h5), Some(h3), None, Some(h5), Some(h3)]);
    let g: Vec<HourGroup> = group_hours(&hours);
    assert_eq!(g.len(), 2);
    assert_eq!((g[0].hour, g[0].rows.clone()), (h3, vec![1, 4]));
    assert_eq!((g[1].hour, g[1].rows.clone()), (h5, vec![0, 3]));
    assert_eq!(hour_start(dt("1969-12-31T23:30:00Z")), -3600);
}

#[test]
fn every_hour_of_the_history_is_covered() {
    let h = dt("2026-08-10T03:00:00Z").secs;
    let groups = vec![
        HourGroup { hour: h, rows: vec![0] },
        HourGroup { hour: h + 2 * 3600, rows: vec![1] },
    ];
    let cells = covered_hours("UTC", &groups, dt("2026-08-10T06:20:00Z"));
    assert_eq!(
        cells,
        vec![
            Cell { weekday: 0, hour: 3, group: Some(0) },
            Cell { weekday: 0, hour: 4, group: None },
            Cell { weekday: 0, hour: 5, group: Some(1) },
            Cell { weekday: 0, hour: 6, group: None },
        ]
    );
    assert!(covered_hours("UTC", &groups, dt("2026-08-10T02:59:59Z")).is_empty());
    assert!(covered_hours("UTC", &vec![], dt("2026-08-10T02:59:59Z")).is_empty());
    let west = covered_hours("America/Los_Angeles", &groups, dt("2026-08-10T03:00:00Z"));
    assert_eq!(west, vec![Cell { weekday: 6, hour: 20, group: Some(0) }]);
}

#[test]
fn extreme_hours_are_told_from_enough_others() {
    let few: Vec<Real> = (0..12).map(|i| num(i as f64)).collect();
    assert!(active_hours(&few).is_none()); // zero is not above zero
    let many: Vec<Real> = (0..13).rev().map(|i| num(i as f64)).collect();
    let s = active_hours(&many).unwrap();
    assert_eq!(s.len(), ENOUGH_HOURS);
    assert_eq!(s.iter().map(|x| val(*x)).collect::<Vec<_>>(), (1..13).map(|i| i as f64).collect::<Vec<_>>());
}

#[test]
fn hours_are_cut_off_at_a_bound_above_zero() {
    let v: Vec<Real> = [1.0, 5.0, 9.0].iter().map(|x| num(*x)).collect();
    let of = |b: f64| cut_off(&v, num(b)).iter().map(|x| val(*x)).collect::<Vec<_>>();
    assert_eq!(of(5.0), vec![1.0, 5.0, 5.0]);
    assert_eq!(of(0.0), vec![1.0, 5.0, 9.0]);
    assert_eq!(of(-1.0), vec![1.0, 5.0, 9.0]);
}
