use metoks::forecast::cumulative::{
    cumulative_curve, sample_times, token_cumulative_by_model, TokenRow, TokenText,
};
use metoks::time::{parse_dt, Timestamp};

fn dt(s: &str) -> Timestamp {
    parse_dt(s).unwrap()
}

fn text(ts: &str, model: &str, amount: i64) -> TokenText {
    TokenText { ts: ts.to_string(), model: model.to_string(), amount }
}

#[test]
fn curve_is_sampled_at_hours_markers_and_the_end() {
    let start = dt("2026-08-24T00:30:00Z");
    let upto = dt("2026-08-24T03:10:00Z");
    let rows = vec![
        text("2026-08-24T00:45:00Z", "b", 5),
        text("not a time", "z", 1000),
        text("2026-08-24T01:20:00Z", "a", 7),
        text("2026-08-24T03:10:00Z", "b", 11),
    ];
    let markers = vec![dt("2026-08-24T01:30:00Z"), dt("2026-08-23T00:00:00Z"), start];
    let (models, points) = token_cumulative_by_model(&rows, start, upto, &markers);
    assert_eq!(models, vec!["a", "b"]);
    let got: Vec<(Timestamp, Vec<i128>)> = points.into_iter().map(|p| (p.ts, p.cum)).collect();
    assert_eq!(
        got,
        vec![
            (start, vec![0, 0]),
            (dt("2026-08-24T01:00:00Z"), vec![0, 5]),
            (dt("2026-08-24T01:30:00Z"), vec![7, 5]),
            (dt("2026-08-24T02:00:00Z"), vec![7, 5]),
            (dt("2026-08-24T03:00:00Z"), vec![7, 5]),
            (upto, vec![7, 16]),
        ]
    );
}

#[test]
fn samples_are_distinct_and_rise() {
    let start = dt("2026-08-24T00:00:00Z");
    let upto = dt("2026-08-24T02:00:00Z");
    let marker = dt("2026-08-24T01:00:00Z");
    let s = sample_times(start, upto, &vec![marker, upto, marker]);
    assert_eq!(s, vec![marker.secs, upto.secs]);
    assert_eq!(sample_times(upto, start, &vec![marker]), vec![start.secs]);
}

#[test]
fn curve_without_events_is_flat() {
    let start = dt("2026-08-24T00:00:00Z");
    let upto = dt("2026-08-24T01:30:00Z");
    let (models, points) = cumulative_curve(&vec![], start, upto, &vec![]);
    assert!(models.is_empty());
    assert_eq!(points.len(), 3);
    assert!(points.iter().all(|p| p.cum.is_empty()));
}

#[test]
fn later_events_do_not_count_and_hold_back_those_behind_them() {
    let start = dt("2026-08-24T00:00:00Z");
    let upto = dt("2026-08-24T01:00:00Z");
    let row = |secs: i64, amount: i64| TokenRow { secs, model: "m".to_string(), amount };
    let rows = vec![row(start.secs + 60, 1), row(upto.secs + 60, 2), row(start.secs + 120, 4)];
    let (_, points) = cumulative_curve(&rows, start, upto, &vec![]);
    assert_eq!(points.last().unwrap().cum, vec![1]);
}

#[test]
fn curve_ends_with_the_totals() {
    let start = dt("2026-08-24T00:00:00Z");
    let upto = dt("2026-08-26T00:00:00Z");
    let rows: Vec<TokenRow> = (0..100)
        .map(|i| TokenRow {
            secs: start.secs + i * 1000,
            model: format!("m{}", i % 3),
            amount: i64::MAX,
        })
        .collect();
    let (models, points) = cumulative_curve(&rows, start, upto, &vec![]);
    assert_eq!(models, vec!["m0", "m1", "m2"]);
    let max = i64::MAX as i128;
    assert_eq!(points.last().unwrap().cum, vec![34 * max, 33 * max, 33 * max]);
    for w in points.windows(2) {
        assert!(w[0].ts.lt(w[1].ts));
        assert!((0..3).all(|m| w[0].cum[m] <= w[1].cum[m]));
    }
}
