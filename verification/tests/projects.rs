use metoks::projects::{bucket_projects, project_series, ProjectRow, TimedRow};
use metoks::time::{parse_dt, Timestamp};

fn dt(s: &str) -> Timestamp {
    parse_dt(s).unwrap()
}

fn row(project: &str, ts: &str, tokens: i64) -> ProjectRow {
    ProjectRow { project: project.to_string(), ts: ts.to_string(), tokens }
}

#[test]
fn projects_are_bucketed_and_sorted_by_total() {
    let since = dt("2026-08-10T00:00:00Z");
    let now = dt("2026-08-11T00:00:00Z");
    let rows = vec![
        row("small", "2026-08-10T01:00:00Z", 3),
        row("large", "2026-08-10T05:59:59Z", 10),
        row("large", "2026-08-10T06:00:00Z", 20),
        row("small", "garbled", 1000),
        row("late", "2026-08-11T06:00:00Z", 1000),
        row("large", "2026-08-11T00:00:00Z", 5),
    ];
    let s = project_series(&rows, since, now, 6);
    assert_eq!(s.len(), 2);
    assert_eq!((s[0].project.as_str(), s[0].total), ("large", 35));
    assert_eq!(s[0].points, vec![10, 20, 0, 0, 5]);
    assert_eq!((s[1].project.as_str(), s[1].total), ("small", 3));
    assert_eq!(s[1].points, vec![3, 0, 0, 0, 0]);
}

#[test]
fn stretch_is_at_least_an_hour_and_the_series_at_least_two() {
    let t = dt("2026-08-10T00:00:00Z");
    let rows = vec![row("p", "2026-08-10T00:00:00Z", 1)];
    assert_eq!(project_series(&rows, t, t, 0)[0].points, vec![1, 0]);
    assert_eq!(project_series(&rows, t, t, -5)[0].points.len(), 2);
    assert!(project_series(&vec![], t, t, 6).is_empty());
}

#[test]
fn only_what_lies_between_the_start_and_now_counts() {
    let since = dt("2026-08-10T00:00:00Z");
    let now = dt("2026-08-11T00:00:00Z");
    let rows = vec![
        row("p", "2026-08-10T00:00:00Z", 1),
        row("p", "2026-08-09T23:59:59.999Z", 1000),
        row("p", "2026-08-11T00:00:00Z", 2),
        row("p", "2026-08-11T00:01:00Z", 1000),
        row("q", "2026-08-11T00:01:00Z", 1000),
    ];
    let s = project_series(&rows, since, now, 6);
    assert_eq!(s.len(), 1);
    assert_eq!((s[0].project.as_str(), s[0].total), ("p", 3));
    assert_eq!(s[0].points, vec![1, 0, 0, 0, 2]);
}

#[test]
fn totals_beyond_64_bits_are_the_nearest() {
    let t = dt("2026-08-10T00:00:00Z");
    let at = |p: &str, tokens: i64| TimedRow { project: p.to_string(), at: Some(t), tokens };
    let rows = vec![
        at("down", i64::MIN),
        at("down", i64::MIN),
        at("up", i64::MAX),
        at("up", i64::MAX),
        TimedRow { project: "up".to_string(), at: None, tokens: 1 },
    ];
    let s = bucket_projects(&rows, t, t, 6);
    assert_eq!((s[0].project.as_str(), s[0].total), ("up", i64::MAX));
    assert_eq!(s[0].points[0], 2 * i64::MAX as i128);
    assert_eq!((s[1].project.as_str(), s[1].total), ("down", i64::MIN));
}
