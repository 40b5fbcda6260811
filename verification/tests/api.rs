use metoks::api::{
    aggregate, asset_path, breakdown_days, bucket_start, build_services, build_timeseries,
    content_type, default_source, group_sum, series_options, timeseries_query, view_is_fresh, Column,
    SeriesRow, VIEW_TTL,
};
use metoks::config::{Config, LimitCfg};
use metoks::db::CountsSummary;
use metoks::models::{MeteredMode, Unit};
use metoks::number::Real;
use metoks::time::{parse_dt, Timestamp};

const TOKENS: &str = "input_tokens+output_tokens+cache_read_tokens+cache_write_tokens+reasoning_tokens";

fn dt(s: &str) -> Timestamp {
    parse_dt(s).unwrap()
}

#[test]
fn content_types() {
    let cases = [
        ("index.html", "text/html; charset=utf-8"),
        ("a/b.js", "text/javascript; charset=utf-8"),
        ("x.css", "text/css; charset=utf-8"),
        ("x.min.json", "application/json"),
        ("x.svg", "image/svg+xml"),
        ("x.png", "image/png"),
        ("favicon.ico", "image/x-icon"),
        ("f.woff2", "font/woff2"),
        ("html", "text/html; charset=utf-8"),
        ("x.HTML", "application/octet-stream"),
        ("x.", "application/octet-stream"),
        ("", "application/octet-stream"),
    ];
    for (path, want) in cases {
        assert_eq!(content_type(path), want, "{path}");
    }
}

#[test]
fn requests_ask_for_files() {
    assert_eq!(asset_path("/"), "index.html");
    assert_eq!(asset_path(""), "index.html");
    assert_eq!(asset_path("//assets/x.js"), "assets/x.js");
    assert_eq!(asset_path("a/"), "a/");
}

#[test]
fn services_are_summed_up() {
    let mut cfg = Config::sample();
    cfg.services.codex.weekly_limit =
        Some(LimitCfg { value: Real { bits: 0 }, unit: "usd".to_string(), source: String::new() });
    let half = Real { bits: 0.5f64.to_bits() };
    let counts = vec![CountsSummary { service: "codex".to_string(), events: 3, cost_usd: half, tokens: 99 }];
    let s = build_services(&cfg, &counts);
    let names: Vec<&str> = s.iter().map(|e| e.service).collect();
    assert_eq!(names, vec!["claude_code", "codex", "openrouter"]);
    assert_eq!((s[0].enabled, s[0].unit, s[0].events, s[0].tokens, s[0].cost_usd.bits), (true, Unit::Tokens, 0, 0, 0));
    assert_eq!((s[1].enabled, s[1].unit, s[1].events, s[1].tokens, s[1].cost_usd), (true, Unit::Usd, 3, 99, half));
    assert_eq!((s[2].enabled, s[2].unit), (false, Unit::Usd));
    let modes: Vec<MeteredMode> = s.iter().map(|e| e.metered_mode).collect();
    assert_eq!(modes, vec![MeteredMode::Subscription, MeteredMode::Subscription, MeteredMode::PayPerToken]);
}

#[test]
fn buckets_begin_in_the_zone() {
    let t = dt("2026-08-10T06:30:15Z");
    assert_eq!(bucket_start(t, "UTC", true), dt("2026-08-10T00:00:00Z"));
    assert_eq!(bucket_start(t, "UTC", false), dt("2026-08-10T06:00:00Z"));
    assert_eq!(bucket_start(t, "America/Los_Angeles", true), dt("2026-08-09T07:00:00Z"));
    assert_eq!(bucket_start(t, "Asia/Kathmandu", false), dt("2026-08-10T06:15:00Z"));
    assert_eq!(bucket_start(t, "Nowhere/At_All", true), dt("2026-08-10T00:00:00Z"));
    // An hour that the clocks show twice is left as it is.
    let twice = dt("2026-11-01T08:30:15Z");
    assert_eq!(bucket_start(twice, "America/Los_Angeles", false), twice);
}

fn row(ts: &str, key: &str, tokens: i64) -> SeriesRow {
    SeriesRow { ts: ts.to_string(), key: key.to_string(), tokens }
}

#[test]
fn events_are_gathered_in_buckets() {
    let rows = vec![
        row("2026-08-10T06:30:00Z", "codex", 1),
        row("2026-08-09T12:00:00Z", "codex", 2),
        row("unknown", "codex", 4),
        row("2026-08-10T23:00:00+00:00", "claude_code", 8),
        row("2026-08-10T00:00:00Z", "codex", i64::MAX),
    ];
    let b = build_timeseries(&rows, "UTC", true);
    let got: Vec<(String, String, i128, Vec<usize>)> =
        b.into_iter().map(|x| (x.ts, x.key, x.tokens, x.rows)).collect();
    let day = |d: &str| format!("2026-08-{d}T00:00:00+00:00");
    assert_eq!(
        got,
        vec![
            (day("09"), "codex".to_string(), 2, vec![1]),
            (day("10"), "claude_code".to_string(), 8, vec![3]),
            (day("10"), "codex".to_string(), i64::MAX as i128 + 1, vec![0, 4]),
        ]
    );
    assert_eq!(build_timeseries(&rows, "UTC", false).len(), 4);
}

#[test]
fn rows_without_a_label_are_left_out() {
    let rows = vec![row("", "k", 1), row("", "k", 2), row("", "j", 4)];
    let labels = vec![Some("t".to_string()), None, Some("t".to_string())];
    let b = aggregate(&labels, &rows);
    let got: Vec<(&str, i128)> = b.iter().map(|x| (x.key.as_str(), x.tokens)).collect();
    assert_eq!(got, vec![("j", 4), ("k", 1)]);
}

#[test]
fn series_by_day_and_service_unless_asked() {
    assert_eq!(series_options(None, None), (true, false));
    assert_eq!(series_options(Some("hour"), Some("model")), (false, true));
    assert_eq!(series_options(Some("week"), Some("project")), (true, false));
}

#[test]
fn queries_of_the_series() {
    assert_eq!(
        timeseries_query(false, false),
        format!("SELECT ts, service, {TOKENS}, cost_usd FROM events WHERE ts>=?1 AND ts<=?2")
    );
    assert_eq!(
        timeseries_query(true, true),
        format!("SELECT ts, COALESCE(model,'(unknown)'), {TOKENS}, cost_usd FROM events WHERE ts>=?1 AND ts<=?2 AND service=?3")
    );
    for (col, name) in [(Column::Model, "model"), (Column::Project, "project")] {
        let words: Vec<String> = group_sum(col).split_whitespace().map(|w| w.to_string()).collect();
        let want = format!(
            "SELECT service, COALESCE({name},'(unknown)') AS k, COALESCE(SUM({TOKENS}),0) AS tokens, \
             COALESCE(SUM(cost_usd),0) AS cost, COUNT(*) AS events FROM events WHERE ts>=?1 \
             GROUP BY service, k ORDER BY tokens DESC"
        );
        assert_eq!(words, want.split_whitespace().collect::<Vec<_>>());
    }
}

#[test]
fn views_are_kept_for_a_minute() {
    assert_eq!(VIEW_TTL, 60);
    assert!(view_is_fresh((1, 2), (1, 2), 59));
    assert!(!view_is_fresh((1, 2), (1, 2), 60));
    assert!(!view_is_fresh((1, 2), (2, 2), 0));
    assert!(!view_is_fresh((1, 2), (1, 3), 0));
}

#[test]
fn defaults_of_requests() {
    assert_eq!((breakdown_days(0), breakdown_days(-9), breakdown_days(30)), (1, 1, 30));
    assert_eq!(default_source(), "configured");
}
