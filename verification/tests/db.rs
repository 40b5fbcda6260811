use metoks::db::{
    amount_expr, amounts_since, consumed_in_window, event_cells, get_file_offset, set_file_offset,
    Fiducial, LimitRow, RateLimitStatus,
};
use metoks::models::{Cost, Event, MeteredMode, Unit};
use metoks::number::Real;
use metoks::time::{parse_dt, Timestamp};

fn num(x: f64) -> Real {
    Real { bits: x.to_bits() }
}

fn dt(s: &str) -> Timestamp {
    parse_dt(s).unwrap()
}

const TOKENS: &str = "input_tokens+output_tokens+cache_read_tokens+cache_write_tokens+reasoning_tokens";

#[test]
fn limits_are_read_back() {
    let row = LimitRow {
        service: "codex".to_string(),
        window_kind: "weekly".to_string(),
        limit_value: Some(num(5.5)),
        limit_unit: Unit::Usd,
        limit_source: "configured".to_string(),
        window_reset: Some(dt("2026-08-27T00:00:00.123456789Z")),
        window_anchor: None,
    };
    let cells = row.store();
    assert_eq!(cells.limit_unit, "usd");
    assert_eq!(cells.window_reset.as_deref(), Some("2026-08-27T00:00:00.123456789+00:00"));
    let again = cells.clone().load();
    assert_eq!((again.service.as_str(), again.window_kind.as_str()), ("codex", "weekly"));
    assert_eq!((again.limit_value, again.limit_unit), (row.limit_value, row.limit_unit));
    assert_eq!((again.window_reset, again.window_anchor), (row.window_reset, None));
    assert_eq!(again.limit_source, "configured");
    let mut odd = cells;
    odd.limit_unit = "eur".to_string();
    odd.window_reset = Some("whenever".to_string());
    let odd = odd.load();
    assert_eq!((odd.limit_unit, odd.window_reset), (Unit::Tokens, None));
}

#[test]
fn readings_are_read_back() {
    let now = dt("2026-09-01T00:00:00Z");
    let row = Fiducial {
        id: 3,
        service: "codex".to_string(),
        window_kind: "weekly".to_string(),
        ts: dt("2026-08-20T10:00:00Z"),
        percent: num(47.0),
        resets_at: Some(dt("2026-08-27T00:00:00Z")),
        window_start: dt("2026-08-20T00:00:00Z"),
        measured_cumulative: num(1234.0),
        unit: Unit::Tokens,
    };
    let cells = row.store();
    let again = cells.clone().load(now);
    assert_eq!((again.id, again.ts, again.percent), (3, row.ts, row.percent));
    assert_eq!((again.resets_at, again.window_start), (row.resets_at, row.window_start));
    assert_eq!((again.measured_cumulative, again.unit), (row.measured_cumulative, Unit::Tokens));
    let mut odd = cells;
    odd.ts = "?".to_string();
    odd.window_start = String::new();
    let odd = odd.load(now);
    assert_eq!((odd.ts, odd.window_start), (now, now));
}

#[test]
fn rate_limits_are_read_back() {
    let now = dt("2026-09-01T00:00:00Z");
    let row = RateLimitStatus {
        service: "codex".to_string(),
        window_kind: "session".to_string(),
        used_percent: Some(num(12.5)),
        window_minutes: Some(300),
        resets_at: None,
        observed_at: dt("2026-08-20T10:00:00Z"),
    };
    let again = row.store().load(now);
    assert_eq!((again.used_percent, again.window_minutes), (row.used_percent, Some(300)));
    assert_eq!((again.resets_at, again.observed_at), (None, row.observed_at));
    let mut odd = row.store();
    odd.observed_at = "?".to_string();
    assert_eq!(odd.load(now).observed_at, now);
}

#[test]
fn events_are_stored_as_cells() {
    let e = Event {
        event_uid: "u".to_string(),
        service: "codex".to_string(),
        metered_mode: MeteredMode::Subscription,
        ts: dt("2026-08-20T10:00:00Z"),
        model: None,
        input_tokens: 1,
        output_tokens: 2,
        cache_read_tokens: 3,
        cache_write_tokens: 4,
        reasoning_tokens: 5,
        cost: Cost::Charges(vec![]),
        cost_is_estimate: true,
        session_id: None,
        project: None,
        raw_source: None,
    };
    let c = event_cells(&e);
    assert_eq!((c.metered_mode, c.ts.as_str(), c.cost_is_estimate), ("subscription", "2026-08-20T10:00:00+00:00", 1));
    let c = event_cells(&Event { cost_is_estimate: false, metered_mode: MeteredMode::PayPerToken, ..e });
    assert_eq!((c.metered_mode, c.cost_is_estimate), ("pay_per_token", 0));
}

#[test]
fn offsets_are_read_back() {
    assert_eq!(get_file_offset(None), 0);
    assert_eq!(get_file_offset(Some(-1)), 0);
    assert_eq!(get_file_offset(Some(set_file_offset(12_345))), 12_345);
    assert_eq!(set_file_offset(u64::MAX), -1);
}

#[test]
fn queries() {
    assert_eq!(amount_expr(Unit::Tokens), TOKENS);
    assert_eq!(amount_expr(Unit::Usd), "cost_usd");
    assert_eq!(
        consumed_in_window(Unit::Tokens),
        format!("SELECT COALESCE(SUM({TOKENS}),0) FROM events WHERE service=?1 AND ts>=?2 AND ts<=?3")
    );
    assert_eq!(
        consumed_in_window(Unit::Usd),
        "SELECT COALESCE(SUM(cost_usd),0) FROM events WHERE service=?1 AND ts>=?2 AND ts<=?3"
    );
    assert_eq!(amounts_since(Unit::Usd), "SELECT ts, (cost_usd) FROM events WHERE service=?1 AND ts>=?2");
}
