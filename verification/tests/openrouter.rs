use metoks::collectors::openrouter::{derive_delta_event, parse_credits, read_credits};
use metoks::json::parse_json;
use metoks::models::{Cost, Event, MeteredMode, SERVICE_OPENROUTER};
use metoks::number::Real;
use metoks::time::{parse_dt, Timestamp};
use sha2::{Digest, Sha256};

fn num(x: f64) -> Real {
    Real { bits: x.to_bits() }
}

/// What a total gives after another, told by its decimal text.
fn delta(prev: Option<Real>, curr: Real, ts: Timestamp) -> Option<Event> {
    derive_delta_event(prev, curr, &format!("{}", f64::from_bits(curr.bits)), ts)
}

fn now() -> Timestamp {
    let t = chrono::Utc::now();
    Timestamp { secs: t.timestamp(), nanos: t.timestamp_subsec_nanos() }
}

fn cost_usd(e: &Event) -> f64 {
    match &e.cost {
        Cost::Rise { from, to } => f64::from_bits(to.bits) - f64::from_bits(from.bits),
        Cost::Charges(_) => panic!("a rise was expected"),
    }
}

#[test]
fn first_snapshot_is_baseline_only() {
    let ev = delta(None, num(10.0), now());
    assert!(ev.is_none());
}

#[test]
fn positive_delta_emits_event_with_cost() {
    let ev = delta(Some(num(10.0)), num(12.5), now()).unwrap();
    assert!((cost_usd(&ev) - 2.5).abs() < 1e-9);
    assert_eq!(ev.metered_mode, MeteredMode::PayPerToken);
    assert!(!ev.cost_is_estimate);
    assert_eq!(ev.service, SERVICE_OPENROUTER);
}

#[test]
fn zero_or_negative_delta_emits_nothing() {
    assert!(delta(Some(num(10.0)), num(10.0), now()).is_none());
    assert!(delta(Some(num(10.0)), num(9.0), now()).is_none());
}

#[test]
fn parse_credits_shape() {
    let v = parse_json(r#"{"data":{"total_credits":40.0,"total_usage":3.5}}"#).unwrap();
    let c = parse_credits(&v).unwrap();
    assert_eq!(f64::from_bits(c.total_credits.bits), 40.0);
    assert_eq!(f64::from_bits(c.total_usage.bits), 3.5);
}

#[test]
fn credits_need_the_usage() {
    assert!(read_credits(r#"{"data":{"total_credits":40.0}}"#).is_none());
    assert!(read_credits(r#"{"total_usage":3.5}"#).is_none());
    assert!(read_credits("nothing").is_none());
    let c = read_credits(r#"{"data":{"total_usage":3}}"#).unwrap();
    assert_eq!(f64::from_bits(c.total_usage.bits), 3.0);
    assert_eq!(f64::from_bits(c.total_credits.bits), 0.0);
}

#[test]
fn rise_record_is_told_by_time_and_total() {
    let ts = parse_dt("2026-08-20T19:10:28Z").unwrap();
    let e = delta(Some(num(1.0)), num(1.25), ts).unwrap();
    let text = "openrouter|2026-08-20T19:10:28+00:00|1.25";
    assert_eq!(e.event_uid, format!("{:x}", Sha256::digest(text.as_bytes())));
    assert_eq!(e.raw_source.as_deref(), Some("https://openrouter.ai/api/v1/credits"));
    assert!(e.model.is_none() && e.session_id.is_none() && e.project.is_none());
    assert_eq!(e.ts, ts);
}

#[test]
fn unordered_totals_emit_as_their_difference_says() {
    // The difference of equal infinities is no number, and not zero or less.
    let inf = num(f64::INFINITY);
    assert!(delta(Some(inf), inf, now()).is_some());
    assert!(delta(Some(num(f64::NAN)), num(1.0), now()).is_some());
    assert!(delta(Some(inf), num(1.0), now()).is_none());
    assert!(delta(Some(num(0.0)), num(-0.0), now()).is_none());
}

#[test]
fn rises_add_up_to_what_was_spent() {
    let totals = [3.5, 3.5, 4.0, 7.25, 7.25, 9.0];
    let mut sum = 0.0;
    for w in totals.windows(2) {
        if let Some(e) = delta(Some(num(w[0])), num(w[1]), now()) {
            sum += cost_usd(&e);
        }
    }
    assert_eq!(sum, 5.5);
}
