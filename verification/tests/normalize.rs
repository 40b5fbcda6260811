use metoks::json::parse_json;
use metoks::models::{Cost, MeteredMode};
use metoks::normalize::{
    basename, claude_code_line, claude_line, codex_event, codex_parsed, codex_usage_from, event_uid,
    parse_codex_line, rate_window_from, CodexUsage,
};
use metoks::pricing::Pricing;
use metoks::time::{parse_dt, Timestamp};
use sha2::{Digest, Sha256};

const CLAUDE_TEMPLATE: &str = r#"{"message":{"model":"MODEL","id":"msg_TEST","usage":{"input_tokens":10,"output_tokens":20,"cache_creation_input_tokens":5,"cache_read_input_tokens":100}},"requestId":"req_TEST","timestamp":"2026-08-20T19:10:28.376Z","sessionId":"sess-1","cwd":"/Users/x/code/myproj","type":"assistant"}"#;
const CLAUDE_USER_LINE: &str = r#"{"type":"user","message":{"role":"user","content":"hi"},"timestamp":"2026-08-20T19:10:28.376Z"}"#;
const CODEX_TOKENS: &str = r#"{"timestamp":"2026-08-20T19:10:28.376Z","type":"event_msg","payload":{"type":"token_count","info":{"last_token_usage":{"input_tokens":8264,"cached_input_tokens":4864,"cache_write_input_tokens":0,"output_tokens":208,"reasoning_output_tokens":148,"total_tokens":8472}},"rate_limits":{"primary":{"used_percent":88.0,"window_minutes":10080,"resets_at":1787505234},"secondary":null}}}"#;
const CODEX_TURN: &str = r#"{"timestamp":"2026-08-20T19:10:23.822Z","type":"turn_context","payload":{"model":"gpt-5.6-sol","cwd":"/Users/x/code/proj2"}}"#;

/// The model of the template.
fn model() -> String {
    "test-model-4-8".to_string()
}

fn claude() -> String {
    CLAUDE_TEMPLATE.replace("MODEL", &model())
}

fn hex(bytes: &[u8]) -> String {
    format!("{:x}", Sha256::digest(bytes))
}

#[test]
fn claude_line_maps_tokens_and_project() {
    let e = claude_code_line(&claude(), None, None, "f.jsonl", &Pricing::default()).unwrap();
    assert_eq!(e.input_tokens, 10);
    assert_eq!(e.output_tokens, 20);
    assert_eq!(e.cache_write_tokens, 5); // cache_creation → cache_write
    assert_eq!(e.cache_read_tokens, 100); // cache_read_input → cache_read
    assert_eq!(e.model, Some(model()));
    assert_eq!(e.project.as_deref(), Some("myproj")); // basename of cwd
    assert_eq!(e.session_id.as_deref(), Some("sess-1"));
}

#[test]
fn claude_line_fills_the_other_columns() {
    let e = claude_code_line(&claude(), None, None, "f.jsonl", &Pricing::default()).unwrap();
    assert_eq!(e.service, "claude_code");
    assert_eq!(e.metered_mode, MeteredMode::Subscription);
    assert_eq!(e.reasoning_tokens, 0);
    assert!(e.cost_is_estimate);
    assert!(matches!(&e.cost, Cost::Charges(c) if c.is_empty()));
    assert_eq!(e.raw_source.as_deref(), Some("f.jsonl"));
    assert_eq!(Some(e.ts), parse_dt("2026-08-20T19:10:28.376Z"));
    assert_eq!(e.ts.nanos, 376_000_000);
}

#[test]
fn claude_dedupe_uid_is_stable_by_message_identity() {
    let a = claude_code_line(&claude(), None, None, "a.jsonl", &Pricing::default()).unwrap();
    // Same message copied to a different file/session → same uid (dedupes).
    let b = claude_code_line(&claude(), Some("other-sess"), None, "b.jsonl", &Pricing::default()).unwrap();
    assert_eq!(a.event_uid, b.event_uid);
}

#[test]
fn claude_uid_is_the_digest_of_the_ids() {
    let e = claude_code_line(&claude(), None, None, "a.jsonl", &Pricing::default()).unwrap();
    assert_eq!(e.event_uid, hex(b"claude_code|msg_TEST|req_TEST"));
    let only_request = claude().replace(r#""id":"msg_TEST","#, "");
    let e = claude_code_line(&only_request, None, None, "a.jsonl", &Pricing::default()).unwrap();
    assert_eq!(e.event_uid, hex(b"claude_code||req_TEST"));
}

#[test]
fn claude_uid_without_ids_is_that_of_any_record() {
    let line = claude().replace(r#""id":"msg_TEST","#, "").replace(r#""requestId":"req_TEST","#, "");
    let e = claude_code_line(&line, None, None, "a.jsonl", &Pricing::default()).unwrap();
    let ts = parse_dt("2026-08-20T19:10:28.376Z").unwrap();
    assert_eq!(
        e.event_uid,
        event_uid("claude_code", Some("sess-1"), &ts, 10, 20, Some(&model()), None)
    );
}

#[test]
fn claude_skips_lines_without_usage() {
    assert!(claude_code_line(CLAUDE_USER_LINE, None, None, "f", &Pricing::default()).is_none());
}

#[test]
fn claude_skips_what_it_cannot_classify() {
    let p = Pricing::default();
    assert!(claude_code_line("", None, None, "f", &p).is_none());
    assert!(claude_code_line("not json", None, None, "f", &p).is_none());
    assert!(claude_code_line("[1,2]", None, None, "f", &p).is_none());
    let synthetic = CLAUDE_TEMPLATE.replace("MODEL", "<synthetic>");
    assert!(claude_code_line(&synthetic, None, None, "f", &p).is_none());
    let no_model = CLAUDE_TEMPLATE.replace(r#""model":"MODEL","#, "");
    assert!(claude_code_line(&no_model, None, None, "f", &p).is_none());
    let no_time = claude().replace("2026-08-20T19:10:28.376Z", "yesterday");
    assert!(claude_code_line(&no_time, None, None, "f", &p).is_none());
    let nothing = claude()
        .replace(":10,", ":0,")
        .replace(":20,", ":0,")
        .replace(":5,", ":0,")
        .replace(":100}", ":0}");
    assert!(claude_code_line(&nothing, None, None, "f", &p).is_none());
}

#[test]
fn claude_session_and_project_fall_back() {
    let p = Pricing::default();
    let line = claude().replace(r#""sessionId":"sess-1","cwd":"/Users/x/code/myproj","#, "");
    let e = claude_code_line(&line, Some("file"), Some("dir"), "f", &p).unwrap();
    assert_eq!(e.session_id.as_deref(), Some("file"));
    assert_eq!(e.project.as_deref(), Some("dir"));
    let snake = claude().replace("sessionId", "session_id");
    let e = claude_code_line(&snake, Some("file"), None, "f", &p).unwrap();
    assert_eq!(e.session_id.as_deref(), Some("sess-1"));
    // The first spelling counts if it is there at all.
    let odd = claude().replace(r#""sessionId":"sess-1""#, r#""sessionId":7,"session_id":"sess-2""#);
    let e = claude_code_line(&odd, Some("file"), None, "f", &p).unwrap();
    assert_eq!(e.session_id.as_deref(), Some("file"));
}

#[test]
fn claude_document_is_read_without_the_clock() {
    let v = parse_json(&claude()).unwrap();
    let l = claude_line(&v, None, None).unwrap();
    assert_eq!(l.timestamp, "2026-08-20T19:10:28.376Z");
    assert_eq!(l.message_id.as_deref(), Some("msg_TEST"));
    assert_eq!(l.request_id.as_deref(), Some("req_TEST"));
    assert_eq!((l.input, l.output, l.cache_read, l.cache_write), (10, 20, 100, 5));
}

#[test]
fn uid_is_the_digest_of_its_parts() {
    let ts = parse_dt("2026-08-20T19:10:28.376Z").unwrap();
    let text = "codex|s|2026-08-20T19:10:28.376+00:00|-3|9223372036854775807|m";
    assert_eq!(event_uid("codex", Some("s"), &ts, -3, i64::MAX, Some("m"), None), hex(text.as_bytes()));
    let more = format!("{text}|x");
    assert_eq!(event_uid("codex", Some("s"), &ts, -3, i64::MAX, Some("m"), Some("x")), hex(more.as_bytes()));
    let none = "codex||2026-08-20T19:10:28.376+00:00|-9223372036854775808|0|";
    assert_eq!(event_uid("codex", None, &ts, i64::MIN, 0, None, None), hex(none.as_bytes()));
}

#[test]
fn basename_follows_the_last_separator() {
    assert_eq!(basename("/Users/x/code/myproj"), "myproj");
    assert_eq!(basename("C:\\work\\proj"), "proj");
    assert_eq!(basename("a/b\\c"), "c");
    assert_eq!(basename("plain"), "plain");
    assert_eq!(basename("dir/"), "");
    assert_eq!(basename(""), "");
    assert_eq!(basename("/tmp/päth/ünï"), "ünï");
}

#[test]
fn codex_usage_splits_without_double_counting() {
    let p = parse_codex_line(CODEX_TOKENS);
    let u = p.usage.expect("usage");
    assert_eq!(u.input, 8264 - 4864); // billable non-cached input
    assert_eq!(u.cache_read, 4864);
    assert_eq!(u.cache_write, 0);
    assert_eq!(u.output, 208 - 148); // output excludes reasoning
    assert_eq!(u.reasoning, 148);
    // column sum must equal the provider's reported total (8472)
    assert_eq!(u.input + u.cache_read + u.cache_write + u.output + u.reasoning, 8472);
}

#[test]
fn codex_parses_weekly_rate_limit_only() {
    let p = parse_codex_line(CODEX_TOKENS);
    assert_eq!(p.rate_limits.len(), 1); // secondary is null
    let w = &p.rate_limits[0];
    assert_eq!(f64::from_bits(w.used_percent.bits), 88.0);
    assert_eq!(w.window_minutes, 10080);
    assert!(w.resets_at.is_some());
    assert_eq!(w.resets_at, Some(Timestamp { secs: 1787505234, nanos: 0 }));
}

#[test]
fn codex_turn_context_yields_model_and_cwd() {
    let p = parse_codex_line(CODEX_TURN);
    assert_eq!(p.model.as_deref(), Some("gpt-5.6-sol"));
    assert_eq!(p.cwd.as_deref(), Some("proj2"));
    assert!(p.usage.is_none());
}

#[test]
fn codex_lines_of_other_kinds_say_nothing() {
    for line in [
        "",
        "{",
        r#"{"type":"turn_context"}"#,
        r#"{"type":"event_msg","payload":{"type":"agent_message"}}"#,
        r#"{"type":"other","payload":{"model":"m","cwd":"c"}}"#,
    ] {
        let p = parse_codex_line(line);
        assert!(p.ts.is_none());
        assert!(p.model.is_none() && p.cwd.is_none() && p.usage.is_none());
        assert!(p.rate_limits.is_empty());
    }
    let p = parse_codex_line(r#"{"timestamp":"2026-08-20T00:00:00Z","type":"other"}"#);
    assert_eq!(p.ts, parse_dt("2026-08-20T00:00:00Z"));
}

#[test]
fn codex_usage_of_zeros_is_none() {
    let j = parse_json(r#"{"input_tokens":0,"output_tokens":0}"#).unwrap();
    assert!(codex_usage_from(&j).is_none());
    // More cached than there was input is no negative input.
    let j = parse_json(r#"{"input_tokens":5,"cached_input_tokens":9,"output_tokens":1,"reasoning_output_tokens":4}"#)
        .unwrap();
    let u = codex_usage_from(&j).unwrap();
    assert_eq!((u.input, u.cache_read, u.output, u.reasoning), (0, 9, 0, 4));
    // Counts that are no integers are not counted.
    let j = parse_json(r#"{"input_tokens":1.5,"output_tokens":"7","cached_input_tokens":2}"#).unwrap();
    let u = codex_usage_from(&j).unwrap();
    assert_eq!((u.input, u.cache_read, u.output), (0, 2, 0));
    // Differences beyond 64 bits wrap.
    let j = parse_json(r#"{"input_tokens":9223372036854775807,"cached_input_tokens":-1,"output_tokens":3}"#).unwrap();
    assert_eq!(codex_usage_from(&j).unwrap().input, 0);
}

#[test]
fn rate_window_needs_a_percentage() {
    let j = parse_json(r#"{"window_minutes":300}"#).unwrap();
    assert!(rate_window_from(&j).is_none());
    let j = parse_json(r#"{"used_percent":12,"resets_at":9223372036854775807}"#).unwrap();
    let w = rate_window_from(&j).unwrap();
    assert_eq!(f64::from_bits(w.used_percent.bits), 12.0);
    assert_eq!(w.window_minutes, 0);
    assert_eq!(w.resets_at, None);
}

#[test]
fn codex_document_takes_both_windows_in_order() {
    let j = parse_json(
        r#"{"type":"event_msg","payload":{"type":"token_count","rate_limits":{"secondary":{"used_percent":2.0},"primary":{"used_percent":1.0}}}}"#,
    )
    .unwrap();
    let p = codex_parsed(&j, None);
    let used: Vec<f64> = p.rate_limits.iter().map(|w| f64::from_bits(w.used_percent.bits)).collect();
    assert_eq!(used, vec![1.0, 2.0]);
}

#[test]
fn codex_record_keeps_the_columns() {
    let u = CodexUsage { input: 1, cache_read: 2, cache_write: 3, output: 4, reasoning: -5 };
    let ts = parse_dt("2026-08-20T19:10:28Z").unwrap();
    let e = codex_event(&u, Some("m"), Some("s"), Some("p"), ts, "raw", &Pricing::default());
    assert_eq!(
        (e.input_tokens, e.output_tokens, e.cache_read_tokens, e.cache_write_tokens, e.reasoning_tokens),
        (1, 4, 2, 3, -5)
    );
    assert_eq!(e.service, "codex");
    assert_eq!(e.project.as_deref(), Some("p"));
    assert_eq!(e.event_uid, event_uid("codex", Some("s"), &ts, 1, 4, Some("m"), Some("2-3--5-4")));
}

#[test]
fn codex_turns_of_one_second_are_told_apart() {
    let ts = parse_dt("2026-08-20T19:10:28Z").unwrap();
    let a = CodexUsage { input: 1, cache_read: 2, cache_write: 3, output: 4, reasoning: 5 };
    let b = CodexUsage { cache_read: 23, cache_write: 3, ..a };
    let p = Pricing::default();
    let x = codex_event(&a, Some("m"), None, None, ts, "raw", &p);
    let y = codex_event(&b, Some("m"), None, None, ts, "raw", &p);
    let z = codex_event(&a, Some("m"), None, Some("elsewhere"), ts, "copy", &p);
    assert_ne!(x.event_uid, y.event_uid);
    assert_eq!(x.event_uid, z.event_uid);
}
