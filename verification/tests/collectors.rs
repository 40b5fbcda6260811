use metoks::collectors::claude_code::{
    file_context, glob_root, is_log, parse_lines, scan_one, watch_roots as claude_roots,
};
use metoks::collectors::codex::{
    codex_roots, is_rollout, kept_keys, rollout_pattern, scan_file, session_id_from, status_rows,
    watch_roots as codex_dirs, window_kind, CodexScan, WEEKLY_FROM,
};
use metoks::collectors::{read_appended_lines, read_start};
use metoks::normalize::claude_code_line;
use metoks::pricing::Pricing;
use metoks::time::{parse_dt, Timestamp};

fn dt(s: &str) -> Timestamp {
    parse_dt(s).unwrap()
}

fn strings(v: &[&str]) -> Vec<String> {
    v.iter().map(|s| s.to_string()).collect()
}

#[test]
fn reading_starts_at_the_offset() {
    assert_eq!(read_start(0, 10), Some(0));
    assert_eq!(read_start(4, 10), Some(4));
    assert_eq!(read_start(10, 10), None);
    assert_eq!(read_start(11, 10), Some(0)); // the file shrank
    assert_eq!(read_start(11, 0), None);
    assert_eq!(read_start(0, 0), None);
}

#[test]
fn only_complete_lines_are_read() {
    let (lines, end) = read_appended_lines(&b"one\n\n \t\ntwo\r\nthr".to_vec(), 100);
    assert_eq!(lines, strings(&["one", "two\r"]));
    assert_eq!(end, 100 + 13);
    assert_eq!(read_appended_lines(&b"partial".to_vec(), 7), (vec![], 7));
    assert_eq!(read_appended_lines(&vec![], 7), (vec![], 7));
    assert_eq!(read_appended_lines(&b"\n".to_vec(), 7), (vec![], 8));
}

#[test]
fn bytes_that_are_no_text_are_replaced() {
    let (lines, end) = read_appended_lines(&b"a\xffb\n\xe2\x82\n".to_vec(), 0);
    assert_eq!(lines, strings(&["a\u{fffd}b", "\u{fffd}"]));
    assert_eq!(end, 7);
}

#[test]
fn reading_in_two_steps_misses_nothing() {
    let all = "eins\nzwölf\n\ndrei\nvi".as_bytes().to_vec();
    let (want, end) = read_appended_lines(&all, 0);
    for cut in 0..all.len() {
        let (mut got, mid) = read_appended_lines(&all[..cut].to_vec(), 0);
        let (rest, last) = read_appended_lines(&all[mid as usize..].to_vec(), mid);
        got.extend(rest);
        assert_eq!((got, last), (want.clone(), end), "{cut}");
    }
    // What is left holds no complete line, however often it is read.
    assert_eq!(read_appended_lines(&all[end as usize..].to_vec(), end), (vec![], end));
}

fn usage_line(id: &str, input: i64) -> String {
    format!(
        r#"{{"message":{{"model":"m","id":"{id}","usage":{{"input_tokens":{input}}}}},"timestamp":"2026-08-20T10:00:00Z"}}"#
    )
}

#[test]
fn logs_name_session_and_project() {
    let own = |s: &str| Some(s.to_string());
    assert_eq!(file_context("/x/proj/sess.jsonl"), (own("sess"), own("proj")));
    assert_eq!(file_context("sess.jsonl"), (own("sess"), None));
    assert_eq!(file_context("/"), (None, None));
    assert!(is_log("/x/a.jsonl") && !is_log("/x/a.json") && !is_log("/x/jsonl"));
}

#[test]
fn logs_are_scanned_from_the_offset_on() {
    let text = format!("{}\nnoise\n{}\n{}", usage_line("a", 1), usage_line("b", 2), usage_line("c", 3));
    let path = "/x/proj/sess.jsonl";
    let p = Pricing::default();
    let (events, end) = scan_one(&text.as_bytes().to_vec(), 40, path, &p);
    assert_eq!(events.iter().map(|e| e.input_tokens).collect::<Vec<_>>(), vec![1, 2]);
    assert_eq!(end as usize, 40 + text.rfind('\n').unwrap() + 1);
    assert_eq!(events[0].session_id.as_deref(), Some("sess"));
    assert_eq!(events[0].project.as_deref(), Some("proj"));
    assert_eq!(events[0].raw_source.as_deref(), Some(path));
    let alone = claude_code_line(&usage_line("a", 1), Some("sess"), Some("proj"), path, &p).unwrap();
    assert_eq!(events[0].event_uid, alone.event_uid);
}

#[test]
fn lines_are_scanned_in_any_number_of_runs() {
    let lines: Vec<String> = (0..5).map(|i| usage_line(&format!("id{i}"), i)).collect();
    let p = Pricing::default();
    let uids = |l: &[String]| -> Vec<String> {
        parse_lines(&l.to_vec(), Some("s"), None, "f", &p).into_iter().map(|e| e.event_uid).collect()
    };
    let all = uids(&lines);
    assert_eq!(all.len(), 4); // the line without tokens tells nothing
    for cut in 0..=lines.len() {
        let mut got = uids(&lines[..cut]);
        got.extend(uids(&lines[cut..]));
        assert_eq!(got, all);
    }
}

#[test]
fn scanning_anew_adds_nothing() {
    let text = format!("{}\n{}\n{}\n", usage_line("a", 1), usage_line("b", 2), usage_line("c", 3)).into_bytes();
    let path = "/x/proj/sess.jsonl";
    let p = Pricing::default();
    let known = |buf: &[u8], start: u64| -> (Vec<String>, u64) {
        let (events, end) = scan_one(&buf.to_vec(), start, path, &p);
        (events.into_iter().map(|e| e.event_uid).collect(), end)
    };
    let cut = text.len() / 2;
    let (mut stored, mid) = known(&text[..cut], 0);
    stored.extend(known(&text[mid as usize..], mid).0);
    assert_eq!(stored.len(), 3);
    assert!(known(&text, 0).0.iter().all(|u| stored.contains(u)));
}

#[test]
fn globs_are_watched_at_their_roots() {
    assert_eq!(glob_root("~/logs/**/*.jsonl", Some("/home/me")), "/home/me/logs");
    assert_eq!(glob_root("/a/b?/c", None), "/a");
    assert_eq!(glob_root("/a/[bc]/d", None), "/a");
    assert_eq!(glob_root("/a/b/c.jsonl", None), "/a/b/c.jsonl");
    assert_eq!(glob_root("*/x", None), "");
    let globs = strings(&["/b/*.jsonl", "~/a/**", "/b/**/x"]);
    assert_eq!(claude_roots(&globs, Some("/home/me")), strings(&["/b", "/home/me/a"]));
}

#[test]
fn codex_roots_come_from_three_places() {
    let home = Some("/home/me");
    assert_eq!(codex_roots(None, None, home), strings(&["/home/me/.codex"]));
    assert_eq!(codex_roots(None, Some("/e1, ~/e2"), home), strings(&["/e1", "/home/me/e2"]));
    assert_eq!(codex_roots(Some("  "), Some("/e"), home), strings(&["/e"]));
    assert_eq!(codex_roots(Some("/c"), Some("/e"), home), strings(&["/c"]));
    assert_eq!(
        codex_dirs(&strings(&["/c", "/d"])),
        strings(&["/c/sessions", "/c/archived_sessions", "/d/sessions", "/d/archived_sessions"])
    );
    assert_eq!(rollout_pattern("/c/sessions"), "/c/sessions/**/rollout-*.jsonl");
}

#[test]
fn rollout_files_are_told_by_their_names() {
    assert!(is_rollout("/x/rollout-1.jsonl") && is_rollout("rollout-.jsonl"));
    assert!(!is_rollout("/x/a-rollout-1.jsonl") && !is_rollout("/x/rollout-1.json") && !is_rollout("/"));
    assert_eq!(session_id_from("/x/rollout-2026-abc.jsonl").as_deref(), Some("2026-abc"));
    assert_eq!(session_id_from("/x/other.jsonl").as_deref(), Some("other"));
    assert_eq!(session_id_from("/"), None);
    assert_eq!(kept_keys("/x/f"), ("codex_model:/x/f".to_string(), "codex_proj:/x/f".to_string()));
}

fn turn(model: &str, cwd: &str) -> String {
    format!(r#"{{"type":"turn_context","payload":{{"model":"{model}","cwd":"{cwd}"}}}}"#)
}

fn tokens(ts: &str, input: i64, percent: f64, minutes: i64) -> String {
    format!(
        r#"{{"timestamp":"{ts}","type":"event_msg","payload":{{"type":"token_count","info":{{"last_token_usage":{{"input_tokens":{input},"output_tokens":1}}}},"rate_limits":{{"primary":{{"used_percent":{percent},"window_minutes":{minutes}}},"secondary":{{"used_percent":5.0,"window_minutes":300,"resets_at":1787505234}}}}}}}}"#
    )
}

fn scan(lines: &[String], model: Option<&str>, project: Option<&str>) -> CodexScan {
    let nows = vec![dt("2026-09-01T00:00:00Z"); lines.len()];
    scan_file(
        &lines.to_vec(),
        &nows,
        model.map(|s| s.to_string()),
        project.map(|s| s.to_string()),
        "/c/sessions/rollout-s1.jsonl",
        &Pricing::default(),
    )
}

#[test]
fn usage_takes_the_nearest_model() {
    let lines = vec![
        tokens("2026-08-20T10:00:00Z", 1, 10.0, 10080),
        turn("m1", "/w/p1"),
        tokens("2026-08-20T10:01:00Z", 2, 11.0, 10080),
        tokens("odd", 3, 12.0, 10080),
        turn("m2", "/w/p2"),
        tokens("2026-08-20T10:03:00Z", 4, 13.0, 1440),
    ];
    let s = scan(&lines, None, None);
    let got: Vec<(i64, Option<&str>, Option<&str>)> =
        s.events.iter().map(|e| (e.input_tokens, e.model.as_deref(), e.project.as_deref())).collect();
    assert_eq!(
        got,
        vec![(2, Some("m1"), Some("p1")), (3, Some("m1"), Some("p1")), (4, Some("m2"), Some("p2"))]
    );
    assert_eq!(s.events[1].ts, dt("2026-09-01T00:00:00Z")); // no time of its own
    assert_eq!(s.events[0].session_id.as_deref(), Some("s1"));
    assert_eq!((s.model.as_deref(), s.project.as_deref()), (Some("m2"), Some("p2")));

    let rows = status_rows(&s.latest);
    assert_eq!(rows.len(), 2);
    assert_eq!((rows[0].service.as_str(), rows[0].window_kind.as_str()), ("codex", "weekly"));
    assert_eq!(rows[0].used_percent.map(|p| f64::from_bits(p.bits)), Some(13.0));
    assert_eq!((rows[0].window_minutes, rows[0].resets_at), (Some(1440), None));
    assert_eq!(rows[0].observed_at, dt("2026-08-20T10:03:00Z"));
    assert_eq!((rows[1].window_kind.as_str(), rows[1].resets_at), ("session", Timestamp::from_epoch(1787505234)));
    assert!(status_rows(&None).is_empty());
}

#[test]
fn rollouts_are_scanned_in_any_number_of_runs() {
    let lines = vec![
        turn("m1", "/w/p1"),
        tokens("2026-08-20T10:01:00Z", 2, 11.0, 10080),
        turn("m2", "/w/p2"),
        tokens("2026-08-20T10:03:00Z", 4, 13.0, 10080),
    ];
    let whole = scan(&lines, None, None);
    for cut in 0..=lines.len() {
        let a = scan(&lines[..cut], None, None);
        let b = scan(&lines[cut..], a.model.as_deref(), a.project.as_deref());
        let uids: Vec<String> = a.events.iter().chain(b.events.iter()).map(|e| e.event_uid.clone()).collect();
        assert_eq!(uids, whole.events.iter().map(|e| e.event_uid.clone()).collect::<Vec<_>>());
        assert_eq!((b.model, b.project), (whole.model.clone(), whole.project.clone()));
    }
}

#[test]
fn scanning_a_rollout_anew_gives_no_new_identifier() {
    let lines = vec![
        turn("m1", "/w/p1"),
        tokens("2026-08-20T10:01:00Z", 2, 11.0, 10080),
        turn("m2", "/w/p2"),
        tokens("2026-08-20T10:03:00Z", 4, 13.0, 10080),
    ];
    let uids = |s: &CodexScan| s.events.iter().map(|e| e.event_uid.clone()).collect::<Vec<_>>();
    let first = scan(&lines, None, None);
    // At another time, and with what is remembered of the end of the file.
    let later = vec![dt("2027-01-01T00:00:00Z"); lines.len()];
    let again = scan_file(
        &lines,
        &later,
        first.model.clone(),
        first.project.clone(),
        "/c/sessions/rollout-s1.jsonl",
        &Pricing::default(),
    );
    assert_eq!(uids(&first).len(), 2);
    assert_eq!(uids(&again), uids(&first));
    let nothing = scan(&[], first.model.as_deref(), first.project.as_deref());
    assert!(nothing.events.is_empty() && nothing.latest.is_none());
    assert_eq!((nothing.model, nothing.project), (first.model, first.project));
}

#[test]
fn usage_without_a_model_is_skipped() {
    let s = scan(&[tokens("2026-08-20T10:00:00Z", 1, 10.0, 10080)], None, None);
    assert!(s.events.is_empty() && s.model.is_none());
    assert!(s.latest.is_some()); // the rate limits are told all the same
}

#[test]
fn windows_of_a_day_or_more_are_weekly() {
    assert_eq!(WEEKLY_FROM, 1440);
    assert_eq!((window_kind(1440), window_kind(1439), window_kind(10080)), ("weekly", "session", "weekly"));
}
