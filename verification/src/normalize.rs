//! From raw log lines to usage records. A line that cannot be classified is skipped.

use crate::digest::{lemma_utf8_injective, sha256_hex, text_digest, utf8};
use crate::json::{json_doc, law_members_by_kind, parse_json, Doc, Json};
use crate::models::{
    Charge, Cost, CostView, Event, EventView, MeteredMode, SERVICE_CLAUDE_CODE, SERVICE_CODEX,
};
use crate::number::Real;
use crate::pricing::{law_every_token_is_charged, ModelPrice, Pricing};
use crate::text::{
    chars_of, decimal, lemma_decimal_prefix, lend, opt_str, opt_text, own, push_decimal, str_eq,
};
use crate::time::{
    instant_text, parse_dt, rfc3339_instant, rfc3339_text, Timestamp, MAX_SECS, MIN_SECS,
};
use vstd::prelude::*;

verus! {

/// The text, empty where there is none.
pub open spec fn or_empty(s: Option<Seq<char>>) -> Seq<char> {
    match s {
        Some(x) => x,
        None => Seq::empty(),
    }
}

/// The text that tells a record apart: its service, session, time, input and output tokens
/// in decimal, model, and what the source adds, with bars between them.
pub open spec fn uid_text(
    service: Seq<char>,
    session: Option<Seq<char>>,
    ts: Timestamp,
    input: i64,
    output: i64,
    model: Option<Seq<char>>,
    extra: Option<Seq<char>>,
) -> Seq<char> {
    let bar = seq!['|'];
    let head = service + bar + or_empty(session) + bar + rfc3339_text(ts) + bar + decimal(
        input as int,
    ) + bar + decimal(output as int) + bar + or_empty(model);
    match extra {
        Some(x) => head + bar + x,
        None => head,
    }
}

/// The identifier of a record. `extra` lets a source add what is unique to the record.
pub fn event_uid(
    service: &str,
    session_id: Option<&str>,
    ts: &Timestamp,
    input: i64,
    output: i64,
    model: Option<&str>,
    extra: Option<&str>,
) -> (r: String)
    requires
        ts.wf(),
    ensures
        r@ == sha256_hex(
            utf8(
                uid_text(
                    service@,
                    opt_str(session_id),
                    *ts,
                    input,
                    output,
                    opt_str(model),
                    opt_str(extra),
                ),
            ),
        ),
{
    let mut s = service.to_owned();
    s.push('|');
    push_opt(&mut s, session_id);
    s.push('|');
    let time = instant_text(*ts);
    s.append(time.as_str());
    s.push('|');
    push_decimal(&mut s, input);
    s.push('|');
    push_decimal(&mut s, output);
    s.push('|');
    push_opt(&mut s, model);
    match extra {
        Some(x) => {
            s.push('|');
            s.append(x);
        },
        None => {},
    }
    assert(s@ =~= uid_text(
        service@,
        opt_str(session_id),
        *ts,
        input,
        output,
        opt_str(model),
        opt_str(extra),
    ));
    text_digest(s.as_str())
}

/// Appends an optional text.
fn push_opt(out: &mut String, s: Option<&str>)
    ensures
        final(out)@ == old(out)@ + or_empty(opt_str(s)),
{
    match s {
        Some(x) => out.append(x),
        None => {
            assert(out@ =~= old(out)@ + Seq::<char>::empty());
        },
    }
}

/// What follows the last slash or backslash of a path.
pub open spec fn base_name(path: Seq<char>) -> Seq<char>
    decreases path.len(),
{
    if path.len() == 0 || path.last() == '/' || path.last() == '\\' {
        Seq::empty()
    } else {
        base_name(path.drop_last()).push(path.last())
    }
}

/// What follows the last slash or backslash of a path.
pub fn basename(path: &str) -> (r: &str)
    ensures
        r@ == base_name(path@),
{
    let v = chars_of(path);
    let mut from: usize = v.len();
    assert(v@.take(v@.len() as int) =~= v@);
    assert(v@.subrange(from as int, v@.len() as int) =~= Seq::empty());
    while from > 0 && v[from - 1] != '/' && v[from - 1] != '\\'
        invariant
            from <= v@.len(),
            v@ == path@,
            base_name(path@) =~= base_name(v@.take(from as int)) + v@.subrange(
                from as int,
                v@.len() as int,
            ),
        ensures
            from <= v@.len(),
            v@ == path@,
            base_name(path@) =~= v@.subrange(from as int, v@.len() as int),
        decreases from,
    {
        assert(v@.take(from as int).drop_last() =~= v@.take(from - 1));
        assert(v@.subrange(from - 1, v@.len() as int) =~= seq![v@[from - 1]] + v@.subrange(
            from as int,
            v@.len() as int,
        ));
        from = from - 1;
    }
    path.substring_char(from, v.len())
}

/// The name of a file holds no separator, and is the end of its path.
pub proof fn law_base_name(path: Seq<char>)
    ensures
        base_name(path).len() <= path.len(),
        base_name(path) == path.skip(path.len() - base_name(path).len()),
        forall|i: int|
            0 <= i < base_name(path).len() ==> #[trigger] base_name(path)[i] != '/' && base_name(
                path,
            )[i] != '\\',
        base_name(path).len() < path.len() ==> ({
            let c = path[path.len() - base_name(path).len() - 1];
            c == '/' || c == '\\'
        }),
    decreases path.len(),
{
    if path.len() > 0 && path.last() != '/' && path.last() != '\\' {
        law_base_name(path.drop_last());
        assert(base_name(path) =~= path.skip(path.len() - base_name(path).len()));
    } else {
        assert(path.skip(path.len() as int) =~= Seq::empty());
    }
}

// ---------------------------------------------------------------------------
// `claude_code`
// ---------------------------------------------------------------------------

/// What a line of a `claude_code` log says about the use of tokens.
#[derive(Debug, Clone)]
pub struct ClaudeLine {
    pub model: String,
    pub input: i64,
    pub output: i64,
    pub cache_read: i64,
    pub cache_write: i64,
    pub timestamp: String,
    pub session_id: Option<String>,
    pub project: Option<String>,
    pub message_id: Option<String>,
    pub request_id: Option<String>,
}

/// The content of a [`ClaudeLine`].
#[verifier::ext_equal]
pub struct ClaudeLineView {
    pub model: Seq<char>,
    pub input: i64,
    pub output: i64,
    pub cache_read: i64,
    pub cache_write: i64,
    pub timestamp: Seq<char>,
    pub session_id: Option<Seq<char>>,
    pub project: Option<Seq<char>>,
    pub message_id: Option<Seq<char>>,
    pub request_id: Option<Seq<char>>,
}

impl View for ClaudeLine {
    type V = ClaudeLineView;

    open spec fn view(&self) -> ClaudeLineView {
        ClaudeLineView {
            model: self.model@,
            input: self.input,
            output: self.output,
            cache_read: self.cache_read,
            cache_write: self.cache_write,
            timestamp: self.timestamp@,
            session_id: opt_text(self.session_id),
            project: opt_text(self.project),
            message_id: opt_text(self.message_id),
            request_id: opt_text(self.request_id),
        }
    }
}

/// The integer of the member called `key`, zero where there is none.
pub open spec fn count_at(d: Doc, key: Seq<char>) -> i64 {
    match d.integer_at(key) {
        Some(n) => n,
        None => 0,
    }
}

/// The session that a line names under either spelling, else the fallback. The first
/// spelling counts if it is there at all.
pub open spec fn line_session(v: Doc, fallback: Option<Seq<char>>) -> Option<Seq<char>> {
    let named = match v.get("sessionId"@) {
        Some(d) => d.text(),
        None => v.text_at("session_id"@),
    };
    match named {
        Some(s) => Some(s),
        None => fallback,
    }
}

/// The last part of the working directory that a line names, else the fallback.
pub open spec fn line_project(v: Doc, fallback: Option<Seq<char>>) -> Option<Seq<char>> {
    match v.text_at("cwd"@) {
        Some(c) => Some(base_name(c)),
        None => fallback,
    }
}

/// What a document says about the use of tokens: none unless its message has a usage, a
/// model that is not the synthetic one and a token count that is not zero, and the
/// document a time.
pub open spec fn claude_line_of(
    v: Doc,
    fallback_session: Option<Seq<char>>,
    fallback_project: Option<Seq<char>>,
) -> Option<ClaudeLineView> {
    match v.get("message"@) {
        None => None,
        Some(msg) => match (msg.get("usage"@), msg.text_at("model"@), v.text_at("timestamp"@)) {
            (Some(usage), Some(model), Some(timestamp)) => {
                let input = count_at(usage, "input_tokens"@);
                let output = count_at(usage, "output_tokens"@);
                let cache_write = count_at(usage, "cache_creation_input_tokens"@);
                let cache_read = count_at(usage, "cache_read_input_tokens"@);
                if model == "<synthetic>"@ || (input == 0 && output == 0 && cache_write == 0
                    && cache_read == 0) {
                    None
                } else {
                    Some(
                        ClaudeLineView {
                            model,
                            input,
                            output,
                            cache_read,
                            cache_write,
                            timestamp,
                            session_id: line_session(v, fallback_session),
                            project: line_project(v, fallback_project),
                            message_id: msg.text_at("id"@),
                            request_id: v.text_at("requestId"@),
                        },
                    )
                }
            },
            _ => None,
        },
    }
}

/// The text that tells a `claude_code` record apart: the ids of its message and request, so
/// that a message copied into another session is the same record; without either id, that of
/// any record.
pub open spec fn claude_uid_text(l: ClaudeLineView, ts: Timestamp) -> Seq<char> {
    if l.message_id is None && l.request_id is None {
        uid_text(SERVICE_CLAUDE_CODE@, l.session_id, ts, l.input, l.output, Some(l.model), None)
    } else {
        SERVICE_CLAUDE_CODE@ + seq!['|'] + or_empty(l.message_id) + seq!['|'] + or_empty(l.request_id)
    }
}

/// The record of a `claude_code` line.
pub open spec fn claude_event_of(
    l: ClaudeLineView,
    ts: Timestamp,
    raw_source: Seq<char>,
    pricing: Pricing,
) -> EventView {
    EventView {
        event_uid: sha256_hex(utf8(claude_uid_text(l, ts))),
        service: SERVICE_CLAUDE_CODE@,
        metered_mode: MeteredMode::Subscription,
        ts,
        model: Some(l.model),
        input_tokens: l.input,
        output_tokens: l.output,
        cache_read_tokens: l.cache_read,
        cache_write_tokens: l.cache_write,
        reasoning_tokens: 0,
        cost: CostView::Charges(
            pricing.costs(Some(l.model), l.input, l.output, l.cache_read, l.cache_write, 0).0,
        ),
        cost_is_estimate: true,
        session_id: l.session_id,
        project: l.project,
        raw_source: Some(raw_source),
    }
}

/// The record that the text of a line gives: none unless the text is JSON, says something
/// about the use of tokens and names an instant.
pub open spec fn claude_line_event(
    line: Seq<char>,
    fallback_session: Option<Seq<char>>,
    fallback_project: Option<Seq<char>>,
    raw_source: Seq<char>,
    pricing: Pricing,
) -> Option<EventView> {
    match json_doc(line) {
        None => None,
        Some(v) => match claude_line_of(v, fallback_session, fallback_project) {
            None => None,
            Some(l) => match rfc3339_instant(l.timestamp) {
                None => None,
                Some(ts) => Some(claude_event_of(l, ts, raw_source, pricing)),
            },
        },
    }
}

/// The content of an optional record.
pub open spec fn opt_event(e: Option<Event>) -> Option<EventView> {
    match e {
        Some(x) => Some(x@),
        None => None,
    }
}

/// The integer of the member called `key`, zero where there is none.
fn count_of(j: &Json, key: &str) -> (r: i64)
    ensures
        r == count_at(j.doc(), key@),
{
    match j.integer_at(key) {
        Some(n) => n,
        None => 0,
    }
}

/// What a document says about the use of tokens. `fallback_session` comes from the name of
/// the file, `fallback_project` from that of its directory.
pub fn claude_line(
    v: &Json,
    fallback_session: Option<&str>,
    fallback_project: Option<&str>,
) -> (r: Option<ClaudeLine>)
    ensures
        match r {
            Some(l) => claude_line_of(v.doc(), opt_str(fallback_session), opt_str(fallback_project))
                == Some(l@),
            None => claude_line_of(v.doc(), opt_str(fallback_session), opt_str(fallback_project)) is None,
        },
{
    let msg = match v.get("message") {
        Some(m) => m,
        None => return None,
    };
    let usage = match msg.get("usage") {
        Some(u) => u,
        None => return None,
    };
    let model = match msg.text_at("model") {
        Some(m) => m,
        None => return None,
    };
    if str_eq(model.as_str(), "<synthetic>") {
        return None;
    }
    let input: i64 = count_of(usage, "input_tokens");
    let output: i64 = count_of(usage, "output_tokens");
    let cache_write: i64 = count_of(usage, "cache_creation_input_tokens");
    let cache_read: i64 = count_of(usage, "cache_read_input_tokens");
    if input == 0 && output == 0 && cache_write == 0 && cache_read == 0 {
        return None;
    }
    let timestamp = match v.text_at("timestamp") {
        Some(t) => t,
        None => return None,
    };
    let named = match v.get("sessionId") {
        Some(j) => match j.as_text() {
            Some(s) => Some(s.clone()),
            None => None,
        },
        None => v.text_at("session_id"),
    };
    let session_id = match named {
        Some(s) => Some(s),
        None => own(fallback_session),
    };
    let project = match v.text_at("cwd") {
        Some(c) => Some(basename(c.as_str()).to_owned()),
        None => own(fallback_project),
    };
    let message_id = msg.text_at("id");
    let request_id = v.text_at("requestId");
    let l = ClaudeLine {
        model,
        input,
        output,
        cache_read,
        cache_write,
        timestamp,
        session_id,
        project,
        message_id,
        request_id,
    };
    Some(l)
}

/// The record of a `claude_code` line.
pub fn claude_event(l: ClaudeLine, ts: Timestamp, raw_source: &str, pricing: &Pricing) -> (r: Event)
    requires
        ts.wf(),
    ensures
        r@ == claude_event_of(l@, ts, raw_source@, *pricing),
{
    let uid = if l.message_id.is_none() && l.request_id.is_none() {
        event_uid(
            SERVICE_CLAUDE_CODE,
            lend(&l.session_id),
            &ts,
            l.input,
            l.output,
            Some(l.model.as_str()),
            None,
        )
    } else {
        let mut s = SERVICE_CLAUDE_CODE.to_owned();
        s.push('|');
        push_opt(&mut s, lend(&l.message_id));
        s.push('|');
        push_opt(&mut s, lend(&l.request_id));
        assert(s@ =~= claude_uid_text(l@, ts));
        text_digest(s.as_str())
    };
    let (cost, _priced) = pricing.cost(
        Some(l.model.as_str()),
        l.input,
        l.output,
        l.cache_read,
        l.cache_write,
        0,
    );
    Event {
        event_uid: uid,
        service: SERVICE_CLAUDE_CODE.to_owned(),
        metered_mode: MeteredMode::Subscription,
        ts,
        model: Some(l.model),
        input_tokens: l.input,
        output_tokens: l.output,
        cache_read_tokens: l.cache_read,
        cache_write_tokens: l.cache_write,
        reasoning_tokens: 0,
        cost: Cost::Charges(cost),
        cost_is_estimate: true,
        session_id: l.session_id,
        project: l.project,
        raw_source: Some(raw_source.to_owned()),
    }
}

/// The record that one line of a `claude_code` log gives, if it carries usage.
pub fn claude_code_line(
    line: &str,
    fallback_session: Option<&str>,
    fallback_project: Option<&str>,
    raw_source: &str,
    pricing: &Pricing,
) -> (r: Option<Event>)
    ensures
        opt_event(r) == claude_line_event(
            line@,
            opt_str(fallback_session),
            opt_str(fallback_project),
            raw_source@,
            *pricing,
        ),
{
    let v = match parse_json(line) {
        Some(v) => v,
        None => return None,
    };
    let l = match claude_line(&v, fallback_session, fallback_project) {
        Some(l) => l,
        None => return None,
    };
    let ts = match parse_dt(l.timestamp.as_str()) {
        Some(t) => t,
        None => return None,
    };
    Some(claude_event(l, ts, raw_source, pricing))
}

/// A message is one record wherever it is logged: lines with the ids of one message and
/// request, at least one of them there, have one identifier, whatever file, session,
/// project or time they are found with.
pub proof fn law_claude_identity(
    a: ClaudeLineView,
    ta: Timestamp,
    source_a: Seq<char>,
    b: ClaudeLineView,
    tb: Timestamp,
    source_b: Seq<char>,
    pricing: Pricing,
)
    requires
        a.message_id is Some || a.request_id is Some,
        a.message_id == b.message_id,
        a.request_id == b.request_id,
    ensures
        claude_event_of(a, ta, source_a, pricing).event_uid == claude_event_of(
            b,
            tb,
            source_b,
            pricing,
        ).event_uid,
{
}

/// Copying a line into another file changes nothing but where it is said to come from:
/// the same text gives a record, or none, wherever it stands, and one that names its
/// message or request keeps its identifier.
pub proof fn law_claude_copies(
    line: Seq<char>,
    session_a: Option<Seq<char>>,
    project_a: Option<Seq<char>>,
    source_a: Seq<char>,
    session_b: Option<Seq<char>>,
    project_b: Option<Seq<char>>,
    source_b: Seq<char>,
    pricing: Pricing,
)
    ensures
        claude_line_event(line, session_a, project_a, source_a, pricing) is Some
            <==> claude_line_event(line, session_b, project_b, source_b, pricing) is Some,
        (claude_line_event(line, session_a, project_a, source_a, pricing) is Some && (json_doc(
            line,
        ) matches Some(v) && v.get("message"@) matches Some(msg) && (msg.text_at("id"@) is Some
            || v.text_at("requestId"@) is Some))) ==> claude_line_event(
            line,
            session_a,
            project_a,
            source_a,
            pricing,
        )->0.event_uid == claude_line_event(line, session_b, project_b, source_b, pricing)->0.event_uid,
{
}

// ---------------------------------------------------------------------------
// Codex
// ---------------------------------------------------------------------------

/// The tokens of one turn, in columns that do not overlap: input without what was cached,
/// and output without reasoning.
#[derive(Debug, Clone, Copy, PartialEq, Eq, Structural)]
pub struct CodexUsage {
    pub input: i64,
    pub cache_read: i64,
    pub cache_write: i64,
    pub output: i64,
    pub reasoning: i64,
}

/// A rate-limit window as the provider reports it.
#[derive(Debug, Clone, Copy, PartialEq, Eq, Structural)]
pub struct RateWindow {
    pub used_percent: Real,
    pub window_minutes: i64,
    pub resets_at: Option<Timestamp>,
}

impl RateWindow {
    /// Whether the reset, if known, is an instant of the calendar.
    pub open spec fn wf(self) -> bool {
        self.resets_at matches Some(t) ==> t.wf()
    }
}

/// What one line of a Codex log says.
#[derive(Debug, Clone)]
pub struct CodexParsed {
    pub ts: Option<Timestamp>,
    pub model: Option<String>,
    pub cwd: Option<String>,
    pub usage: Option<CodexUsage>,
    pub rate_limits: Vec<RateWindow>,
}

/// The content of a [`CodexParsed`].
#[verifier::ext_equal]
pub struct CodexView {
    pub ts: Option<Timestamp>,
    pub model: Option<Seq<char>>,
    pub cwd: Option<Seq<char>>,
    pub usage: Option<CodexUsage>,
    pub rate_limits: Seq<RateWindow>,
}

impl View for CodexParsed {
    type V = CodexView;

    open spec fn view(&self) -> CodexView {
        CodexView {
            ts: self.ts,
            model: opt_text(self.model),
            cwd: opt_text(self.cwd),
            usage: self.usage,
            rate_limits: self.rate_limits@,
        }
    }
}

impl CodexView {
    /// A line that says nothing but perhaps when it was written.
    pub open spec fn nothing(ts: Option<Timestamp>) -> CodexView {
        CodexView { ts, model: None, cwd: None, usage: None, rate_limits: Seq::empty() }
    }
}

/// What is left of `total` without `part`, in 64-bit arithmetic, and never negative.
pub open spec fn remainder(total: i64, part: i64) -> i64 {
    let d = total.wrapping_sub(part);
    if d < 0 {
        0
    } else {
        d
    }
}

/// The tokens of one turn: none where every column is zero.
pub open spec fn codex_usage_of(u: Doc) -> Option<CodexUsage> {
    let cached = count_at(u, "cached_input_tokens"@);
    let reasoning = count_at(u, "reasoning_output_tokens"@);
    let r = CodexUsage {
        input: remainder(count_at(u, "input_tokens"@), cached),
        cache_read: cached,
        cache_write: count_at(u, "cache_write_input_tokens"@),
        output: remainder(count_at(u, "output_tokens"@), reasoning),
        reasoning,
    };
    if r.input == 0 && r.output == 0 && r.cache_read == 0 && r.cache_write == 0 && r.reasoning == 0 {
        None
    } else {
        Some(r)
    }
}

/// The window that a report gives: none without a percentage.
pub open spec fn rate_window_of(w: Doc) -> Option<RateWindow> {
    match w.number_at("used_percent"@) {
        None => None,
        Some(used_percent) => Some(
            RateWindow {
                used_percent,
                window_minutes: count_at(w, "window_minutes"@),
                resets_at: match w.integer_at("resets_at"@) {
                    Some(s) => if MIN_SECS <= s <= MAX_SECS {
                        Some(Timestamp { secs: s, nanos: 0 })
                    } else {
                        None
                    },
                    None => None,
                },
            },
        ),
    }
}

/// The window reported under `key`, as a sequence of at most one.
pub open spec fn rate_window_at(limits: Doc, key: Seq<char>) -> Seq<RateWindow> {
    match limits.get(key) {
        Some(w) => match rate_window_of(w) {
            Some(r) => seq![r],
            None => Seq::empty(),
        },
        None => Seq::empty(),
    }
}

/// What a document of a Codex log says, read at `ts`. A turn context carries the model and
/// the directory, a token count the tokens of the turn and the rate limits.
pub open spec fn codex_parsed_of(v: Doc, ts: Option<Timestamp>) -> CodexView {
    let kind = v.text_at("type"@);
    match v.get("payload"@) {
        Some(payload) => if kind == Some("turn_context"@) {
            CodexView {
                ts,
                model: payload.text_at("model"@),
                cwd: match payload.text_at("cwd"@) {
                    Some(c) => Some(base_name(c)),
                    None => None,
                },
                usage: None,
                rate_limits: Seq::empty(),
            }
        } else if kind == Some("event_msg"@) && payload.text_at("type"@) == Some("token_count"@) {
            CodexView {
                ts,
                model: None,
                cwd: None,
                usage: match payload.get("info"@) {
                    Some(info) => match info.get("last_token_usage"@) {
                        Some(last) => codex_usage_of(last),
                        None => None,
                    },
                    None => None,
                },
                rate_limits: match payload.get("rate_limits"@) {
                    Some(limits) => rate_window_at(limits, "primary"@) + rate_window_at(
                        limits,
                        "secondary"@,
                    ),
                    None => Seq::empty(),
                },
            }
        } else {
            CodexView::nothing(ts)
        },
        None => CodexView::nothing(ts),
    }
}

/// The instant that a document names as its time.
pub open spec fn doc_instant(v: Doc) -> Option<Timestamp> {
    match v.text_at("timestamp"@) {
        Some(s) => rfc3339_instant(s),
        None => None,
    }
}

/// What the text of a line says: nothing where it is not JSON.
pub open spec fn codex_line_of(line: Seq<char>) -> CodexView {
    match json_doc(line) {
        Some(v) => codex_parsed_of(v, doc_instant(v)),
        None => CodexView::nothing(None),
    }
}

/// What is left of `total` without `part`.
fn remaining(total: i64, part: i64) -> (r: i64)
    ensures
        r == remainder(total, part),
{
    let d: i64 = total.wrapping_sub(part);
    if d < 0 {
        0
    } else {
        d
    }
}

/// The tokens of one turn.
pub fn codex_usage_from(u: &Json) -> (r: Option<CodexUsage>)
    ensures
        r == codex_usage_of(u.doc()),
{
    let input_total: i64 = count_of(u, "input_tokens");
    let cached: i64 = count_of(u, "cached_input_tokens");
    let cache_write: i64 = count_of(u, "cache_write_input_tokens");
    let output_total: i64 = count_of(u, "output_tokens");
    let reasoning: i64 = count_of(u, "reasoning_output_tokens");
    let input: i64 = remaining(input_total, cached);
    let output: i64 = remaining(output_total, reasoning);
    if input == 0 && output == 0 && cached == 0 && cache_write == 0 && reasoning == 0 {
        return None;
    }
    Some(CodexUsage { input, cache_read: cached, cache_write, output, reasoning })
}

/// The window that a report gives.
pub fn rate_window_from(w: &Json) -> (r: Option<RateWindow>)
    ensures
        r == rate_window_of(w.doc()),
        r matches Some(x) ==> x.wf(),
{
    let used_percent = match w.number_at("used_percent") {
        Some(p) => p,
        None => return None,
    };
    let window_minutes: i64 = count_of(w, "window_minutes");
    let resets_at = match w.integer_at("resets_at") {
        Some(s) => Timestamp::from_epoch(s),
        None => None,
    };
    Some(RateWindow { used_percent, window_minutes, resets_at })
}

/// Appends the window reported under `key`.
fn push_window(out: &mut Vec<RateWindow>, limits: &Json, key: &str)
    requires
        forall|i: int| 0 <= i < old(out)@.len() ==> (#[trigger] old(out)@[i]).wf(),
    ensures
        final(out)@ == old(out)@ + rate_window_at(limits.doc(), key@),
        forall|i: int| 0 <= i < final(out)@.len() ==> (#[trigger] final(out)@[i]).wf(),
{
    match limits.get(key) {
        Some(w) => match rate_window_from(w) {
            Some(r) => {
                out.push(r);
            },
            None => {},
        },
        None => {},
    }
    assert(out@ =~= old(out)@ + rate_window_at(limits.doc(), key@));
}

/// Whether the text of the member called `key` is `value`.
fn text_is(j: &Json, key: &str, value: &str) -> (r: bool)
    ensures
        r == (j.doc().text_at(key@) == Some(value@)),
{
    match j.get(key) {
        Some(m) => match m.as_text() {
            Some(s) => str_eq(s.as_str(), value),
            None => false,
        },
        None => false,
    }
}

/// What a document of a Codex log says, read at `ts`.
pub fn codex_parsed(v: &Json, ts: Option<Timestamp>) -> (r: CodexParsed)
    ensures
        r@ == codex_parsed_of(v.doc(), ts),
        forall|i: int| 0 <= i < r.rate_limits@.len() ==> (#[trigger] r.rate_limits@[i]).wf(),
{
    let mut out = CodexParsed { ts, model: None, cwd: None, usage: None, rate_limits: Vec::new() };
    let turn = text_is(v, "type", "turn_context");
    let message = text_is(v, "type", "event_msg");
    proof {
        reveal_strlit("turn_context");
        reveal_strlit("event_msg");
        assert("turn_context"@.len() != "event_msg"@.len());
    }
    match v.get("payload") {
        Some(payload) => {
            if turn {
                out.model = payload.text_at("model");
                out.cwd = match payload.text_at("cwd") {
                    Some(c) => Some(basename(c.as_str()).to_owned()),
                    None => None,
                };
            } else if message && text_is(payload, "type", "token_count") {
                match payload.get("info") {
                    Some(info) => match info.get("last_token_usage") {
                        Some(last) => {
                            out.usage = codex_usage_from(last);
                        },
                        None => {},
                    },
                    None => {},
                }
                match payload.get("rate_limits") {
                    Some(limits) => {
                        let mut windows: Vec<RateWindow> = Vec::new();
                        push_window(&mut windows, limits, "primary");
                        push_window(&mut windows, limits, "secondary");
                        assert(windows@ =~= rate_window_at(limits.doc(), "primary"@)
                            + rate_window_at(limits.doc(), "secondary"@));
                        out.rate_limits = windows;
                    },
                    None => {},
                }
            }
        },
        None => {},
    }
    out
}

/// What one line of a Codex log says.
pub fn parse_codex_line(line: &str) -> (r: CodexParsed)
    ensures
        r@ == codex_line_of(line@),
        r.ts matches Some(t) ==> t.wf(),
        forall|i: int| 0 <= i < r.rate_limits@.len() ==> (#[trigger] r.rate_limits@[i]).wf(),
{
    match parse_json(line) {
        Some(v) => {
            let ts = match v.text_at("timestamp") {
                Some(s) => parse_dt(s.as_str()),
                None => None,
            };
            codex_parsed(&v, ts)
        },
        None => CodexParsed { ts: None, model: None, cwd: None, usage: None, rate_limits: Vec::new() },
    }
}

/// The counts that set turns of one second apart, in decimal with dashes between them.
pub open spec fn usage_text(u: CodexUsage) -> Seq<char> {
    decimal(u.cache_read as int) + seq!['-'] + decimal(u.cache_write as int) + seq!['-'] + decimal(
        u.reasoning as int,
    ) + seq!['-'] + decimal(u.output as int)
}

/// The record of a turn.
pub open spec fn codex_event_of(
    u: CodexUsage,
    model: Option<Seq<char>>,
    session_id: Option<Seq<char>>,
    project: Option<Seq<char>>,
    ts: Timestamp,
    raw_source: Seq<char>,
    pricing: Pricing,
) -> EventView {
    EventView {
        event_uid: sha256_hex(
            utf8(
                uid_text(
                    SERVICE_CODEX@,
                    session_id,
                    ts,
                    u.input,
                    u.output,
                    model,
                    Some(usage_text(u)),
                ),
            ),
        ),
        service: SERVICE_CODEX@,
        metered_mode: MeteredMode::Subscription,
        ts,
        model,
        input_tokens: u.input,
        output_tokens: u.output,
        cache_read_tokens: u.cache_read,
        cache_write_tokens: u.cache_write,
        reasoning_tokens: u.reasoning,
        cost: CostView::Charges(
            pricing.costs(model, u.input, u.output, u.cache_read, u.cache_write, u.reasoning).0,
        ),
        cost_is_estimate: true,
        session_id,
        project,
        raw_source: Some(raw_source),
    }
}

/// The record of a turn.
pub fn codex_event(
    usage: &CodexUsage,
    model: Option<&str>,
    session_id: Option<&str>,
    project: Option<&str>,
    ts: Timestamp,
    raw_source: &str,
    pricing: &Pricing,
) -> (r: Event)
    requires
        ts.wf(),
    ensures
        r@ == codex_event_of(
            *usage,
            opt_str(model),
            opt_str(session_id),
            opt_str(project),
            ts,
            raw_source@,
            *pricing,
        ),
{
    let (cost, _priced) = pricing.cost(
        model,
        usage.input,
        usage.output,
        usage.cache_read,
        usage.cache_write,
        usage.reasoning,
    );
    let mut extra = String::new();
    push_decimal(&mut extra, usage.cache_read);
    extra.push('-');
    push_decimal(&mut extra, usage.cache_write);
    extra.push('-');
    push_decimal(&mut extra, usage.reasoning);
    extra.push('-');
    push_decimal(&mut extra, usage.output);
    assert(extra@ =~= usage_text(*usage));
    let uid = event_uid(
        SERVICE_CODEX,
        session_id,
        &ts,
        usage.input,
        usage.output,
        model,
        Some(extra.as_str()),
    );
    Event {
        event_uid: uid,
        service: SERVICE_CODEX.to_owned(),
        metered_mode: MeteredMode::Subscription,
        ts,
        model: own(model),
        input_tokens: usage.input,
        output_tokens: usage.output,
        cache_read_tokens: usage.cache_read,
        cache_write_tokens: usage.cache_write,
        reasoning_tokens: usage.reasoning,
        cost: Cost::Charges(cost),
        cost_is_estimate: true,
        session_id: own(session_id),
        project: own(project),
        raw_source: Some(raw_source.to_owned()),
    }
}

/// Nothing is counted twice: where cached tokens are part of the input and reasoning is part
/// of the output, the columns of a turn add up to the provider's input and output together
/// with what was written to the cache.
pub proof fn law_codex_columns_add_up(u: Doc)
    requires
        codex_usage_of(u) is Some,
        0 <= count_at(u, "cached_input_tokens"@) <= count_at(u, "input_tokens"@),
        0 <= count_at(u, "reasoning_output_tokens"@) <= count_at(u, "output_tokens"@),
    ensures
        ({
            let c = codex_usage_of(u)->0;
            c.input + c.cache_read + c.cache_write + c.output + c.reasoning == count_at(
                u,
                "input_tokens"@,
            ) + count_at(u, "output_tokens"@) + count_at(u, "cache_write_input_tokens"@)
        }),
{
}

/// The counts as text tell the counts.
proof fn lemma_usage_text(a: CodexUsage, b: CodexUsage)
    requires
        usage_text(a) == usage_text(b),
    ensures
        a.cache_read == b.cache_read,
        a.cache_write == b.cache_write,
        a.reasoning == b.reasoning,
{
    let (ra, rb) = (
        decimal(a.reasoning as int) + seq!['-'] + decimal(a.output as int),
        decimal(b.reasoning as int) + seq!['-'] + decimal(b.output as int),
    );
    let (wa, wb) = (
        decimal(a.cache_write as int) + seq!['-'] + ra,
        decimal(b.cache_write as int) + seq!['-'] + rb,
    );
    assert(usage_text(a) =~= decimal(a.cache_read as int) + seq!['-'] + wa);
    assert(usage_text(b) =~= decimal(b.cache_read as int) + seq!['-'] + wb);
    lemma_decimal_prefix(a.cache_read as int, wa, b.cache_read as int, wb, '-');
    lemma_decimal_prefix(a.cache_write as int, ra, b.cache_write as int, rb, '-');
    lemma_decimal_prefix(
        a.reasoning as int,
        decimal(a.output as int),
        b.reasoning as int,
        decimal(b.output as int),
        '-',
    );
}

/// Two numbers in decimal between bars, behind one head, can be told from what follows them.
proof fn lemma_two_counts(
    p: Seq<char>,
    i: int,
    o: int,
    x: Seq<char>,
    j: int,
    q: int,
    y: Seq<char>,
)
    requires
        p + decimal(i) + seq!['|'] + decimal(o) + seq!['|'] + x == p + decimal(j) + seq!['|'] + decimal(
            q,
        ) + seq!['|'] + y,
    ensures
        i == j,
        o == q,
        x == y,
{
    let bar = seq!['|'];
    let a = p + decimal(i) + bar + decimal(o) + bar + x;
    let b = p + decimal(j) + bar + decimal(q) + bar + y;
    let (xo, yo) = (decimal(o) + bar + x, decimal(q) + bar + y);
    assert(a.skip(p.len() as int) =~= decimal(i) + bar + xo);
    assert(b.skip(p.len() as int) =~= decimal(j) + bar + yo);
    lemma_decimal_prefix(i, xo, j, yo, '|');
    lemma_decimal_prefix(o, x, q, y, '|');
}

/// The text of a turn, with its counts set apart.
proof fn lemma_turn_text(
    u: CodexUsage,
    model: Option<Seq<char>>,
    session: Option<Seq<char>>,
    ts: Timestamp,
)
    ensures
        uid_text(SERVICE_CODEX@, session, ts, u.input, u.output, model, Some(usage_text(u)))
            == turn_head(session, ts) + decimal(u.input as int) + seq!['|'] + decimal(u.output as int)
            + seq!['|'] + (or_empty(model) + seq!['|'] + usage_text(u)),
{
    assert(uid_text(SERVICE_CODEX@, session, ts, u.input, u.output, model, Some(usage_text(u)))
        =~= turn_head(session, ts) + decimal(u.input as int) + seq!['|'] + decimal(u.output as int)
        + seq!['|'] + (or_empty(model) + seq!['|'] + usage_text(u)));
}

/// What stands before the counts in the text of a turn.
spec fn turn_head(session: Option<Seq<char>>, ts: Timestamp) -> Seq<char> {
    SERVICE_CODEX@ + seq!['|'] + or_empty(session) + seq!['|'] + rfc3339_text(ts) + seq!['|']
}

/// Two turns of one session, time and model that differ in any count are told apart by
/// different texts, and so by different bytes.
pub proof fn law_codex_turns_told_apart(
    a: CodexUsage,
    b: CodexUsage,
    model: Option<Seq<char>>,
    session: Option<Seq<char>>,
    ts: Timestamp,
)
    requires
        a != b,
    ensures
        utf8(uid_text(SERVICE_CODEX@, session, ts, a.input, a.output, model, Some(usage_text(a))))
            != utf8(
            uid_text(SERVICE_CODEX@, session, ts, b.input, b.output, model, Some(usage_text(b))),
        ),
{
    let x = uid_text(SERVICE_CODEX@, session, ts, a.input, a.output, model, Some(usage_text(a)));
    let y = uid_text(SERVICE_CODEX@, session, ts, b.input, b.output, model, Some(usage_text(b)));
    if utf8(x) == utf8(y) {
        lemma_utf8_injective(x, y);
        lemma_turn_text(a, model, session, ts);
        lemma_turn_text(b, model, session, ts);
        let m = or_empty(model) + seq!['|'];
        lemma_two_counts(
            turn_head(session, ts),
            a.input as int,
            a.output as int,
            m + usage_text(a),
            b.input as int,
            b.output as int,
            m + usage_text(b),
        );
        assert((m + usage_text(a)).skip(m.len() as int) =~= usage_text(a));
        assert((m + usage_text(b)).skip(m.len() as int) =~= usage_text(b));
        lemma_usage_text(a, b);
    }
}

// ---------------------------------------------------------------------------
// What a line gives
// ---------------------------------------------------------------------------

/// A count is the integer that stands there, and zero where none does.
pub proof fn law_count(d: Doc, key: Seq<char>)
    ensures
        d.integer_at(key) matches Some(n) ==> count_at(d, key) == n,
        d.integer_at(key) is None ==> count_at(d, key) == 0,
{
}

/// A part is taken off a total that holds it exactly, and a part larger than its total leaves
/// nothing.
pub proof fn law_remainder(total: i64, part: i64)
    requires
        0 <= total,
        0 <= part,
    ensures
        part <= total ==> remainder(total, part) == total - part,
        part > total ==> remainder(total, part) == 0,
        part <= total ==> remainder(total, part) + part == total,
{
}

/// The project of a record is the last part of the directory that its line names, whatever the
/// file stands for: the fallback is the project exactly where the line names no directory. So
/// copies of a line that names one have one project.
pub proof fn law_claude_project(
    line: Seq<char>,
    v: Doc,
    session: Option<Seq<char>>,
    project: Option<Seq<char>>,
    other: Option<Seq<char>>,
    raw_source: Seq<char>,
    pricing: Pricing,
)
    requires
        json_doc(line) == Some(v),
        claude_line_event(line, session, project, raw_source, pricing) is Some,
    ensures
        ({
            let e = claude_line_event(line, session, project, raw_source, pricing)->0;
            let f = claude_line_event(line, session, other, raw_source, pricing)->0;
            &&& v.get("cwd"@) matches Some(Doc::Text(c)) ==> {
                &&& e.project == f.project
                &&& e.project matches Some(name) && name.len() <= c.len() && name == c.skip(
                    c.len() - name.len(),
                ) && !name.contains('/') && !name.contains('\\') && (name.len() < c.len() ==> (c[c.len()
                    - name.len() - 1] == '/' || c[c.len() - name.len() - 1] == '\\'))
            }
            &&& !(v.get("cwd"@) matches Some(Doc::Text(_))) ==> e.project == project
        }),
{
    if let Some(Doc::Text(c)) = v.get("cwd"@) {
        law_base_name(c);
        let name = base_name(c);
        if name.contains('/') {
            let i = choose|i: int| 0 <= i < name.len() && name[i] == '/';
            assert(name[i] != '/');
        }
        if name.contains('\\') {
            let i = choose|i: int| 0 <= i < name.len() && name[i] == '\\';
            assert(name[i] != '\\');
        }
    }
}

/// The session of a record is the one that its line names, under the first spelling where it
/// is there, else under the second; the file counts only where the line names none.
pub proof fn law_claude_session(
    line: Seq<char>,
    v: Doc,
    session: Option<Seq<char>>,
    project: Option<Seq<char>>,
    raw_source: Seq<char>,
    pricing: Pricing,
)
    requires
        json_doc(line) == Some(v),
        claude_line_event(line, session, project, raw_source, pricing) is Some,
    ensures
        ({
            let e = claude_line_event(line, session, project, raw_source, pricing)->0;
            &&& v.get("sessionId"@) matches Some(Doc::Text(s)) ==> e.session_id == Some(s)
            &&& v.get("sessionId"@) is Some && !(v.get("sessionId"@)->0 is Text) ==> e.session_id
                == session
            &&& v.get("sessionId"@) is None ==> {
                &&& v.get("session_id"@) matches Some(Doc::Text(s)) ==> e.session_id == Some(s)
                &&& !(v.get("session_id"@) matches Some(Doc::Text(_))) ==> e.session_id == session
            }
        }),
{
}

/// A record is owed for exactly the lines that use tokens: JSON with a message that has a usage
/// and names a model that is not the synthetic one, a time that can be read, and a count of any
/// of the four kinds that is not zero.
pub proof fn law_claude_record_is_owed(
    line: Seq<char>,
    session: Option<Seq<char>>,
    project: Option<Seq<char>>,
    raw_source: Seq<char>,
    pricing: Pricing,
)
    ensures
        claude_line_event(line, session, project, raw_source, pricing) is Some <==> {
            &&& json_doc(line) matches Some(v)
            &&& v.get("message"@) matches Some(msg)
            &&& msg.get("usage"@) matches Some(usage)
            &&& msg.get("model"@) matches Some(Doc::Text(model))
            &&& model != "<synthetic>"@
            &&& v.get("timestamp"@) matches Some(Doc::Text(t))
            &&& rfc3339_instant(t) is Some
            &&& count_at(usage, "input_tokens"@) != 0 || count_at(usage, "output_tokens"@) != 0
                || count_at(usage, "cache_creation_input_tokens"@) != 0 || count_at(
                usage,
                "cache_read_input_tokens"@,
            ) != 0
        },
{
}

/// Each column of a record is what its line says under the name of that column: creating cache
/// is writing it, and there is no reasoning. The record is of the subscription, an estimate,
/// and of the instant that the line names, whenever it is read.
pub proof fn law_claude_columns(
    line: Seq<char>,
    v: Doc,
    msg: Doc,
    usage: Doc,
    session: Option<Seq<char>>,
    project: Option<Seq<char>>,
    raw_source: Seq<char>,
    pricing: Pricing,
)
    requires
        json_doc(line) == Some(v),
        v.get("message"@) == Some(msg),
        msg.get("usage"@) == Some(usage),
        claude_line_event(line, session, project, raw_source, pricing) is Some,
    ensures
        ({
            let e = claude_line_event(line, session, project, raw_source, pricing)->0;
            &&& e.input_tokens == count_at(usage, "input_tokens"@)
            &&& e.output_tokens == count_at(usage, "output_tokens"@)
            &&& e.cache_write_tokens == count_at(usage, "cache_creation_input_tokens"@)
            &&& e.cache_read_tokens == count_at(usage, "cache_read_input_tokens"@)
            &&& e.reasoning_tokens == 0
            &&& e.model is Some && msg.get("model"@) == Some(Doc::Text(e.model->0))
            &&& v.get("timestamp"@) matches Some(Doc::Text(t)) && rfc3339_instant(t) == Some(e.ts)
            &&& e.service == SERVICE_CLAUDE_CODE@
            &&& e.metered_mode == MeteredMode::Subscription
            &&& e.cost_is_estimate
            &&& e.raw_source == Some(raw_source)
        }),
{
}

/// Whether charges are those of a record's own tokens at the prices `p`, every kind of them:
/// reasoning at the price of output.
pub open spec fn charged_in_full(e: EventView, p: ModelPrice) -> bool {
    &&& e.cost matches CostView::Charges(c)
    &&& c.len() == 5
    &&& c[0] == (Charge { count: e.input_tokens, price: p.input })
    &&& c[1] == (Charge { count: e.output_tokens, price: p.output })
    &&& c[2] == (Charge { count: e.cache_read_tokens, price: p.cache_read })
    &&& c[3] == (Charge { count: e.cache_write_tokens, price: p.cache_write })
    &&& c[4] == (Charge { count: e.reasoning_tokens, price: p.output })
    &&& c[0].count + c[1].count + c[2].count + c[3].count + c[4].count == e.input_tokens
        + e.output_tokens + e.cache_read_tokens + e.cache_write_tokens + e.reasoning_tokens
}

/// A `claude_code` record is charged for every token it records, at the prices of the model
/// that it names, and nothing where that has none.
pub proof fn law_claude_charges(
    line: Seq<char>,
    session: Option<Seq<char>>,
    project: Option<Seq<char>>,
    raw_source: Seq<char>,
    pricing: Pricing,
)
    requires
        claude_line_event(line, session, project, raw_source, pricing) is Some,
    ensures
        ({
            let e = claude_line_event(line, session, project, raw_source, pricing)->0;
            &&& e.model is Some
            &&& pricing.price(e.model->0) matches Some(p) ==> charged_in_full(e, p)
            &&& pricing.price(e.model->0) is None ==> e.cost == CostView::Charges(Seq::empty())
        }),
{
    let e = claude_line_event(line, session, project, raw_source, pricing)->0;
    if let Some(p) = pricing.price(e.model->0) {
        law_every_token_is_charged(
            pricing,
            e.model->0,
            p,
            e.input_tokens,
            e.output_tokens,
            e.cache_read_tokens,
            e.cache_write_tokens,
            e.reasoning_tokens,
        );
    }
}

/// The identifier of a message is the digest of the service, the id of the message and that of
/// the request with bars between them; a line with neither id is told by what any record is:
/// service, session, time, input, output and model.
pub proof fn law_claude_identifier(l: ClaudeLineView, ts: Timestamp, source: Seq<char>, pricing: Pricing)
    ensures
        l.message_id is Some && l.request_id is Some ==> claude_event_of(
            l,
            ts,
            source,
            pricing,
        ).event_uid == sha256_hex(
            utf8(SERVICE_CLAUDE_CODE@ + seq!['|'] + l.message_id->0 + seq!['|'] + l.request_id->0),
        ),
        l.message_id is None && l.request_id is None && l.session_id is Some ==> claude_event_of(
            l,
            ts,
            source,
            pricing,
        ).event_uid == sha256_hex(
            utf8(
                SERVICE_CLAUDE_CODE@ + seq!['|'] + l.session_id->0 + seq!['|'] + rfc3339_text(ts)
                    + seq!['|'] + decimal(l.input as int) + seq!['|'] + decimal(l.output as int)
                    + seq!['|'] + l.model,
            ),
        ),
{
}

/// The columns of a turn are kept as they are, and it is charged for every token it records at
/// the prices of its model, reasoning as output; without a price it is charged nothing.
pub proof fn law_codex_charges(
    u: CodexUsage,
    model: Seq<char>,
    session: Option<Seq<char>>,
    project: Option<Seq<char>>,
    ts: Timestamp,
    raw_source: Seq<char>,
    pricing: Pricing,
)
    ensures
        ({
            let e = codex_event_of(u, Some(model), session, project, ts, raw_source, pricing);
            &&& pricing.price(model) matches Some(p) ==> charged_in_full(e, p)
            &&& pricing.price(model) is None ==> e.cost == CostView::Charges(Seq::empty())
            &&& e.input_tokens == u.input
            &&& e.output_tokens == u.output
            &&& e.cache_read_tokens == u.cache_read
            &&& e.cache_write_tokens == u.cache_write
            &&& e.reasoning_tokens == u.reasoning
            &&& e.model == Some(model)
            &&& e.session_id == session
            &&& e.project == project
            &&& e.ts == ts
            &&& e.raw_source == Some(raw_source)
            &&& e.service == SERVICE_CODEX@
            &&& e.metered_mode == MeteredMode::Subscription
            &&& e.cost_is_estimate
        }),
{
    if let Some(p) = pricing.price(model) {
        law_every_token_is_charged(
            pricing,
            model,
            p,
            u.input,
            u.output,
            u.cache_read,
            u.cache_write,
            u.reasoning,
        );
    }
}

/// The identifier of a turn is the digest of service, session, time, input, output, model and
/// the other counts, with bars between them.
pub proof fn law_codex_identifier(
    u: CodexUsage,
    model: Seq<char>,
    session: Seq<char>,
    project: Option<Seq<char>>,
    ts: Timestamp,
    raw_source: Seq<char>,
    pricing: Pricing,
)
    ensures
        codex_event_of(u, Some(model), Some(session), project, ts, raw_source, pricing).event_uid
            == sha256_hex(
            utf8(
                SERVICE_CODEX@ + seq!['|'] + session + seq!['|'] + rfc3339_text(ts) + seq!['|']
                    + decimal(u.input as int) + seq!['|'] + decimal(u.output as int) + seq!['|'] + model
                    + seq!['|'] + (decimal(u.cache_read as int) + seq!['-'] + decimal(
                    u.cache_write as int,
                ) + seq!['-'] + decimal(u.reasoning as int) + seq!['-'] + decimal(u.output as int)),
            ),
        ),
{
}

/// A turn context names the model and the last part of the directory, and counts nothing.
pub proof fn law_codex_turn_context(line: Seq<char>, v: Doc, payload: Doc)
    requires
        json_doc(line) == Some(v),
        v.get("type"@) == Some(Doc::Text("turn_context"@)),
        v.get("payload"@) == Some(payload),
    ensures
        ({
            let p = codex_line_of(line);
            &&& payload.get("model"@) matches Some(Doc::Text(m)) ==> p.model == Some(m)
            &&& !(payload.get("model"@) matches Some(Doc::Text(_))) ==> p.model is None
            &&& payload.get("cwd"@) matches Some(Doc::Text(c)) ==> p.cwd == Some(base_name(c))
            &&& !(payload.get("cwd"@) matches Some(Doc::Text(_))) ==> p.cwd is None
            &&& p.usage is None
            &&& p.rate_limits.len() == 0
        }),
{
}

/// A token count tells the tokens of the last turn, not of the session, in columns that do not
/// overlap, and names no model. Cached input is no other input, and reasoning no other output.
pub proof fn law_codex_token_count(line: Seq<char>, v: Doc, payload: Doc)
    requires
        json_doc(line) == Some(v),
        v.get("type"@) == Some(Doc::Text("event_msg"@)),
        v.get("payload"@) == Some(payload),
        payload.get("type"@) == Some(Doc::Text("token_count"@)),
    ensures
        ({
            let p = codex_line_of(line);
            &&& p.model is None
            &&& p.cwd is None
            &&& payload.get("info"@) is None ==> p.usage is None
            &&& payload.get("info"@) matches Some(info) ==> {
                &&& info.get("last_token_usage"@) is None ==> p.usage is None
                &&& info.get("last_token_usage"@) matches Some(last) ==> {
                    let cached = count_at(last, "cached_input_tokens"@);
                    let reasoning = count_at(last, "reasoning_output_tokens"@);
                    let written = count_at(last, "cache_write_input_tokens"@);
                    &&& p.usage matches Some(u) ==> {
                        &&& u.cache_read == cached
                        &&& u.reasoning == reasoning
                        &&& u.cache_write == written
                        &&& 0 <= cached <= count_at(last, "input_tokens"@) ==> u.input + cached
                            == count_at(last, "input_tokens"@)
                        &&& 0 <= reasoning <= count_at(last, "output_tokens"@) ==> u.output + reasoning
                            == count_at(last, "output_tokens"@)
                        &&& u.input >= 0 && u.output >= 0
                    }
                    &&& p.usage is None ==> cached == 0 && reasoning == 0 && written == 0
                    &&& cached > 0 || reasoning > 0 || written > 0 || count_at(last, "input_tokens"@)
                        > 0 && cached == 0 || count_at(last, "output_tokens"@) > 0 && reasoning == 0
                        ==> p.usage is Some
                }
            }
        }),
{
    reveal_strlit("event_msg");
    reveal_strlit("turn_context");
    assert("event_msg"@.len() == 9 && "turn_context"@.len() == 12);
}

/// A token count carries the rate limits that the provider reports, the primary window before
/// the secondary one, each as far as it tells a percentage.
pub proof fn law_codex_rate_limits(line: Seq<char>, v: Doc, payload: Doc, limits: Doc)
    requires
        json_doc(line) == Some(v),
        v.get("type"@) == Some(Doc::Text("event_msg"@)),
        v.get("payload"@) == Some(payload),
        payload.get("type"@) == Some(Doc::Text("token_count"@)),
        payload.get("rate_limits"@) == Some(limits),
    ensures
        ({
            let r = codex_line_of(line).rate_limits;
            let first = limits.get("primary"@) matches Some(w) && w.number_at("used_percent"@) is Some;
            let second = limits.get("secondary"@) matches Some(w) && w.number_at("used_percent"@) is Some;
            &&& first ==> r.len() > 0 && window_tells(r[0], limits.get("primary"@)->0)
            &&& second ==> r.len() > 0 && window_tells(r.last(), limits.get("secondary"@)->0)
            &&& r.len() == (if first {
                1int
            } else {
                0
            }) + if second {
                1int
            } else {
                0
            }
        }),
{
    reveal_strlit("event_msg");
    reveal_strlit("turn_context");
    assert("event_msg"@.len() == 9 && "turn_context"@.len() == 12);
}

/// Whether a window says what a report does: its percentage, its length in minutes, and its
/// reset where the report names a second of the calendar.
pub open spec fn window_tells(r: RateWindow, w: Doc) -> bool {
    &&& w.number_at("used_percent"@) == Some(r.used_percent)
    &&& r.window_minutes == count_at(w, "window_minutes"@)
    &&& r.resets_at is Some <==> (w.integer_at("resets_at"@) matches Some(s) && MIN_SECS <= s
        <= MAX_SECS)
    &&& r.resets_at matches Some(t) ==> w.integer_at("resets_at"@) == Some(t.secs) && t.nanos == 0
}

/// A line of another kind says nothing but when it was written, a line that is not JSON nothing
/// at all, and every line is of the instant that it names.
pub proof fn law_codex_other_lines(line: Seq<char>, v: Doc)
    requires
        json_doc(line) == Some(v),
    ensures
        v.get("timestamp"@) matches Some(Doc::Text(t)) ==> codex_line_of(line).ts == rfc3339_instant(t),
        !(v.get("timestamp"@) matches Some(Doc::Text(_))) ==> codex_line_of(line).ts is None,
        v.get("payload"@) is None || (v.get("type"@) != Some(Doc::Text("turn_context"@)) && v.get(
            "type"@,
        ) != Some(Doc::Text("event_msg"@))) ==> {
            let p = codex_line_of(line);
            p.model is None && p.cwd is None && p.usage is None && p.rate_limits.len() == 0
        },
{
    law_members_by_kind(v, "type"@, "turn_context"@, 0, Real { bits: 0 });
    law_members_by_kind(v, "type"@, "event_msg"@, 0, Real { bits: 0 });
}

/// A line that is not JSON gives nothing.
pub proof fn law_lines_that_are_not_json(
    line: Seq<char>,
    session: Option<Seq<char>>,
    project: Option<Seq<char>>,
    raw_source: Seq<char>,
    pricing: Pricing,
)
    requires
        json_doc(line) is None,
    ensures
        claude_line_event(line, session, project, raw_source, pricing) is None,
        codex_line_of(line).ts is None,
        codex_line_of(line).model is None,
        codex_line_of(line).cwd is None,
        codex_line_of(line).usage is None,
        codex_line_of(line).rate_limits.len() == 0,
{
}

/// The content of what a line says is what it holds, column by column.
pub proof fn law_line_content(l: ClaudeLine, p: CodexParsed)
    ensures
        l@.model == l.model@ && l@.timestamp == l.timestamp@,
        l@.input == l.input && l@.output == l.output,
        l@.cache_read == l.cache_read && l@.cache_write == l.cache_write,
        l@.session_id == opt_text(l.session_id) && l@.project == opt_text(l.project),
        l@.message_id == opt_text(l.message_id) && l@.request_id == opt_text(l.request_id),
        p@.ts == p.ts && p@.usage == p.usage && p@.rate_limits == p.rate_limits@,
        p@.model == opt_text(p.model) && p@.cwd == opt_text(p.cwd),
{
}

/// A record is told by its service, session, time, input, output and model with bars between
/// them, the counts in decimal, and by what its source adds behind them.
pub proof fn law_identifier_text(
    service: Seq<char>,
    session: Seq<char>,
    ts: Timestamp,
    input: i64,
    output: i64,
    model: Seq<char>,
    extra: Seq<char>,
)
    ensures
        uid_text(service, Some(session), ts, input, output, Some(model), None) == service + seq!['|']
            + session + seq!['|'] + rfc3339_text(ts) + seq!['|'] + decimal(input as int) + seq!['|']
            + decimal(output as int) + seq!['|'] + model,
        uid_text(service, Some(session), ts, input, output, Some(model), Some(extra)) == uid_text(
            service,
            Some(session),
            ts,
            input,
            output,
            Some(model),
            None,
        ) + seq!['|'] + extra,
        uid_text(service, None, ts, input, output, None, None) == uid_text(
            service,
            Some(Seq::empty()),
            ts,
            input,
            output,
            Some(Seq::empty()),
            None,
        ),
{
}

/// A record that may be missing has the content of the one that is there.
pub proof fn law_optional_record(e: Event)
    ensures
        opt_event(Some(e)) == Some(e@),
        opt_event(None) is None,
{
}

} // verus!
