//! The logs of Codex.
//!
//! A token count is charged to the model of the nearest turn context before it, which is
//! kept for each file from one scan to the next. The logs also carry the provider's own
//! account of its rate limits.

use crate::collectors::claude_code::{event_views, has_uid};
use crate::collectors::{complete, law_incremental_reading, law_reading_again, lines_of};
use crate::config::{expand_tilde, expanded};
use crate::db::{law_known_records_add_nothing, newly_stored, stored_uids, RateLimitStatus};
use crate::models::{Event, EventView, SERVICE_CODEX};
use crate::normalize::{
    codex_event, codex_event_of, codex_line_of, parse_codex_line, CodexParsed, CodexView, RateWindow,
};
use crate::paths::{file_name, file_name_of, file_stem, file_stem_of, joined, path_join};
use crate::pricing::Pricing;
use crate::text::{
    begins_with, chars_of, concat, ends_with, finishes_with, is_blank, is_white, blank, lend, opt_str, opt_text,
    pieces, split, starts_with, text_of, texts, trim, trimmed,
};
use crate::time::Timestamp;
use vstd::prelude::*;

verus! {

/// Minutes from which on a rate-limit window is the weekly one.
pub const WEEKLY_FROM: i64 = 1440;

/// A name without the prefix of the log files, if it has it.
pub open spec fn without_prefix(name: Seq<char>) -> Seq<char> {
    if begins_with(name, "rollout-"@) {
        name.skip("rollout-"@.len() as int)
    } else {
        name
    }
}

/// The session that a file stands for: its name without prefix and extension.
pub open spec fn session_of(path: Seq<char>) -> Option<Seq<char>> {
    match file_stem_of(path) {
        Some(s) => Some(without_prefix(s)),
        None => None,
    }
}

/// The session that a file stands for.
pub fn session_id_from(path: &str) -> (r: Option<String>)
    ensures
        opt_text(r) == session_of(path@),
{
    match file_stem(path) {
        Some(s) => {
            let v = chars_of(s.as_str());
            proof {
                reveal_strlit("rollout-");
            }
            if starts_with(&v, "rollout-") {
                assert(v@.subrange(8, v@.len() as int) =~= v@.skip(8));
                Some(text_of(&v, 8, v.len()))
            } else {
                Some(s)
            }
        },
        None => None,
    }
}

/// Whether a file that has changed is one of the logs, by its name.
pub open spec fn is_rollout_of(path: Seq<char>) -> bool {
    match file_name_of(path) {
        Some(n) => begins_with(n, "rollout-"@) && finishes_with(n, ".jsonl"@),
        None => false,
    }
}

/// Whether a file that has changed is one of the logs, by its name.
pub fn is_rollout(path: &str) -> (r: bool)
    ensures
        r == is_rollout_of(path@),
{
    match file_name(path) {
        Some(n) => {
            let v = chars_of(n.as_str());
            starts_with(&v, "rollout-") && ends_with(&v, ".jsonl")
        },
        None => false,
    }
}

/// The directories of Codex as one text: the configured one, unless it is blank, else that
/// of the environment, else the hidden one in the home directory.
pub open spec fn home_text(configured: Option<Seq<char>>, env: Option<Seq<char>>) -> Seq<char> {
    if configured matches Some(s) && !is_blank(s) {
        configured->0
    } else if env matches Some(s) {
        env->0
    } else {
        "~/.codex"@
    }
}

/// The directories of Codex: the parts of the text between commas, without white space at
/// their ends and with a leading `~` taken to the home directory.
pub open spec fn roots_of(text: Seq<char>, home: Option<Seq<char>>) -> Seq<Seq<char>> {
    pieces(text, ',').map_values(|p: Seq<char>| expanded(trimmed(p), home))
}

/// The directories of Codex.
pub fn codex_roots(configured: Option<&str>, env: Option<&str>, home: Option<&str>) -> (r: Vec<String>)
    ensures
        texts(r@) == roots_of(home_text(opt_str(configured), opt_str(env)), opt_str(home)),
{
    let raw = match configured {
        Some(s) => if !blank(s) {
            s
        } else {
            match env {
                Some(e) => e,
                None => "~/.codex",
            }
        },
        None => match env {
            Some(e) => e,
            None => "~/.codex",
        },
    };
    let v = chars_of(raw);
    let ps = split(&v, ',');
    let ghost parts = pieces(raw@, ',');
    let mut out: Vec<String> = Vec::new();
    for i in 0..ps.len()
        invariant
            ps@.len() == parts.len(),
            forall|k: int| 0 <= k < ps@.len() ==> (#[trigger] ps@[k])@ == parts[k],
            out@.len() == i,
            forall|k: int|
                0 <= k < i ==> (#[trigger] out@[k])@ == expanded(trimmed(parts[k]), opt_str(home)),
    {
        let t = trim(&ps[i]);
        out.push(expand_tilde(t.as_str(), home));
    }
    assert(texts(out@) =~= roots_of(raw@, opt_str(home)));
    out
}

/// The directories that may hold logs: two under each of those of Codex.
pub open spec fn session_dirs_of(roots: Seq<Seq<char>>, n: int) -> Seq<Seq<char>>
    decreases n,
{
    if n <= 0 {
        Seq::empty()
    } else {
        session_dirs_of(roots, n - 1).push(joined(roots[n - 1], "sessions"@)).push(
            joined(roots[n - 1], "archived_sessions"@),
        )
    }
}

/// The directories that may hold logs.
pub fn watch_roots(roots: &Vec<String>) -> (r: Vec<String>)
    ensures
        texts(r@) == session_dirs_of(texts(roots@), roots@.len() as int),
{
    let mut out: Vec<String> = Vec::new();
    assert(texts(out@) =~= Seq::empty());
    for i in 0..roots.len()
        invariant
            texts(out@) == session_dirs_of(texts(roots@), i as int),
    {
        let ghost before = out@;
        let a = path_join(roots[i].as_str(), "sessions");
        let b = path_join(roots[i].as_str(), "archived_sessions");
        assert(texts(roots@)[i as int] == roots@[i as int]@);
        out.push(a);
        out.push(b);
        assert(texts(out@) =~= texts(before).push(a@).push(b@));
    }
    out
}

/// The pattern of the logs in a directory.
pub fn rollout_pattern(dir: &str) -> (r: String)
    ensures
        r@ == dir@ + "/**/rollout-*.jsonl"@,
{
    concat(dir, "/**/rollout-*.jsonl")
}

/// The keys under which the model and the project of a file are kept from one scan to the next.
pub fn kept_keys(path: &str) -> (r: (String, String))
    ensures
        r.0@ == "codex_model:"@ + path@,
        r.1@ == "codex_proj:"@ + path@,
{
    (concat("codex_model:", path), concat("codex_proj:", path))
}

/// What a scan has gathered: the model and the project in force, the records, and the last
/// account of the rate limits with the time it was given.
#[derive(Debug, Clone)]
pub struct CodexScan {
    pub model: Option<String>,
    pub project: Option<String>,
    pub events: Vec<Event>,
    pub latest: Option<(Timestamp, Vec<RateWindow>)>,
}

/// The content of a [`CodexScan`].
#[verifier::ext_equal]
pub struct ScanView {
    pub model: Option<Seq<char>>,
    pub project: Option<Seq<char>>,
    pub events: Seq<EventView>,
    pub latest: Option<(Timestamp, Seq<RateWindow>)>,
}

impl View for CodexScan {
    type V = ScanView;

    open spec fn view(&self) -> ScanView {
        ScanView {
            model: opt_text(self.model),
            project: opt_text(self.project),
            events: event_views(self.events@),
            latest: match self.latest {
                Some(l) => Some((l.0, l.1@)),
                None => None,
            },
        }
    }
}

impl CodexScan {
    /// Whether the times of the account are instants of the calendar.
    pub open spec fn wf(self) -> bool {
        self.latest matches Some(l) ==> l.0.wf() && forall|i: int|
            0 <= i < l.1@.len() ==> (#[trigger] l.1@[i]).wf()
    }
}

/// The second where there is one, else the first.
pub open spec fn newer(kept: Option<Seq<char>>, seen: Option<Seq<char>>) -> Option<Seq<char>> {
    match seen {
        Some(s) => Some(s),
        None => kept,
    }
}

/// What a scan has gathered after one more line. Tokens of no known model are not counted;
/// a line without a time counts as of `now`.
pub open spec fn scan_step(
    st: ScanView,
    line: CodexView,
    now: Timestamp,
    session: Option<Seq<char>>,
    raw_source: Seq<char>,
    pricing: Pricing,
) -> ScanView {
    let model = newer(st.model, line.model);
    let project = newer(st.project, line.cwd);
    let ts = match line.ts {
        Some(t) => t,
        None => now,
    };
    ScanView {
        model,
        project,
        events: if line.usage is Some && model is Some {
            st.events.push(
                codex_event_of(line.usage->0, model, session, project, ts, raw_source, pricing),
            )
        } else {
            st.events
        },
        latest: if line.rate_limits.len() > 0 {
            Some((ts, line.rate_limits))
        } else {
            st.latest
        },
    }
}

/// What a scan has gathered after the first `n` lines.
pub open spec fn scan_lines(
    st: ScanView,
    lines: Seq<Seq<char>>,
    nows: Seq<Timestamp>,
    n: int,
    session: Option<Seq<char>>,
    raw_source: Seq<char>,
    pricing: Pricing,
) -> ScanView
    decreases n,
{
    if n <= 0 {
        st
    } else {
        scan_step(
            scan_lines(st, lines, nows, n - 1, session, raw_source, pricing),
            codex_line_of(lines[n - 1]),
            nows[n - 1],
            session,
            raw_source,
            pricing,
        )
    }
}

/// Takes one more line into account.
pub fn take_line(
    st: CodexScan,
    p: CodexParsed,
    now: Timestamp,
    session: Option<&str>,
    raw_source: &str,
    pricing: &Pricing,
) -> (r: CodexScan)
    requires
        st.wf(),
        now.wf(),
        p.ts matches Some(t) ==> t.wf(),
        forall|i: int| 0 <= i < p.rate_limits@.len() ==> (#[trigger] p.rate_limits@[i]).wf(),
    ensures
        r@ == scan_step(st@, p@, now, opt_str(session), raw_source@, *pricing),
        r.wf(),
{
    let ghost before = st@;
    let model = match p.model {
        Some(m) => Some(m),
        None => st.model,
    };
    let project = match p.cwd {
        Some(c) => Some(c),
        None => st.project,
    };
    let ts = match p.ts {
        Some(t) => t,
        None => now,
    };
    let mut events = st.events;
    let ghost seen = events@;
    match p.usage {
        Some(usage) => if model.is_some() {
            let e = codex_event(
                &usage,
                lend(&model),
                session,
                lend(&project),
                ts,
                raw_source,
                pricing,
            );
            events.push(e);
            assert(event_views(events@) =~= event_views(seen).push(e@));
        },
        None => {},
    }
    let latest = if p.rate_limits.len() > 0 {
        Some((ts, p.rate_limits))
    } else {
        st.latest
    };
    CodexScan { model, project, events, latest }
}

/// Scans lines, each read when the clock showed the time of `nows` at its position, with the
/// model and the project that the scan before ended with.
pub fn scan_file(
    lines: &Vec<String>,
    nows: &Vec<Timestamp>,
    model: Option<String>,
    project: Option<String>,
    path: &str,
    pricing: &Pricing,
) -> (r: CodexScan)
    requires
        nows@.len() >= lines@.len(),
        forall|i: int| 0 <= i < nows@.len() ==> (#[trigger] nows@[i]).wf(),
    ensures
        r@ == scan_lines(
            ScanView {
                model: opt_text(model),
                project: opt_text(project),
                events: Seq::empty(),
                latest: None,
            },
            texts(lines@),
            nows@,
            lines@.len() as int,
            session_of(path@),
            path@,
            *pricing,
        ),
        r.wf(),
{
    let session = session_id_from(path);
    let ghost start = ScanView {
        model: opt_text(model),
        project: opt_text(project),
        events: Seq::empty(),
        latest: None,
    };
    let mut st = CodexScan { model, project, events: Vec::new(), latest: None };
    assert(event_views(st.events@) =~= Seq::empty());
    for i in 0..lines.len()
        invariant
            nows@.len() >= lines@.len(),
            forall|k: int| 0 <= k < nows@.len() ==> (#[trigger] nows@[k]).wf(),
            opt_text(session) == session_of(path@),
            st.wf(),
            st@ == scan_lines(
                start,
                texts(lines@),
                nows@,
                i as int,
                session_of(path@),
                path@,
                *pricing,
            ),
    {
        let p = parse_codex_line(lines[i].as_str());
        assert(texts(lines@)[i as int] == lines@[i as int]@);
        assert(nows@[i as int].wf());
        st = take_line(st, p, nows[i], lend(&session), path, pricing);
    }
    st
}

/// The kind of a rate-limit window: a day or longer is the weekly one.
pub open spec fn window_kind_of(minutes: i64) -> Seq<char> {
    if minutes >= WEEKLY_FROM {
        "weekly"@
    } else {
        "session"@
    }
}

/// The kind of a rate-limit window.
pub fn window_kind(minutes: i64) -> (r: &'static str)
    ensures
        r@ == window_kind_of(minutes),
{
    if minutes >= WEEKLY_FROM {
        "weekly"
    } else {
        "session"
    }
}

/// Whether a row says of Codex what a window reported at `ts` says.
pub open spec fn row_tells(row: RateLimitStatus, w: RateWindow, ts: Timestamp) -> bool {
    &&& row.service@ == SERVICE_CODEX@
    &&& row.window_kind@ == window_kind_of(w.window_minutes)
    &&& row.used_percent == Some(w.used_percent)
    &&& row.window_minutes == Some(w.window_minutes)
    &&& row.resets_at == w.resets_at
    &&& row.observed_at == ts
}

/// The rows that keep the last account of the rate limits, in its order.
pub fn status_rows(latest: &Option<(Timestamp, Vec<RateWindow>)>) -> (r: Vec<RateLimitStatus>)
    ensures
        match *latest {
            Some(l) => r@.len() == l.1@.len() && forall|i: int|
                0 <= i < r@.len() ==> row_tells(#[trigger] r@[i], l.1@[i], l.0),
            None => r@.len() == 0,
        },
{
    let mut out: Vec<RateLimitStatus> = Vec::new();
    match latest {
        Some(l) => {
            for i in 0..l.1.len()
                invariant
                    out@.len() == i,
                    forall|k: int| 0 <= k < i ==> row_tells(#[trigger] out@[k], l.1@[k], l.0),
            {
                let w = l.1[i];
                out.push(
                    RateLimitStatus {
                        service: SERVICE_CODEX.to_owned(),
                        window_kind: window_kind(w.window_minutes).to_owned(),
                        used_percent: Some(w.used_percent),
                        window_minutes: Some(w.window_minutes),
                        resets_at: w.resets_at,
                        observed_at: l.0,
                    },
                );
            }
        },
        None => {},
    }
    out
}

/// The start of a scan that follows one that ended with `st`.
pub open spec fn resumed(st: ScanView) -> ScanView {
    ScanView { model: st.model, project: st.project, events: Seq::empty(), latest: None }
}

/// What two scans gathered, the second following the first.
pub open spec fn together(first: ScanView, second: ScanView) -> ScanView {
    ScanView {
        model: second.model,
        project: second.project,
        events: first.events + second.events,
        latest: match second.latest {
            Some(l) => Some(l),
            None => first.latest,
        },
    }
}

/// A file that is scanned, grows and is scanned on gives what one scan of all its lines
/// gives: the records of both scans, and the account of the rate limits of the later one
/// that has any.
pub proof fn law_scan_on(
    st: ScanView,
    a: Seq<Seq<char>>,
    ta: Seq<Timestamp>,
    b: Seq<Seq<char>>,
    tb: Seq<Timestamp>,
    session: Option<Seq<char>>,
    raw_source: Seq<char>,
    pricing: Pricing,
)
    requires
        ta.len() == a.len(),
        tb.len() == b.len(),
    ensures
        ({
            let first = scan_lines(st, a, ta, a.len() as int, session, raw_source, pricing);
            let second = scan_lines(
                resumed(first),
                b,
                tb,
                b.len() as int,
                session,
                raw_source,
                pricing,
            );
            scan_lines(
                st,
                a + b,
                ta + tb,
                (a + b).len() as int,
                session,
                raw_source,
                pricing,
            ) == together(first, second)
        }),
{
    lemma_scan_on(st, a, ta, b, tb, b.len() as int, session, raw_source, pricing);
    let first = scan_lines(st, a, ta, a.len() as int, session, raw_source, pricing);
    lemma_resumed(first, b, tb, b.len() as int, session, raw_source, pricing);
}

/// Scanning from the start of the following scan adds to what was gathered before.
proof fn lemma_resumed(
    st: ScanView,
    lines: Seq<Seq<char>>,
    nows: Seq<Timestamp>,
    n: int,
    session: Option<Seq<char>>,
    raw_source: Seq<char>,
    pricing: Pricing,
)
    ensures
        scan_lines(st, lines, nows, n, session, raw_source, pricing) == together(
            st,
            scan_lines(resumed(st), lines, nows, n, session, raw_source, pricing),
        ),
    decreases n,
{
    let x = scan_lines(st, lines, nows, n, session, raw_source, pricing);
    let y = scan_lines(resumed(st), lines, nows, n, session, raw_source, pricing);
    if n > 0 {
        lemma_resumed(st, lines, nows, n - 1, session, raw_source, pricing);
    }
    assert(x.events =~= together(st, y).events);
}

/// The lines of two runs are scanned one run after the other.
proof fn lemma_scan_on(
    st: ScanView,
    a: Seq<Seq<char>>,
    ta: Seq<Timestamp>,
    b: Seq<Seq<char>>,
    tb: Seq<Timestamp>,
    n: int,
    session: Option<Seq<char>>,
    raw_source: Seq<char>,
    pricing: Pricing,
)
    requires
        ta.len() == a.len(),
        tb.len() == b.len(),
        0 <= n <= b.len(),
    ensures
        scan_lines(st, a + b, ta + tb, a.len() + n, session, raw_source, pricing) == scan_lines(
            scan_lines(st, a, ta, a.len() as int, session, raw_source, pricing),
            b,
            tb,
            n,
            session,
            raw_source,
            pricing,
        ),
    decreases n,
{
    if n == 0 {
        lemma_scan_prefix(st, a, ta, b, tb, a.len() as int, session, raw_source, pricing);
    } else {
        lemma_scan_on(st, a, ta, b, tb, n - 1, session, raw_source, pricing);
    }
}

/// Lines that follow do not change what was gathered before them.
proof fn lemma_scan_prefix(
    st: ScanView,
    a: Seq<Seq<char>>,
    ta: Seq<Timestamp>,
    b: Seq<Seq<char>>,
    tb: Seq<Timestamp>,
    n: int,
    session: Option<Seq<char>>,
    raw_source: Seq<char>,
    pricing: Pricing,
)
    requires
        ta.len() == a.len(),
        0 <= n <= a.len(),
    ensures
        scan_lines(st, a + b, ta + tb, n, session, raw_source, pricing) == scan_lines(
            st,
            a,
            ta,
            n,
            session,
            raw_source,
            pricing,
        ),
    decreases n,
{
    if n > 0 {
        lemma_scan_prefix(st, a, ta, b, tb, n - 1, session, raw_source, pricing);
    }
}

/// Tokens are never charged to a model that no line before them named: while no model is
/// known and none is named, nothing is recorded.
pub proof fn law_no_model_no_record(
    st: ScanView,
    lines: Seq<Seq<char>>,
    nows: Seq<Timestamp>,
    n: int,
    session: Option<Seq<char>>,
    raw_source: Seq<char>,
    pricing: Pricing,
)
    requires
        0 <= n <= lines.len(),
        st.model is None,
        forall|i: int| 0 <= i < n ==> codex_line_of(#[trigger] lines[i]).model is None,
    ensures
        scan_lines(st, lines, nows, n, session, raw_source, pricing).events == st.events,
        scan_lines(st, lines, nows, n, session, raw_source, pricing).model is None,
    decreases n,
{
    if n > 0 {
        law_no_model_no_record(st, lines, nows, n - 1, session, raw_source, pricing);
        assert(codex_line_of(lines[n - 1]).model is None);
    }
}

/// Tokens are charged to the model of the nearest line before them, or of their own, that
/// names one: after a line that names a model and others that do not, it is in force.
pub proof fn law_nearest_model(
    st: ScanView,
    lines: Seq<Seq<char>>,
    nows: Seq<Timestamp>,
    j: int,
    n: int,
    session: Option<Seq<char>>,
    raw_source: Seq<char>,
    pricing: Pricing,
)
    requires
        0 <= j < n <= lines.len(),
        codex_line_of(lines[j]).model is Some,
        forall|i: int| j < i < n ==> codex_line_of(#[trigger] lines[i]).model is None,
    ensures
        scan_lines(st, lines, nows, n, session, raw_source, pricing).model == codex_line_of(
            lines[j],
        ).model,
        codex_line_of(lines[n - 1]).usage is Some ==> ({
            let before = scan_lines(st, lines, nows, n - 1, session, raw_source, pricing);
            let after = scan_lines(st, lines, nows, n, session, raw_source, pricing);
            after.events.len() == before.events.len() + 1 && after.events.last().model
                == codex_line_of(lines[j]).model
        }),
    decreases n,
{
    if j < n - 1 {
        law_nearest_model(st, lines, nows, j, n - 1, session, raw_source, pricing);
        assert(codex_line_of(lines[n - 1]).model is None);
    }
}

/// Whether the tokens that the line counts, if any, carry their time.
pub open spec fn timed(line: Seq<char>) -> bool {
    codex_line_of(line).usage is Some ==> codex_line_of(line).ts is Some
}

/// Whether one of the first `n` lines names a model.
pub open spec fn names_model(lines: Seq<Seq<char>>, n: int) -> bool {
    exists|j: int| 0 <= j < n && codex_line_of(#[trigger] lines[j]).model is Some
}

/// Whether every count of tokens stands in a line that names a model, or after one.
pub open spec fn attributed(lines: Seq<Seq<char>>) -> bool {
    forall|k: int|
        0 <= k < lines.len() && codex_line_of(#[trigger] lines[k]).usage is Some ==> names_model(
            lines,
            k + 1,
        )
}

/// Whether two runs of records have the same identifiers, one by one.
pub open spec fn same_uids(x: Seq<EventView>, y: Seq<EventView>) -> bool {
    x.len() == y.len() && forall|i: int|
        0 <= i < x.len() ==> (#[trigger] x[i]).event_uid == (#[trigger] y[i]).event_uid
}

/// Two scans of the same lines record the same identifiers, whenever each is made.
proof fn lemma_same_uids(
    x: ScanView,
    y: ScanView,
    lines: Seq<Seq<char>>,
    tx: Seq<Timestamp>,
    ty: Seq<Timestamp>,
    n: int,
    session: Option<Seq<char>>,
    raw_source: Seq<char>,
    pricing: Pricing,
)
    requires
        0 <= n <= lines.len(),
        x.events == y.events,
        forall|k: int| 0 <= k < lines.len() ==> timed(#[trigger] lines[k]),
        x.model == y.model || attributed(lines),
    ensures
        ({
            let u = scan_lines(x, lines, tx, n, session, raw_source, pricing);
            let v = scan_lines(y, lines, ty, n, session, raw_source, pricing);
            &&& same_uids(u.events, v.events)
            &&& x.model == y.model || names_model(lines, n) ==> u.model == v.model
        }),
    decreases n,
{
    if n > 0 {
        lemma_same_uids(x, y, lines, tx, ty, n - 1, session, raw_source, pricing);
        let line = lines[n - 1];
        assert(timed(line));
        if names_model(lines, n) && !names_model(lines, n - 1) {
            let j = choose|j: int|
                0 <= j < n && codex_line_of(#[trigger] lines[j]).model is Some;
            assert(j == n - 1);
        }
        if codex_line_of(line).usage is Some && x.model != y.model {
            assert(names_model(lines, n));
        }
    }
}

/// Scanning a file anew gives no new identifier: those of a scan of the whole are those of the
/// two scans that went before, the second going on where the first ended, so that every record
/// is known already. It does not matter when the file is scanned, nor which model is
/// remembered of it, as long as each count of tokens carries its time and the scan starts with
/// the same model, or each count follows the model that it is charged to.
pub proof fn law_scanning_anew(
    a: Seq<u8>,
    b: Seq<u8>,
    first: ScanView,
    again: ScanView,
    ta: Seq<Timestamp>,
    tb: Seq<Timestamp>,
    t: Seq<Timestamp>,
    session: Option<Seq<char>>,
    raw_source: Seq<char>,
    pricing: Pricing,
    uid: Seq<char>,
)
    requires
        first.events.len() == 0,
        again.events.len() == 0,
        ta.len() == lines_of(a).len(),
        tb.len() == lines_of((a + b).skip(complete(a))).len(),
        forall|k: int| 0 <= k < lines_of(a + b).len() ==> timed(#[trigger] lines_of(a + b)[k]),
        first.model == again.model || attributed(lines_of(a + b)),
    ensures
        ({
            let rest = lines_of((a + b).skip(complete(a)));
            let all = lines_of(a + b);
            let one = scan_lines(
                first,
                lines_of(a),
                ta,
                lines_of(a).len() as int,
                session,
                raw_source,
                pricing,
            );
            let two = scan_lines(
                resumed(one),
                rest,
                tb,
                rest.len() as int,
                session,
                raw_source,
                pricing,
            );
            let anew = scan_lines(again, all, t, all.len() as int, session, raw_source, pricing);
            has_uid(anew.events, uid) <==> has_uid(one.events, uid) || has_uid(two.events, uid)
        }),
{
    law_incremental_reading(a, b, 0);
    let rest = lines_of((a + b).skip(complete(a)));
    let all = lines_of(a + b);
    let one = scan_lines(
        first,
        lines_of(a),
        ta,
        lines_of(a).len() as int,
        session,
        raw_source,
        pricing,
    );
    let two = scan_lines(
        resumed(one),
        rest,
        tb,
        rest.len() as int,
        session,
        raw_source,
        pricing,
    );
    let anew = scan_lines(again, all, t, all.len() as int, session, raw_source, pricing);
    law_scan_on(first, lines_of(a), ta, rest, tb, session, raw_source, pricing);
    assert(first.events =~= again.events);
    lemma_same_uids(
        again,
        first,
        all,
        t,
        ta + tb,
        all.len() as int,
        session,
        raw_source,
        pricing,
    );
    let (x, y) = (one.events, two.events);
    let whole = x + y;
    assert(same_uids(anew.events, whole));
    if has_uid(anew.events, uid) {
        let i = choose|i: int|
            0 <= i < anew.events.len() && (#[trigger] anew.events[i]).event_uid == uid;
        assert(whole[i].event_uid == uid);
        if i < x.len() {
            assert(x[i] == whole[i]);
        } else {
            assert(y[i - x.len()] == whole[i]);
        }
    }
    if has_uid(x, uid) {
        let i = choose|i: int| 0 <= i < x.len() && (#[trigger] x[i]).event_uid == uid;
        assert(whole[i] == x[i]);
        assert(anew.events[i].event_uid == uid);
    }
    if has_uid(y, uid) {
        let i = choose|i: int| 0 <= i < y.len() && (#[trigger] y[i]).event_uid == uid;
        assert(whole[x.len() + i] == y[i]);
        assert(anew.events[x.len() + i].event_uid == uid);
    }
}

/// Scanning a file that has not grown records nothing, so that nothing is newly stored, and
/// keeps what is remembered of it.
pub proof fn law_scanning_unchanged(
    known: Set<Seq<char>>,
    a: Seq<u8>,
    st: ScanView,
    t: Seq<Timestamp>,
    session: Option<Seq<char>>,
    raw_source: Seq<char>,
    pricing: Pricing,
)
    ensures
        ({
            let rest = lines_of(a.skip(complete(a)));
            let again = scan_lines(
                resumed(st),
                rest,
                t,
                rest.len() as int,
                session,
                raw_source,
                pricing,
            );
            &&& again == resumed(st)
            &&& newly_stored(known, again.events) == 0
            &&& stored_uids(known, again.events) == known
        }),
{
    law_reading_again(a);
    law_known_records_add_nothing(known, Seq::<EventView>::empty());
}

/// Once both scans of a file that grows are stored, scanning it anew stores nothing, on the
/// terms of [`law_scanning_anew`].
pub proof fn law_rescan_stores_nothing(
    known: Set<Seq<char>>,
    a: Seq<u8>,
    b: Seq<u8>,
    first: ScanView,
    again: ScanView,
    ta: Seq<Timestamp>,
    tb: Seq<Timestamp>,
    t: Seq<Timestamp>,
    session: Option<Seq<char>>,
    raw_source: Seq<char>,
    pricing: Pricing,
)
    requires
        first.events.len() == 0,
        again.events.len() == 0,
        ta.len() == lines_of(a).len(),
        tb.len() == lines_of((a + b).skip(complete(a))).len(),
        forall|k: int| 0 <= k < lines_of(a + b).len() ==> timed(#[trigger] lines_of(a + b)[k]),
        first.model == again.model || attributed(lines_of(a + b)),
    ensures
        ({
            let rest = lines_of((a + b).skip(complete(a)));
            let all = lines_of(a + b);
            let one = scan_lines(
                first,
                lines_of(a),
                ta,
                lines_of(a).len() as int,
                session,
                raw_source,
                pricing,
            );
            let two = scan_lines(
                resumed(one),
                rest,
                tb,
                rest.len() as int,
                session,
                raw_source,
                pricing,
            );
            let anew = scan_lines(again, all, t, all.len() as int, session, raw_source, pricing);
            newly_stored(stored_uids(stored_uids(known, one.events), two.events), anew.events) == 0
        }),
{
    let rest = lines_of((a + b).skip(complete(a)));
    let all = lines_of(a + b);
    let one = scan_lines(
        first,
        lines_of(a),
        ta,
        lines_of(a).len() as int,
        session,
        raw_source,
        pricing,
    );
    let two = scan_lines(
        resumed(one),
        rest,
        tb,
        rest.len() as int,
        session,
        raw_source,
        pricing,
    );
    let anew = scan_lines(again, all, t, all.len() as int, session, raw_source, pricing);
    let stored = stored_uids(stored_uids(known, one.events), two.events);
    assert forall|uid: Seq<char>| #[trigger] has_uid(anew.events, uid) implies stored.contains(
        uid,
    ) by {
        law_scanning_anew(a, b, first, again, ta, tb, t, session, raw_source, pricing, uid);
    }
    law_known_records_add_nothing(stored, anew.events);
}

/// Tokens are recorded with the project of the nearest line before them, or of their own, that
/// names a directory, the earlier one staying in force on lines that name none.
pub proof fn law_nearest_project(
    st: ScanView,
    lines: Seq<Seq<char>>,
    nows: Seq<Timestamp>,
    j: int,
    n: int,
    session: Option<Seq<char>>,
    raw_source: Seq<char>,
    pricing: Pricing,
)
    requires
        0 <= j < n <= lines.len(),
        codex_line_of(lines[j]).cwd is Some,
        forall|i: int| j < i < n ==> codex_line_of(#[trigger] lines[i]).cwd is None,
    ensures
        ({
            let before = scan_lines(st, lines, nows, n - 1, session, raw_source, pricing);
            let after = scan_lines(st, lines, nows, n, session, raw_source, pricing);
            &&& after.project == codex_line_of(lines[j]).cwd
            &&& after.events.len() > before.events.len() ==> after.events.last().project
                == codex_line_of(lines[j]).cwd
        }),
    decreases n,
{
    if j < n - 1 {
        law_nearest_project(st, lines, nows, j, n - 1, session, raw_source, pricing);
        assert(codex_line_of(lines[n - 1]).cwd is None);
    }
}

/// A line adds one record, or none: one exactly where it counts tokens and a model is in force,
/// of these tokens, of the time that the line names, else of the clock, and of the session of
/// the file. What was recorded before stays.
pub proof fn law_record_of_line(
    st: ScanView,
    line: CodexView,
    now: Timestamp,
    session: Option<Seq<char>>,
    raw_source: Seq<char>,
    pricing: Pricing,
)
    ensures
        ({
            let r = scan_step(st, line, now, session, raw_source, pricing);
            let owed = line.usage is Some && (line.model is Some || st.model is Some);
            &&& !owed ==> r.events == st.events
            &&& owed ==> {
                let e = r.events.last();
                let u = line.usage->0;
                &&& r.events.len() == st.events.len() + 1
                &&& r.events.drop_last() == st.events
                &&& e.input_tokens == u.input && e.output_tokens == u.output
                &&& e.cache_read_tokens == u.cache_read && e.cache_write_tokens == u.cache_write
                &&& e.reasoning_tokens == u.reasoning
                &&& line.ts matches Some(t) ==> e.ts == t
                &&& line.ts is None ==> e.ts == now
                &&& e.session_id == session
                &&& e.raw_source == Some(raw_source)
                &&& line.model is Some ==> e.model == line.model
                &&& line.model is None ==> e.model == st.model
            }
            &&& line.model is Some ==> r.model == line.model
            &&& line.model is None ==> r.model == st.model
            &&& line.cwd is Some ==> r.project == line.cwd
            &&& line.cwd is None ==> r.project == st.project
        }),
{
    let r = scan_step(st, line, now, session, raw_source, pricing);
    if line.usage is Some && (line.model is Some || st.model is Some) {
        assert(r.events.drop_last() =~= st.events);
    }
}

/// The account of the rate limits is that of the last line that gives one, with the time of
/// that line: lines that give none leave it.
pub proof fn law_latest_limits(
    st: ScanView,
    lines: Seq<Seq<char>>,
    nows: Seq<Timestamp>,
    j: int,
    n: int,
    session: Option<Seq<char>>,
    raw_source: Seq<char>,
    pricing: Pricing,
)
    requires
        0 <= j < n <= lines.len(),
        codex_line_of(lines[j]).rate_limits.len() > 0,
        forall|i: int| j < i < n ==> codex_line_of(#[trigger] lines[i]).rate_limits.len() == 0,
    ensures
        ({
            let r = scan_lines(st, lines, nows, n, session, raw_source, pricing);
            let line = codex_line_of(lines[j]);
            &&& r.latest matches Some(l)
            &&& l.1 == line.rate_limits
            &&& line.ts matches Some(t) ==> l.0 == t
            &&& line.ts is None ==> l.0 == nows[j]
        }),
    decreases n,
{
    if j < n - 1 {
        law_latest_limits(st, lines, nows, j, n - 1, session, raw_source, pricing);
        assert(codex_line_of(lines[n - 1]).rate_limits.len() == 0);
    }
}

/// A row keeps what a window of Codex reports, as the weekly one from a day on, else as that of
/// the session.
pub proof fn law_row_of_window(row: RateLimitStatus, w: RateWindow, ts: Timestamp)
    requires
        row_tells(row, w, ts),
    ensures
        w.window_minutes >= 1440 ==> row.window_kind@ == "weekly"@,
        w.window_minutes < 1440 ==> row.window_kind@ == "session"@,
        row.service@ == SERVICE_CODEX@,
        row.used_percent == Some(w.used_percent),
        row.window_minutes == Some(w.window_minutes),
        row.resets_at == w.resets_at,
        row.observed_at == ts,
{
}

/// The session of a log is its name without the prefix and the extension, and the whole name
/// without the extension where there is no such prefix.
pub proof fn law_session_name(path: Seq<char>, rest: Seq<char>)
    ensures
        file_stem_of(path) == Some("rollout-"@ + rest) ==> session_of(path) == Some(rest),
        file_stem_of(path) matches Some(s) ==> (s.len() < 8 || s.take(8) != "rollout-"@)
            ==> session_of(path) == Some(s),
        file_stem_of(path) is None ==> session_of(path) is None,
{
    reveal_strlit("rollout-");
    assert("rollout-"@.len() == 8);
    let s = "rollout-"@ + rest;
    assert(s.take(8) =~= "rollout-"@);
    assert(s.skip(8) =~= rest);
}

/// A log is told by both ends of the name of its file.
pub proof fn law_rollout_name(path: Seq<char>, name: Seq<char>, middle: Seq<char>)
    requires
        file_name_of(path) == Some(name),
    ensures
        name == "rollout-"@ + middle + ".jsonl"@ ==> is_rollout_of(path),
        is_rollout_of(path) ==> name.len() >= 8 && name.take(8) == "rollout-"@ && name.len() >= 6
            && name.skip(name.len() - 6) == ".jsonl"@,
{
    reveal_strlit("rollout-");
    reveal_strlit(".jsonl");
    assert("rollout-"@.len() == 8 && ".jsonl"@.len() == 6);
    let n = "rollout-"@ + middle + ".jsonl"@;
    assert(n.take(8) =~= "rollout-"@);
    assert(n.skip(n.len() - 6) =~= ".jsonl"@);
}

/// What is configured wins over the environment, unless it is blank, and the environment over
/// the hidden directory. Each part between commas is a directory of its own, taken to the home
/// directory and without white space at its ends.
pub proof fn law_roots(
    configured: Option<Seq<char>>,
    env: Option<Seq<char>>,
    home: Option<Seq<char>>,
    text: Seq<char>,
    i: int,
)
    ensures
        configured matches Some(s) ==> (exists|k: int|
            0 <= k < s.len() && !is_white(#[trigger] s[k])) ==> home_text(configured, env) == s,
        (configured is None || is_blank(configured->0)) ==> {
            &&& env matches Some(e) ==> home_text(configured, env) == e
            &&& env is None ==> home_text(configured, env) == "~/.codex"@
        },
        roots_of(text, home).len() == pieces(text, ',').len(),
        0 <= i < pieces(text, ',').len() ==> roots_of(text, home)[i] == expanded(
            trimmed(pieces(text, ',')[i]),
            home,
        ),
{
}

/// Every directory of Codex is watched in two places, side by side and in order.
pub proof fn law_session_dirs(roots: Seq<Seq<char>>, n: int, i: int)
    requires
        0 <= i < n <= roots.len(),
    ensures
        session_dirs_of(roots, n).len() == 2 * n,
        session_dirs_of(roots, n)[2 * i] == joined(roots[i], "sessions"@),
        session_dirs_of(roots, n)[2 * i + 1] == joined(roots[i], "archived_sessions"@),
    decreases n,
{
    lemma_session_dirs_len(roots, n - 1);
    if i < n - 1 {
        law_session_dirs(roots, n - 1, i);
    }
}

/// There are two directories for each.
proof fn lemma_session_dirs_len(roots: Seq<Seq<char>>, n: int)
    requires
        0 <= n,
    ensures
        session_dirs_of(roots, n).len() == 2 * n,
    decreases n,
{
    if n > 0 {
        lemma_session_dirs_len(roots, n - 1);
    }
}

/// The content of a scan is what it holds.
pub proof fn law_scan_content(s: CodexScan)
    ensures
        s@.model == opt_text(s.model),
        s@.project == opt_text(s.project),
        s@.events == event_views(s.events@),
        s.latest matches Some(l) ==> s@.latest == Some((l.0, l.1@)),
        s.latest is None ==> s@.latest is None,
{
}

} // verus!
