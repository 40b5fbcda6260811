//! What the API answers with.

use crate::config::Config;
use crate::db::CountsSummary;
use crate::forecast::cap::{service_unit, unit_for};
use crate::models::{MeteredMode, Unit, SERVICE_CLAUDE_CODE, SERVICE_CODEX, SERVICE_OPENROUTER};
use crate::number::{zero, Real};
use crate::text::{
    chars_of, concat, lemma_text_order, opt_str, opt_text, str_eq, text_before, text_lt, text_of,
};
use crate::time::{
    instant_text, local_start, local_start_at, local_time, local_time_at, parse_dt, rfc3339_instant,
    rfc3339_text, zone_clock, zone_hour, zone_of, Timestamp,
};
use vstd::prelude::*;

verus! {

// ---------------------------------------------------------------------------
// Files of the frontend
// ---------------------------------------------------------------------------

/// What follows the last dot of a path, all of it where there is none.
pub open spec fn after_last_dot(path: Seq<char>) -> Seq<char>
    decreases path.len(),
{
    if path.len() == 0 || path.last() == '.' {
        Seq::empty()
    } else {
        after_last_dot(path.drop_last()).push(path.last())
    }
}

/// The content type of a file, by what follows the last dot of its path.
pub open spec fn content_type_of(path: Seq<char>) -> Seq<char> {
    let ext = after_last_dot(path);
    if ext == "html"@ {
        "text/html; charset=utf-8"@
    } else if ext == "js"@ {
        "text/javascript; charset=utf-8"@
    } else if ext == "css"@ {
        "text/css; charset=utf-8"@
    } else if ext == "json"@ {
        "application/json"@
    } else if ext == "svg"@ {
        "image/svg+xml"@
    } else if ext == "png"@ {
        "image/png"@
    } else if ext == "ico"@ {
        "image/x-icon"@
    } else if ext == "woff2"@ {
        "font/woff2"@
    } else {
        "application/octet-stream"@
    }
}

/// The content type of a file, by what follows the last dot of its path.
pub fn content_type(path: &str) -> (r: &'static str)
    ensures
        r@ == content_type_of(path@),
{
    let v = chars_of(path);
    let mut from: usize = v.len();
    assert(v@.take(v@.len() as int) =~= v@);
    assert(v@.subrange(from as int, v@.len() as int) =~= Seq::empty());
    while from > 0 && v[from - 1] != '.'
        invariant
            from <= v@.len(),
            v@ == path@,
            after_last_dot(path@) =~= after_last_dot(v@.take(from as int)) + v@.subrange(
                from as int,
                v@.len() as int,
            ),
        ensures
            from <= v@.len(),
            v@ == path@,
            after_last_dot(path@) =~= v@.subrange(from as int, v@.len() as int),
        decreases from,
    {
        assert(v@.take(from as int).drop_last() =~= v@.take(from - 1));
        assert(v@.subrange(from - 1, v@.len() as int) =~= seq![v@[from - 1]] + v@.subrange(
            from as int,
            v@.len() as int,
        ));
        from = from - 1;
    }
    let ext = text_of(&v, from, v.len());
    let e = ext.as_str();
    if str_eq(e, "html") {
        "text/html; charset=utf-8"
    } else if str_eq(e, "js") {
        "text/javascript; charset=utf-8"
    } else if str_eq(e, "css") {
        "text/css; charset=utf-8"
    } else if str_eq(e, "json") {
        "application/json"
    } else if str_eq(e, "svg") {
        "image/svg+xml"
    } else if str_eq(e, "png") {
        "image/png"
    } else if str_eq(e, "ico") {
        "image/x-icon"
    } else if str_eq(e, "woff2") {
        "font/woff2"
    } else {
        "application/octet-stream"
    }
}

/// A path without the slashes in front.
pub open spec fn unrooted(path: Seq<char>) -> Seq<char>
    decreases path.len(),
{
    if path.len() > 0 && path[0] == '/' {
        unrooted(path.drop_first())
    } else {
        path
    }
}

/// The file that a request for `path` asks for: the index for the root.
pub open spec fn asset_of(path: Seq<char>) -> Seq<char> {
    if unrooted(path).len() == 0 {
        "index.html"@
    } else {
        unrooted(path)
    }
}

/// The file that a request for `path` asks for.
pub fn asset_path(path: &str) -> (r: String)
    ensures
        r@ == asset_of(path@),
{
    let v = chars_of(path);
    let mut from: usize = 0;
    assert(v@.skip(0) =~= v@);
    while from < v.len() && v[from] == '/'
        invariant
            from <= v@.len(),
            v@ == path@,
            unrooted(path@) == unrooted(v@.skip(from as int)),
        ensures
            from <= v@.len(),
            v@ == path@,
            unrooted(path@) == v@.skip(from as int),
        decreases v.len() - from,
    {
        assert(v@.skip(from as int).drop_first() =~= v@.skip(from + 1));
        from = from + 1;
    }
    if from == v.len() {
        "index.html".to_owned()
    } else {
        assert(v@.skip(from as int) =~= v@.subrange(from as int, v@.len() as int));
        text_of(&v, from, v.len())
    }
}

// ---------------------------------------------------------------------------
// Services
// ---------------------------------------------------------------------------

/// What is known of a service.
#[derive(Debug, Clone)]
pub struct ServiceEntry {
    pub service: &'static str,
    pub enabled: bool,
    pub metered_mode: MeteredMode,
    pub unit: Unit,
    pub events: i64,
    pub tokens: i64,
    pub cost_usd: Real,
}

/// The position of the first summary of a service, from `i` on.
pub open spec fn summary_at(counts: Seq<CountsSummary>, service: Seq<char>, i: int) -> Option<int>
    decreases counts.len() - i,
{
    if i < 0 || i >= counts.len() {
        None
    } else if counts[i].service@ == service {
        Some(i)
    } else {
        summary_at(counts, service, i + 1)
    }
}

/// Whether an entry is that of a service, with nothing counted where there is no summary.
pub open spec fn entry_of(
    e: ServiceEntry,
    service: Seq<char>,
    enabled: bool,
    mode: MeteredMode,
    unit: Unit,
    counts: Seq<CountsSummary>,
) -> bool {
    &&& e.service@ == service
    &&& e.enabled == enabled
    &&& e.metered_mode == mode
    &&& e.unit == unit
    &&& match summary_at(counts, service, 0) {
        Some(i) => e.events == counts[i].events && e.tokens == counts[i].tokens && e.cost_usd
            == counts[i].cost_usd,
        None => e.events == 0 && e.tokens == 0 && e.cost_usd == zero(),
    }
}

/// The entry of one service.
fn service_entry(
    service: &'static str,
    enabled: bool,
    mode: MeteredMode,
    unit: Unit,
    counts: &Vec<CountsSummary>,
) -> (r: ServiceEntry)
    ensures
        entry_of(r, service@, enabled, mode, unit, counts@),
{
    for i in 0..counts.len()
        invariant
            summary_at(counts@, service@, 0) == summary_at(counts@, service@, i as int),
    {
        if str_eq(counts[i].service.as_str(), service) {
            return ServiceEntry {
                service,
                enabled,
                metered_mode: mode,
                unit,
                events: counts[i].events,
                tokens: counts[i].tokens,
                cost_usd: counts[i].cost_usd,
            };
        }
    }
    ServiceEntry {
        service,
        enabled,
        metered_mode: mode,
        unit,
        events: 0,
        tokens: 0,
        cost_usd: Real { bits: 0 },
    }
}

/// The services, enabled or not, in a fixed order.
pub fn build_services(cfg: &Config, counts: &Vec<CountsSummary>) -> (r: Vec<ServiceEntry>)
    ensures
        r@.len() == 3,
        entry_of(
            r@[0],
            SERVICE_CLAUDE_CODE@,
            cfg.services.claude_code.enabled,
            MeteredMode::Subscription,
            unit_for(cfg.services, SERVICE_CLAUDE_CODE@),
            counts@,
        ),
        entry_of(
            r@[1],
            SERVICE_CODEX@,
            cfg.services.codex.enabled,
            MeteredMode::Subscription,
            unit_for(cfg.services, SERVICE_CODEX@),
            counts@,
        ),
        entry_of(
            r@[2],
            SERVICE_OPENROUTER@,
            cfg.services.openrouter.enabled,
            MeteredMode::PayPerToken,
            unit_for(cfg.services, SERVICE_OPENROUTER@),
            counts@,
        ),
{
    let mut v: Vec<ServiceEntry> = Vec::new();
    v.push(
        service_entry(
            SERVICE_CLAUDE_CODE,
            cfg.services.claude_code.enabled,
            MeteredMode::Subscription,
            service_unit(cfg, SERVICE_CLAUDE_CODE),
            counts,
        ),
    );
    v.push(
        service_entry(
            SERVICE_CODEX,
            cfg.services.codex.enabled,
            MeteredMode::Subscription,
            service_unit(cfg, SERVICE_CODEX),
            counts,
        ),
    );
    v.push(
        service_entry(
            SERVICE_OPENROUTER,
            cfg.services.openrouter.enabled,
            MeteredMode::PayPerToken,
            service_unit(cfg, SERVICE_OPENROUTER),
            counts,
        ),
    );
    v
}

// ---------------------------------------------------------------------------
// Time series
// ---------------------------------------------------------------------------

/// The start of the local hour or day of an instant, itself where the clocks skip or repeat
/// that time.
pub open spec fn bucket_of(ts: Timestamp, tz: Seq<char>, daily: bool) -> Timestamp {
    match local_start(tz, local_time(tz, ts), daily) {
        Some(s) => s,
        None => ts,
    }
}

/// The start of the local hour or day of an instant.
pub fn bucket_start(ts: Timestamp, tz: &str, daily: bool) -> (r: Timestamp)
    requires
        ts.wf(),
    ensures
        r == bucket_of(ts, tz@, daily),
        r.wf(),
{
    let l = local_time_at(tz, ts);
    match local_start_at(tz, l, daily) {
        Some(s) => s,
        None => ts,
    }
}

/// What a request for a time series asks for: days unless hours are asked for, per service
/// unless models are asked for.
pub fn series_options(bucket: Option<&str>, by: Option<&str>) -> (r: (bool, bool))
    ensures
        r.0 == (opt_str(bucket) != Some("hour"@)),
        r.1 == (opt_str(by) == Some("model"@)),
{
    let hourly = match bucket {
        Some(b) => str_eq(b, "hour"),
        None => false,
    };
    let models = match by {
        Some(b) => str_eq(b, "model"),
        None => false,
    };
    (!hourly, models)
}

/// The column that a series is made per.
pub open spec fn key_column(models: bool) -> Seq<char> {
    if models {
        "COALESCE(model,'(unknown)')"@
    } else {
        "service"@
    }
}

/// The condition that keeps the events of one service.
pub open spec fn service_filter(filtered: bool) -> Seq<char> {
    if filtered {
        " AND service=?3"@
    } else {
        Seq::empty()
    }
}

/// The query for the events of a time series.
pub fn timeseries_query(models: bool, filtered: bool) -> (r: String)
    ensures
        r@ == "SELECT ts, "@ + key_column(models)
            + ", input_tokens+output_tokens+cache_read_tokens+cache_write_tokens+reasoning_tokens, cost_usd FROM events WHERE ts>=?1 AND ts<=?2"@
            + service_filter(filtered),
{
    let col = if models {
        "COALESCE(model,'(unknown)')"
    } else {
        "service"
    };
    let mut s = concat("SELECT ts, ", col);
    s.append(
        ", input_tokens+output_tokens+cache_read_tokens+cache_write_tokens+reasoning_tokens, cost_usd FROM events WHERE ts>=?1 AND ts<=?2",
    );
    if filtered {
        s.append(" AND service=?3");
    } else {
        assert(s@ + service_filter(filtered) =~= s@);
    }
    s
}

/// One event of a time series.
#[derive(Debug, Clone)]
pub struct SeriesRow {
    pub ts: String,
    pub key: String,
    pub tokens: i64,
}

/// The events of one bucket and key: their tokens, and their positions in order.
#[derive(Debug, Clone)]
pub struct BucketRow {
    pub ts: String,
    pub key: String,
    pub tokens: i128,
    pub rows: Vec<usize>,
}

/// The order of buckets: by time, then by key.
pub open spec fn bucket_lt(a: (Seq<char>, Seq<char>), b: (Seq<char>, Seq<char>)) -> bool {
    text_lt(a.0, b.0) || (a.0 == b.0 && text_lt(a.1, b.1))
}

/// The bucket and key of a row.
pub open spec fn bucket_key(r: BucketRow) -> (Seq<char>, Seq<char>) {
    (r.ts@, r.key@)
}

/// The bucket and key of event `i`, if it has a bucket.
pub open spec fn event_key(
    labels: Seq<Option<String>>,
    rows: Seq<SeriesRow>,
    i: int,
) -> Option<(Seq<char>, Seq<char>)> {
    match labels[i] {
        Some(l) => Some((l@, rows[i].key@)),
        None => None,
    }
}

/// The positions of the events of a bucket and key among the first `n`, in order.
pub open spec fn positions_in(
    labels: Seq<Option<String>>,
    rows: Seq<SeriesRow>,
    n: int,
    k: (Seq<char>, Seq<char>),
) -> Seq<usize>
    decreases n,
{
    if n <= 0 {
        Seq::empty()
    } else if event_key(labels, rows, n - 1) == Some(k) {
        positions_in(labels, rows, n - 1, k).push((n - 1) as usize)
    } else {
        positions_in(labels, rows, n - 1, k)
    }
}

/// The tokens of the events of a bucket and key among the first `n`.
pub open spec fn tokens_at(
    labels: Seq<Option<String>>,
    rows: Seq<SeriesRow>,
    n: int,
    k: (Seq<char>, Seq<char>),
) -> int
    decreases n,
{
    if n <= 0 {
        0
    } else {
        tokens_at(labels, rows, n - 1, k) + if event_key(labels, rows, n - 1) == Some(k) {
            rows[n - 1].tokens as int
        } else {
            0
        }
    }
}

/// The tokens of the events that have a bucket, among the first `n`.
pub open spec fn labelled_tokens(labels: Seq<Option<String>>, rows: Seq<SeriesRow>, n: int) -> int
    decreases n,
{
    if n <= 0 {
        0
    } else {
        labelled_tokens(labels, rows, n - 1) + if labels[n - 1] is Some {
            rows[n - 1].tokens as int
        } else {
            0
        }
    }
}

/// The tokens of buckets.
pub open spec fn bucket_tokens(out: Seq<BucketRow>) -> int
    decreases out.len(),
{
    if out.len() == 0 {
        0
    } else {
        bucket_tokens(out.drop_last()) + out.last().tokens
    }
}

/// Whether some row is of that bucket and key.
pub open spec fn has_bucket(out: Seq<BucketRow>, k: (Seq<char>, Seq<char>)) -> bool {
    exists|g: int| 0 <= g < out.len() && bucket_key(#[trigger] out[g]) == k
}

/// Whether `out` has the events of each bucket and key that has any among the first `n`, in
/// order.
pub open spec fn aggregated(
    labels: Seq<Option<String>>,
    rows: Seq<SeriesRow>,
    n: int,
    out: Seq<BucketRow>,
) -> bool {
    &&& forall|a: int, b: int|
        0 <= a < b < out.len() ==> bucket_lt(
            bucket_key(#[trigger] out[a]),
            bucket_key(#[trigger] out[b]),
        )
    &&& forall|g: int|
        0 <= g < out.len() ==> (#[trigger] out[g]).rows@ == positions_in(
            labels,
            rows,
            n,
            bucket_key(out[g]),
        ) && out[g].tokens == tokens_at(labels, rows, n, bucket_key(out[g])) && out[g].rows@.len() > 0
    &&& forall|i: int|
        0 <= i < n && (#[trigger] labels[i]) is Some ==> has_bucket(
            out,
            event_key(labels, rows, i)->0,
        )
}

/// The order of buckets is a strict total order.
proof fn lemma_bucket_order(
    a: (Seq<char>, Seq<char>),
    b: (Seq<char>, Seq<char>),
    c: (Seq<char>, Seq<char>),
)
    ensures
        !bucket_lt(a, a),
        bucket_lt(a, b) || bucket_lt(b, a) || a == b,
        bucket_lt(a, b) && bucket_lt(b, c) ==> bucket_lt(a, c),
        bucket_lt(a, b) ==> !bucket_lt(b, a),
{
    lemma_text_order(a.0, b.0, c.0);
    lemma_text_order(a.1, b.1, c.1);
    lemma_text_order(b.0, a.0, c.0);
    lemma_text_order(b.1, a.1, c.1);
}

/// The tokens of a bucket are no more than as many events can have.
proof fn lemma_tokens_at_bound(
    labels: Seq<Option<String>>,
    rows: Seq<SeriesRow>,
    n: int,
    k: (Seq<char>, Seq<char>),
)
    requires
        0 <= n,
    ensures
        -(n * 0x8000_0000_0000_0000) <= tokens_at(labels, rows, n, k) <= n * 0x8000_0000_0000_0000,
    decreases n,
{
    if n > 0 {
        lemma_tokens_at_bound(labels, rows, n - 1, k);
    }
}

/// Replacing one row changes the sum by the difference.
proof fn lemma_bucket_tokens_update(out: Seq<BucketRow>, i: int, r: BucketRow)
    requires
        0 <= i < out.len(),
    ensures
        bucket_tokens(out.update(i, r)) == bucket_tokens(out) - out[i].tokens + r.tokens,
    decreases out.len(),
{
    let t = out.update(i, r);
    if i == out.len() - 1 {
        assert(t.drop_last() =~= out.drop_last());
    } else {
        lemma_bucket_tokens_update(out.drop_last(), i, r);
        assert(t.drop_last() =~= out.drop_last().update(i, r));
    }
}

/// A new row adds its tokens to the sum.
proof fn lemma_bucket_tokens_insert(out: Seq<BucketRow>, i: int, r: BucketRow)
    requires
        0 <= i <= out.len(),
    ensures
        bucket_tokens(out.insert(i, r)) == bucket_tokens(out) + r.tokens,
    decreases out.len(),
{
    let t = out.insert(i, r);
    if i == out.len() {
        assert(t.drop_last() =~= out);
    } else {
        lemma_bucket_tokens_insert(out.drop_last(), i, r);
        assert(t.drop_last() =~= out.drop_last().insert(i, r));
        assert(t.last() == out.last());
    }
}

/// A bucket and key of no event has no positions and no tokens.
proof fn lemma_no_events(
    labels: Seq<Option<String>>,
    rows: Seq<SeriesRow>,
    n: int,
    k: (Seq<char>, Seq<char>),
)
    requires
        0 <= n <= labels.len(),
        forall|i: int| 0 <= i < n ==> (#[trigger] labels[i]) is Some ==> event_key(labels, rows, i) != Some(k),
    ensures
        positions_in(labels, rows, n, k) == Seq::<usize>::empty(),
        tokens_at(labels, rows, n, k) == 0,
    decreases n,
{
    if n > 0 {
        lemma_no_events(labels, rows, n - 1, k);
        assert(labels[n - 1] is Some ==> event_key(labels, rows, n - 1) != Some(k));
    }
}

/// An event of a row that is there is added to it.
proof fn lemma_bucket_added(
    labels: Seq<Option<String>>,
    rows: Seq<SeriesRow>,
    n: int,
    before: Seq<BucketRow>,
    after: Seq<BucketRow>,
    g0: int,
)
    requires
        0 <= n < labels.len() <= usize::MAX,
        rows.len() == labels.len(),
        aggregated(labels, rows, n, before),
        0 <= g0 < before.len(),
        after.len() == before.len(),
        event_key(labels, rows, n) == Some(bucket_key(before[g0])),
        forall|g: int| 0 <= g < before.len() && g != g0 ==> #[trigger] after[g] == before[g],
        bucket_key(after[g0]) == bucket_key(before[g0]),
        after[g0].rows@ == before[g0].rows@.push(n as usize),
        after[g0].tokens == before[g0].tokens + rows[n].tokens,
    ensures
        aggregated(labels, rows, n + 1, after),
{
    assert forall|a: int, b: int| 0 <= a < b < after.len() implies bucket_lt(
        bucket_key(#[trigger] after[a]),
        bucket_key(#[trigger] after[b]),
    ) by {
        assert(bucket_key(after[a]) == bucket_key(before[a]));
        assert(bucket_key(after[b]) == bucket_key(before[b]));
    }
    assert forall|g: int| 0 <= g < after.len() implies (#[trigger] after[g]).rows@ == positions_in(
        labels,
        rows,
        n + 1,
        bucket_key(after[g]),
    ) && after[g].tokens == tokens_at(labels, rows, n + 1, bucket_key(after[g]))
        && after[g].rows@.len() > 0 by {
        assert(before[g].rows@ == positions_in(labels, rows, n, bucket_key(before[g])));
        if g != g0 {
            let (x, y) = (bucket_key(before[g]), bucket_key(before[g0]));
            lemma_bucket_order(x, x, x);
            if g < g0 {
                assert(bucket_lt(x, y));
            } else {
                assert(bucket_lt(y, x));
            }
        }
    }
    assert forall|i: int| 0 <= i < n + 1 && (#[trigger] labels[i]) is Some implies has_bucket(
        after,
        event_key(labels, rows, i)->0,
    ) by {
        let k = event_key(labels, rows, i)->0;
        if i < n {
            assert(has_bucket(before, k));
            let g = choose|g: int| 0 <= g < before.len() && bucket_key(#[trigger] before[g]) == k;
            assert(bucket_key(after[g]) == k);
        } else {
            assert(bucket_key(after[g0]) == k);
        }
    }
}

/// An event of a bucket and key that has no row starts one.
proof fn lemma_bucket_new(
    labels: Seq<Option<String>>,
    rows: Seq<SeriesRow>,
    n: int,
    before: Seq<BucketRow>,
    after: Seq<BucketRow>,
    g0: int,
)
    requires
        0 <= n < labels.len() <= usize::MAX,
        rows.len() == labels.len(),
        aggregated(labels, rows, n, before),
        0 <= g0 <= before.len(),
        labels[n] is Some,
        after == before.insert(g0, after[g0]),
        bucket_key(after[g0]) == event_key(labels, rows, n)->0,
        after[g0].rows@ == seq![n as usize],
        after[g0].tokens == rows[n].tokens,
        forall|g: int|
            g0 <= g < before.len() ==> bucket_lt(bucket_key(after[g0]), bucket_key(#[trigger] before[g])),
        g0 > 0 ==> bucket_lt(bucket_key(before[g0 - 1]), bucket_key(after[g0])),
    ensures
        aggregated(labels, rows, n + 1, after),
{
    let k = bucket_key(after[g0]);
    assert forall|g: int| 0 <= g < g0 implies bucket_lt(bucket_key(#[trigger] before[g]), k) by {
        if g < g0 - 1 {
            assert(bucket_lt(bucket_key(before[g]), bucket_key(before[g0 - 1])));
            lemma_bucket_order(bucket_key(before[g]), bucket_key(before[g0 - 1]), k);
        }
    }
    assert forall|g: int| 0 <= g < before.len() implies bucket_key(#[trigger] before[g]) != k by {
        lemma_bucket_order(k, k, k);
    }
    assert forall|i: int| 0 <= i < n && (#[trigger] labels[i]) is Some implies event_key(
        labels,
        rows,
        i,
    ) != Some(k) by {
        if event_key(labels, rows, i) == Some(k) {
            assert(has_bucket(before, k));
        }
    }
    lemma_no_events(labels, rows, n, k);
    assert(positions_in(labels, rows, n + 1, k) =~= seq![n as usize]);
    assert forall|a: int, b: int| 0 <= a < b < after.len() implies bucket_lt(
        bucket_key(#[trigger] after[a]),
        bucket_key(#[trigger] after[b]),
    ) by {
        let x = if a < g0 {
            a
        } else {
            a - 1
        };
        let y = if b < g0 {
            b
        } else {
            b - 1
        };
        if a == g0 {
            assert(after[b] == before[y]);
        } else if b == g0 {
            assert(after[a] == before[x]);
        } else {
            assert(after[a] == before[x] && after[b] == before[y]);
        }
    }
    assert forall|g: int| 0 <= g < after.len() implies (#[trigger] after[g]).rows@ == positions_in(
        labels,
        rows,
        n + 1,
        bucket_key(after[g]),
    ) && after[g].tokens == tokens_at(labels, rows, n + 1, bucket_key(after[g]))
        && after[g].rows@.len() > 0 by {
        if g != g0 {
            let x = if g < g0 {
                g
            } else {
                g - 1
            };
            assert(after[g] == before[x]);
            assert(before[x].rows@ == positions_in(labels, rows, n, bucket_key(before[x])));
        }
    }
    assert forall|i: int| 0 <= i < n + 1 && (#[trigger] labels[i]) is Some implies has_bucket(
        after,
        event_key(labels, rows, i)->0,
    ) by {
        let e = event_key(labels, rows, i)->0;
        if i < n {
            assert(has_bucket(before, e));
            let g = choose|g: int| 0 <= g < before.len() && bucket_key(#[trigger] before[g]) == e;
            if g < g0 {
                assert(after[g] == before[g]);
            } else {
                assert(after[g + 1] == before[g]);
            }
        } else {
            assert(bucket_key(after[g0]) == e);
        }
    }
}

/// Whether a bucket and key come before those of a row.
fn before_row(ts: &str, key: &str, r: &BucketRow) -> (b: bool)
    ensures
        b == bucket_lt((ts@, key@), bucket_key(*r)),
{
    text_before(ts, r.ts.as_str()) || (str_eq(ts, r.ts.as_str()) && text_before(key, r.key.as_str()))
}

/// The events of each bucket and key, in the order of the buckets and then of the keys. No
/// token of an event with a bucket is lost.
pub fn aggregate(labels: &Vec<Option<String>>, rows: &Vec<SeriesRow>) -> (r: Vec<BucketRow>)
    requires
        labels@.len() == rows@.len(),
    ensures
        aggregated(labels@, rows@, rows@.len() as int, r@),
        bucket_tokens(r@) == labelled_tokens(labels@, rows@, rows@.len() as int),
{
    let mut out: Vec<BucketRow> = Vec::new();
    for n in 0..rows.len()
        invariant
            labels@.len() == rows@.len(),
            aggregated(labels@, rows@, n as int, out@),
            bucket_tokens(out@) == labelled_tokens(labels@, rows@, n as int),
    {
        let ghost before = out@;
        match &labels[n] {
            Some(label) => {
                let ts = label.as_str();
                let key = rows[n].key.as_str();
                let ghost k = (ts@, key@);
                let tok: i128 = rows[n].tokens as i128;
                let mut at: usize = out.len();
                while at > 0 && before_row(ts, key, &out[at - 1])
                    invariant
                        at <= out@.len(),
                        out@ == before,
                        k == (ts@, key@),
                        forall|g: int|
                            at <= g < out@.len() ==> bucket_lt(k, bucket_key(#[trigger] out@[g])),
                    ensures
                        at <= out@.len(),
                        out@ == before,
                        forall|g: int|
                            at <= g < out@.len() ==> bucket_lt(k, bucket_key(#[trigger] out@[g])),
                        at > 0 ==> !bucket_lt(k, bucket_key(out@[at - 1])),
                    decreases at,
                {
                    at = at - 1;
                }
                if at > 0 && str_eq(out[at - 1].ts.as_str(), ts) && str_eq(
                    out[at - 1].key.as_str(),
                    key,
                ) {
                    let j: usize = at - 1;
                    proof {
                        lemma_tokens_at_bound(labels@, rows@, n as int, k);
                        assert(before[j as int].tokens == tokens_at(labels@, rows@, n as int, k));
                    }
                    let sum: i128 = out[j].tokens + tok;
                    out[j].tokens = sum;
                    out[j].rows.push(n);
                    proof {
                        assert(out@ =~= before.update(j as int, out@[j as int]));
                        lemma_bucket_tokens_update(before, j as int, out@[j as int]);
                        lemma_bucket_added(labels@, rows@, n as int, before, out@, j as int);
                    }
                } else {
                    let mut positions: Vec<usize> = Vec::new();
                    positions.push(n);
                    let row = BucketRow {
                        ts: label.clone(),
                        key: rows[n].key.clone(),
                        tokens: tok,
                        rows: positions,
                    };
                    proof {
                        if at > 0 {
                            lemma_bucket_order(k, bucket_key(before[at - 1]), k);
                        }
                        lemma_bucket_tokens_insert(before, at as int, row);
                    }
                    out.insert(at, row);
                    proof {
                        assert(out@ =~= before.insert(at as int, out@[at as int]));
                        lemma_bucket_new(labels@, rows@, n as int, before, out@, at as int);
                    }
                }
            },
            None => {},
        }
    }
    out
}

/// The text of the bucket of an event whose time is the text `ts`.
pub open spec fn label_of(ts: Seq<char>, tz: Seq<char>, daily: bool) -> Option<Seq<char>> {
    match rfc3339_instant(ts) {
        Some(t) => Some(rfc3339_text(bucket_of(t, tz, daily))),
        None => None,
    }
}

/// Whether `labels` are the buckets of events.
pub open spec fn labels_of(
    rows: Seq<SeriesRow>,
    tz: Seq<char>,
    daily: bool,
    labels: Seq<Option<String>>,
) -> bool {
    &&& labels.len() == rows.len()
    &&& forall|i: int|
        0 <= i < labels.len() ==> opt_text(#[trigger] labels[i]) == label_of(rows[i].ts@, tz, daily)
}

/// The time series of events: those of each bucket of an hour or a day of the time zone, per
/// key. An event whose time cannot be read is in no bucket.
pub fn build_timeseries(rows: &Vec<SeriesRow>, tz: &str, daily: bool) -> (r: Vec<BucketRow>)
    ensures
        exists|labels: Seq<Option<String>>| #[trigger]
            labels_of(rows@, tz@, daily, labels) && aggregated(
                labels,
                rows@,
                rows@.len() as int,
                r@,
            ) && bucket_tokens(r@) == labelled_tokens(labels, rows@, rows@.len() as int),
{
    let mut labels: Vec<Option<String>> = Vec::new();
    for i in 0..rows.len()
        invariant
            labels@.len() == i,
            forall|k: int|
                0 <= k < i ==> opt_text(#[trigger] labels@[k]) == label_of(rows@[k].ts@, tz@, daily),
    {
        match parse_dt(rows[i].ts.as_str()) {
            Some(t) => {
                let b = bucket_start(t, tz, daily);
                labels.push(Some(instant_text(b)));
            },
            None => {
                labels.push(None);
            },
        }
    }
    assert(labels_of(rows@, tz@, daily, labels@));
    aggregate(&labels, rows)
}

// ---------------------------------------------------------------------------
// Caching, breakdown and limits
// ---------------------------------------------------------------------------

/// Seconds for which a cumulative view is kept.
pub const VIEW_TTL: u64 = 60;

/// Whether a view that was kept can be used: no event and no reading has come since, and it is
/// young enough, given its age in whole seconds.
pub fn view_is_fresh(kept: (i64, i64), counts: (i64, i64), age_secs: u64) -> (r: bool)
    ensures
        r == (kept == counts && age_secs < VIEW_TTL),
{
    kept.0 == counts.0 && kept.1 == counts.1 && age_secs < VIEW_TTL
}

/// What a breakdown is made per.
#[derive(Debug, Clone, Copy, PartialEq, Eq, Structural)]
pub enum Column {
    Model,
    Project,
}

impl Column {
    /// The name of the column.
    pub open spec fn name(self) -> Seq<char> {
        match self {
            Column::Model => "model"@,
            Column::Project => "project"@,
        }
    }
}

/// The query for what each service has used per value of a column from a time on, the most
/// tokens first.
pub fn group_sum(col: Column) -> (r: String)
    ensures
        r@ == "SELECT service, COALESCE("@ + col.name()
            + ",'(unknown)') AS k, COALESCE(SUM(input_tokens+output_tokens+cache_read_tokens+cache_write_tokens+reasoning_tokens),0) AS tokens, COALESCE(SUM(cost_usd),0) AS cost, COUNT(*) AS events FROM events WHERE ts>=?1 GROUP BY service, k ORDER BY tokens DESC"@,
{
    let name = match col {
        Column::Model => "model",
        Column::Project => "project",
    };
    let mut s = concat("SELECT service, COALESCE(", name);
    s.append(
        ",'(unknown)') AS k, COALESCE(SUM(input_tokens+output_tokens+cache_read_tokens+cache_write_tokens+reasoning_tokens),0) AS tokens, COALESCE(SUM(cost_usd),0) AS cost, COUNT(*) AS events FROM events WHERE ts>=?1 GROUP BY service, k ORDER BY tokens DESC",
    );
    s
}

/// The days that a breakdown covers: at least one.
pub fn breakdown_days(days: i64) -> (r: i64)
    ensures
        r == if days < 1 {
            1
        } else {
            days as int
        },
{
    if days < 1 {
        1
    } else {
        days
    }
}

/// Where a limit that is set comes from, unless the request says so.
pub fn default_source() -> (r: String)
    ensures
        r@ == "configured"@,
{
    "configured".to_owned()
}

// ---------------------------------------------------------------------------
// What the answers hold
// ---------------------------------------------------------------------------

/// What follows the last dot of a path.
proof fn lemma_after_last_dot(before: Seq<char>, ext: Seq<char>)
    requires
        !ext.contains('.'),
    ensures
        after_last_dot(before + seq!['.'] + ext) == ext,
    decreases ext.len(),
{
    let p = before + seq!['.'] + ext;
    if ext.len() > 0 {
        let e = ext.drop_last();
        if e.contains('.') {
            let k = choose|k: int| 0 <= k < e.len() && e[k] == '.';
            assert(ext[k] == '.');
        }
        lemma_after_last_dot(before, e);
        assert(ext.contains(ext[ext.len() - 1]));
        assert(p.drop_last() =~= before + seq!['.'] + e);
        assert(e.push(ext.last()) =~= ext);
    } else {
        assert(p.last() == '.');
        assert(ext =~= Seq::empty());
    }
}

/// The content type of a file depends on nothing but what follows its last dot.
pub proof fn law_content_type(a: Seq<char>, b: Seq<char>, ext: Seq<char>)
    requires
        !ext.contains('.'),
    ensures
        content_type_of(a + seq!['.'] + ext) == content_type_of(b + seq!['.'] + ext),
        ext == "html"@ ==> content_type_of(a + seq!['.'] + ext) == "text/html; charset=utf-8"@,
        ext == "js"@ ==> content_type_of(a + seq!['.'] + ext) == "text/javascript; charset=utf-8"@,
        ext == "css"@ ==> content_type_of(a + seq!['.'] + ext) == "text/css; charset=utf-8"@,
        ext == "json"@ ==> content_type_of(a + seq!['.'] + ext) == "application/json"@,
        ext == "svg"@ ==> content_type_of(a + seq!['.'] + ext) == "image/svg+xml"@,
        ext == "png"@ ==> content_type_of(a + seq!['.'] + ext) == "image/png"@,
        ext == "ico"@ ==> content_type_of(a + seq!['.'] + ext) == "image/x-icon"@,
        ext == "woff2"@ ==> content_type_of(a + seq!['.'] + ext) == "font/woff2"@,
{
    lemma_after_last_dot(a, ext);
    lemma_after_last_dot(b, ext);
    reveal_strlit("html");
    reveal_strlit("js");
    reveal_strlit("css");
    reveal_strlit("json");
    reveal_strlit("svg");
    reveal_strlit("png");
    reveal_strlit("ico");
    reveal_strlit("woff2");
    assert("html"@[0] == 'h' && "json"@[0] == 'j' && "js"@.len() == 2 && "woff2"@.len() == 5);
    assert("css"@[0] == 'c' && "svg"@[0] == 's' && "png"@[0] == 'p' && "ico"@[0] == 'i');
    assert("html"@.len() == 4 && "json"@.len() == 4 && "css"@.len() == 3 && "svg"@.len() == 3
        && "png"@.len() == 3 && "ico"@.len() == 3);
}

/// Slashes in front of a request do not matter: it asks for the file behind them, and for the
/// index where nothing is behind them.
pub proof fn law_asset(path: Seq<char>)
    ensures
        path.len() > 0 && path[0] != '/' ==> asset_of(path) == path,
        asset_of(Seq::empty()) == "index.html"@,
        asset_of(seq!['/'] + path) == asset_of(path),
{
    let p = seq!['/'] + path;
    assert(p.drop_first() =~= path);
}

/// The first summary of a service, from a position on.
proof fn lemma_summary(counts: Seq<CountsSummary>, service: Seq<char>, i: int)
    requires
        0 <= i <= counts.len(),
    ensures
        summary_at(counts, service, i) matches Some(p) ==> i <= p < counts.len()
            && counts[p].service@ == service && forall|k: int|
            i <= k < p ==> (#[trigger] counts[k]).service@ != service,
        summary_at(counts, service, i) is None ==> forall|k: int|
            i <= k < counts.len() ==> (#[trigger] counts[k]).service@ != service,
    decreases counts.len() - i,
{
    if i < counts.len() && counts[i].service@ != service {
        lemma_summary(counts, service, i + 1);
    }
}

/// A service is told with what was counted for it, by the first summary that is its own, and
/// with nothing where none is; whether it is enabled, how it is billed and in which unit are
/// those given.
pub proof fn law_service_entry(
    e: ServiceEntry,
    service: Seq<char>,
    enabled: bool,
    mode: MeteredMode,
    unit: Unit,
    counts: Seq<CountsSummary>,
    i: int,
)
    requires
        entry_of(e, service, enabled, mode, unit, counts),
    ensures
        e.service@ == service && e.enabled == enabled && e.metered_mode == mode && e.unit == unit,
        0 <= i < counts.len() && counts[i].service@ == service && (forall|k: int|
            0 <= k < i ==> (#[trigger] counts[k]).service@ != service) ==> e.events == counts[i].events
            && e.tokens == counts[i].tokens && e.cost_usd == counts[i].cost_usd,
        (forall|k: int| 0 <= k < counts.len() ==> (#[trigger] counts[k]).service@ != service) ==> e.events
            == 0 && e.tokens == 0 && e.cost_usd.bits == 0,
{
    lemma_summary(counts, service, 0);
}

/// A bucket starts where the clocks of the zone show the full hour of the instant, or the start
/// of its day, and is the instant itself where they do not show that once.
pub proof fn law_bucket(ts: Timestamp, tz: Seq<char>, label: Seq<char>)
    ensures
        ({
            let l = zone_clock(zone_of(tz), ts.secs as int);
            let hour = zone_hour(
                zone_of(tz),
                l.year as int,
                l.month as int,
                l.day as int,
                l.hour as int,
            );
            let day = zone_hour(zone_of(tz), l.year as int, l.month as int, l.day as int, 0);
            &&& hour matches Some(s) ==> bucket_of(ts, tz, false) == (Timestamp { secs: s, nanos: 0 })
            &&& hour is None ==> bucket_of(ts, tz, false) == ts
            &&& day matches Some(s) ==> bucket_of(ts, tz, true) == (Timestamp { secs: s, nanos: 0 })
            &&& day is None ==> bucket_of(ts, tz, true) == ts
        }),
        rfc3339_instant(label) == Some(ts) ==> label_of(label, tz, true) == Some(
            rfc3339_text(bucket_of(ts, tz, true)),
        ) && label_of(label, tz, false) == Some(rfc3339_text(bucket_of(ts, tz, false))),
        rfc3339_instant(label) is None ==> label_of(label, tz, true) is None && label_of(
            label,
            tz,
            false,
        ) is None,
{
}

/// Positions of a bucket and key rise, are of it, and leave out none.
proof fn lemma_positions_in(
    labels: Seq<Option<String>>,
    rows: Seq<SeriesRow>,
    n: int,
    k: (Seq<char>, Seq<char>),
)
    requires
        0 <= n <= rows.len() <= usize::MAX,
    ensures
        ({
            let p = positions_in(labels, rows, n, k);
            &&& forall|a: int|
                0 <= a < p.len() ==> 0 <= (#[trigger] p[a]) < n && event_key(labels, rows, p[a] as int)
                    == Some(k)
            &&& forall|a: int, b: int| 0 <= a < b < p.len() ==> (#[trigger] p[a]) < (#[trigger] p[b])
            &&& forall|i: int|
                0 <= i < n && #[trigger] event_key(labels, rows, i) == Some(k) ==> p.contains(i as usize)
        }),
    decreases n,
{
    if n > 0 {
        lemma_positions_in(labels, rows, n - 1, k);
        let q = positions_in(labels, rows, n - 1, k);
        let p = positions_in(labels, rows, n, k);
        assert forall|i: int| 0 <= i < n && #[trigger] event_key(labels, rows, i) == Some(k) implies p.contains(
            i as usize,
        ) by {
            if i < n - 1 {
                let a = choose|a: int| 0 <= a < q.len() && q[a] == i as usize;
                assert(p[a] == i as usize);
            } else {
                assert(p[p.len() - 1] == i as usize);
            }
        }
    }
}

/// Every event with a bucket is in the row of its bucket and its key, and in no other; events
/// without one are in none. Rows stand in the order of the buckets and then of the keys.
pub proof fn law_rows_of_buckets(
    labels: Seq<Option<String>>,
    rows: Seq<SeriesRow>,
    out: Seq<BucketRow>,
    g: int,
    i: int,
)
    requires
        aggregated(labels, rows, rows.len() as int, out),
        labels.len() == rows.len() <= usize::MAX,
        0 <= g < out.len(),
        0 <= i < rows.len(),
    ensures
        out[g].rows@.contains(i as usize) <==> (labels[i] matches Some(l) && l@ == out[g].ts@)
            && rows[i].key@ == out[g].key@,
        labels[i] matches Some(l) ==> exists|k: int|
            0 <= k < out.len() && (#[trigger] out[k]).ts@ == l@ && out[k].key@ == rows[i].key@,
        out[g].tokens == tokens_at(labels, rows, rows.len() as int, (out[g].ts@, out[g].key@)),
        out[g].rows@.len() > 0,
        forall|a: int, b: int|
            0 <= a < b < out[g].rows@.len() ==> (#[trigger] out[g].rows@[a]) < (
            #[trigger] out[g].rows@[b]),
        g > 0 ==> text_lt(out[g - 1].ts@, out[g].ts@) || out[g - 1].ts@ == out[g].ts@ && text_lt(
            out[g - 1].key@,
            out[g].key@,
        ),
{
    let key = bucket_key(out[g]);
    lemma_positions_in(labels, rows, rows.len() as int, key);
    assert(out[g].rows@ == positions_in(labels, rows, rows.len() as int, key));
    assert(event_key(labels, rows, i) == Some(key) <==> (labels[i] matches Some(l) && l@ == out[g].ts@)
        && rows[i].key@ == out[g].key@);
    if out[g].rows@.contains(i as usize) {
        let a = choose|a: int| 0 <= a < out[g].rows@.len() && out[g].rows@[a] == i as usize;
        assert(event_key(labels, rows, out[g].rows@[a] as int) == Some(key));
    }
    if let Some(l) = labels[i] {
        assert(has_bucket(out, event_key(labels, rows, i)->0));
        let k = choose|k: int|
            0 <= k < out.len() && bucket_key(#[trigger] out[k]) == event_key(labels, rows, i)->0;
        assert(out[k].ts@ == l@);
    }
    if g > 0 {
        assert(bucket_lt(bucket_key(out[g - 1]), bucket_key(out[g])));
    }
}

/// An event adds its tokens to the row of its bucket and key, and to no other.
pub proof fn law_event_adds_to_its_bucket(
    labels: Seq<Option<String>>,
    rows: Seq<SeriesRow>,
    n: int,
    label: Seq<char>,
    key: Seq<char>,
)
    requires
        0 <= n < rows.len(),
    ensures
        ({
            let added = tokens_at(labels, rows, n + 1, (label, key)) - tokens_at(
                labels,
                rows,
                n,
                (label, key),
            );
            let here = (labels[n] matches Some(l) && l@ == label) && rows[n].key@ == key;
            &&& here ==> added == rows[n].tokens
            &&& !here ==> added == 0
        }),
        tokens_at(labels, rows, 0, (label, key)) == 0,
{
}

/// A series is made per model where that is asked for, else per service, and of one service
/// only where one is named.
pub proof fn law_query_parts()
    ensures
        key_column(true) == "COALESCE(model,'(unknown)')"@,
        key_column(false) == "service"@,
        service_filter(true) == " AND service=?3"@,
        service_filter(false).len() == 0,
        Column::Model.name() == "model"@,
        Column::Project.name() == "project"@,
{
}

/// An event is in the bucket of the instant that its text names, and in none where it names
/// none.
pub proof fn law_labels_of_events(
    rows: Seq<SeriesRow>,
    tz: Seq<char>,
    daily: bool,
    labels: Seq<Option<String>>,
    i: int,
)
    requires
        labels_of(rows, tz, daily, labels),
        0 <= i < rows.len(),
    ensures
        labels.len() == rows.len(),
        rfc3339_instant(rows[i].ts@) is None ==> labels[i] is None,
        rfc3339_instant(rows[i].ts@) matches Some(t) ==> (labels[i] matches Some(l) && l@ == rfc3339_text(
            bucket_of(t, tz, daily),
        )),
{
    assert(opt_text(labels[i]) == label_of(rows[i].ts@, tz, daily));
}

/// No token of an event with a bucket is lost: one more event adds its tokens to the total
/// exactly where it has a bucket, and one more row adds its own.
pub proof fn law_tokens_of_all_buckets(
    labels: Seq<Option<String>>,
    rows: Seq<SeriesRow>,
    n: int,
    out: Seq<BucketRow>,
    r: BucketRow,
)
    requires
        0 <= n < rows.len(),
    ensures
        labels[n] is Some ==> labelled_tokens(labels, rows, n + 1) == labelled_tokens(labels, rows, n)
            + rows[n].tokens,
        labels[n] is None ==> labelled_tokens(labels, rows, n + 1) == labelled_tokens(labels, rows, n),
        labelled_tokens(labels, rows, 0) == 0,
        bucket_tokens(out.push(r)) == bucket_tokens(out) + r.tokens,
        bucket_tokens(Seq::<BucketRow>::empty()) == 0,
{
    assert(out.push(r).drop_last() =~= out);
}

} // verus!
