//! Cumulative tokens over a window, per model.

use crate::text::{lemma_text_order, str_eq, text_before, text_lt, texts};
use crate::time::{euclid_rem, parse_dt, rfc3339_instant, Timestamp, HOUR};
use vstd::prelude::*;

verus! {

/// The tokens of one event, with its model and the text of its time.
#[derive(Debug, Clone)]
pub struct TokenText {
    pub ts: String,
    pub model: String,
    pub amount: i64,
}

/// The tokens of one event, with its model and the second it happened in.
#[derive(Debug, Clone)]
pub struct TokenRow {
    pub secs: i64,
    pub model: String,
    pub amount: i64,
}

/// The tokens so far at one time, per model.
#[derive(Debug, Clone)]
pub struct TokenCumPoint {
    pub ts: Timestamp,
    pub cum: Vec<i128>,
}

/// Whether `x` is one of the times at which the curve is drawn: a full hour after the start
/// and before the end, a marker within the window, or the end.
pub open spec fn is_sample(x: i64, start: Timestamp, upto: Timestamp, markers: Seq<Timestamp>) -> bool {
    ||| x as int % HOUR as int == 0 && start.secs < x < upto.secs
    ||| start.secs < x <= upto.secs && exists|i: int|
        0 <= i < markers.len() && (#[trigger] markers[i]).secs == x
    ||| x == upto.secs
}

/// Whether numbers stand in strictly ascending order.
pub open spec fn rising(s: Seq<i64>) -> bool {
    forall|i: int, j: int| 0 <= i < j < s.len() ==> s[i] < s[j]
}

/// Whether texts stand in strictly ascending order.
pub open spec fn rising_texts(s: Seq<Seq<char>>) -> bool {
    forall|i: int, j: int| 0 <= i < j < s.len() ==> text_lt(#[trigger] s[i], #[trigger] s[j])
}

/// The number of events, from the first on, that happened at or before `st` without a later
/// one in between, counted from position `i`.
pub open spec fn reach(rows: Seq<TokenRow>, st: i64, i: int) -> int
    decreases rows.len() - i,
{
    if 0 <= i < rows.len() && rows[i].secs <= st {
        reach(rows, st, i + 1)
    } else {
        i
    }
}

/// The tokens of a model among the first `k` events.
pub open spec fn used(rows: Seq<TokenRow>, k: int, model: Seq<char>) -> int
    decreases k,
{
    if k <= 0 {
        0
    } else {
        used(rows, k - 1, model) + if rows[k - 1].model@ == model {
            rows[k - 1].amount as int
        } else {
            0
        }
    }
}

/// Whether one of the first `k` events is of the model.
pub open spec fn has_model(rows: Seq<TokenRow>, k: int, model: Seq<char>) -> bool {
    exists|i: int| 0 <= i < k && (#[trigger] rows[i]).model@ == model
}

/// Whether `models` are the models of the events, each once and in order.
pub open spec fn models_of(rows: Seq<TokenRow>, models: Seq<Seq<char>>) -> bool {
    &&& rising_texts(models)
    &&& forall|i: int| 0 <= i < rows.len() ==> models.contains((#[trigger] rows[i]).model@)
    &&& forall|m: int|
        0 <= m < models.len() ==> has_model(rows, rows.len() as int, #[trigger] models[m])
}

/// Whether a point tells the tokens of the first `k` events, per model.
pub open spec fn point_tells(
    p: TokenCumPoint,
    rows: Seq<TokenRow>,
    k: int,
    models: Seq<Seq<char>>,
) -> bool {
    &&& p.cum@.len() == models.len()
    &&& forall|m: int| 0 <= m < models.len() ==> #[trigger] p.cum@[m] == used(rows, k, models[m])
}

/// Whether `points` are the curve of the events: nothing at the start, and then at each
/// time of `samples` the tokens of the events up to it.
pub open spec fn drawn(
    points: Seq<TokenCumPoint>,
    rows: Seq<TokenRow>,
    models: Seq<Seq<char>>,
    start: Timestamp,
    samples: Seq<i64>,
) -> bool {
    &&& points.len() == samples.len() + 1
    &&& points[0].ts == start
    &&& point_tells(points[0], rows, 0, models)
    &&& forall|j: int|
        0 <= j < samples.len() ==> (#[trigger] points[j + 1]).ts == (Timestamp {
            secs: samples[j],
            nanos: 0,
        }) && point_tells(points[j + 1], rows, reach(rows, samples[j], 0), models)
}

/// Whether `samples` are the times at which the curve is drawn, in order.
pub open spec fn samples_of(
    samples: Seq<i64>,
    start: Timestamp,
    upto: Timestamp,
    markers: Seq<Timestamp>,
) -> bool {
    &&& rising(samples)
    &&& forall|x: i64| #[trigger] samples.contains(x) <==> is_sample(x, start, upto, markers)
}

/// Whether models and points are those of the cumulative curve.
pub open spec fn curve_of(
    models: Seq<Seq<char>>,
    points: Seq<TokenCumPoint>,
    rows: Seq<TokenRow>,
    start: Timestamp,
    upto: Timestamp,
    markers: Seq<Timestamp>,
) -> bool {
    &&& models_of(rows, models)
    &&& exists|samples: Seq<i64>| #[trigger]
        samples_of(samples, start, upto, markers) && drawn(points, rows, models, start, samples)
}

/// Puts a number in its place, unless it is there.
fn insert_rising(v: &mut Vec<i64>, x: i64)
    requires
        rising(old(v)@),
    ensures
        rising(final(v)@),
        forall|y: i64| #[trigger] final(v)@.contains(y) <==> old(v)@.contains(y) || y == x,
{
    let ghost before = v@;
    let mut k: usize = v.len();
    while k > 0 && v[k - 1] > x
        invariant
            k <= v@.len(),
            v@ == before,
            rising(before),
            forall|i: int| k <= i < v@.len() ==> v@[i] > x,
        ensures
            k <= v@.len(),
            v@ == before,
            forall|i: int| k <= i < v@.len() ==> v@[i] > x,
            k > 0 ==> v@[k - 1] <= x,
        decreases k,
    {
        k = k - 1;
    }
    if k > 0 && v[k - 1] == x {
        assert(before.contains(x)) by {
            assert(before[k - 1] == x);
        }
        return;
    }
    v.insert(k, x);
    assert forall|y: i64| #[trigger] v@.contains(y) <==> before.contains(y) || y == x by {
        if before.contains(y) {
            let i = choose|i: int| 0 <= i < before.len() && before[i] == y;
            if i < k {
                assert(v@[i] == y);
            } else {
                assert(v@[i + 1] == y);
            }
        }
        if y == x {
            assert(v@[k as int] == y);
        }
        if v@.contains(y) {
            let i = choose|i: int| 0 <= i < v@.len() && v@[i] == y;
            if i < k {
                assert(before[i] == y);
            } else if i > k {
                assert(before[i - 1] == y);
            }
        }
    }
}

/// Puts a text in its place, unless it is there.
fn insert_text(v: &mut Vec<String>, s: &str)
    requires
        rising_texts(texts(old(v)@)),
    ensures
        rising_texts(texts(final(v)@)),
        forall|y: Seq<char>| #[trigger]
            texts(final(v)@).contains(y) <==> texts(old(v)@).contains(y) || y == s@,
{
    let ghost before = texts(v@);
    let ghost x = s@;
    let mut k: usize = v.len();
    while k > 0 && text_before(s, v[k - 1].as_str())
        invariant
            k <= v@.len(),
            texts(v@) == before,
            before.len() == v@.len(),
            x == s@,
            v@ == old(v)@,
            forall|i: int| k <= i < before.len() ==> text_lt(x, #[trigger] before[i]),
        ensures
            k <= v@.len(),
            texts(v@) == before,
            v@ == old(v)@,
            forall|i: int| k <= i < before.len() ==> text_lt(x, #[trigger] before[i]),
            k > 0 ==> !text_lt(x, before[k - 1]),
        decreases k,
    {
        assert(before[k - 1] == v@[k - 1]@);
        k = k - 1;
    }
    assert(before.len() == v@.len());
    if k > 0 {
        assert(before[k - 1] == v@[k - 1]@);
        if str_eq(v[k - 1].as_str(), s) {
            assert(before.contains(x)) by {
                assert(before[k - 1] == x);
            }
            return;
        }
        proof {
            lemma_text_order(x, before[k - 1], x);
        }
    }
    v.insert(k, s.to_owned());
    let ghost after = texts(v@);
    assert(after =~= before.insert(k as int, x));
    proof {
        lemma_insert_text(before, k as int, x);
    }
}

/// A text put in its place keeps the order.
proof fn lemma_insert_text(before: Seq<Seq<char>>, k: int, x: Seq<char>)
    requires
        rising_texts(before),
        0 <= k <= before.len(),
        forall|i: int| k <= i < before.len() ==> text_lt(x, #[trigger] before[i]),
        k > 0 ==> text_lt(before[k - 1], x),
    ensures
        rising_texts(before.insert(k, x)),
        forall|y: Seq<char>| #[trigger]
            before.insert(k, x).contains(y) <==> before.contains(y) || y == x,
{
    let after = before.insert(k, x);
    assert forall|i: int, j: int| 0 <= i < j < after.len() implies text_lt(
        #[trigger] after[i],
        #[trigger] after[j],
    ) by {
        let a = if i < k {
            i
        } else {
            i - 1
        };
        let b = if j < k {
            j
        } else {
            j - 1
        };
        if i == k {
            assert(after[j] == before[b]);
        } else if j == k {
            assert(after[i] == before[a]);
            if a < k - 1 {
                assert(text_lt(before[a], before[k - 1]));
                lemma_text_order(before[a], before[k - 1], x);
            }
        } else {
            assert(after[i] == before[a] && after[j] == before[b]);
        }
    }
    assert forall|y: Seq<char>| #[trigger] after.contains(y) <==> before.contains(y) || y == x by {
        if before.contains(y) {
            let i = choose|i: int| 0 <= i < before.len() && before[i] == y;
            if i < k {
                assert(after[i] == y);
            } else {
                assert(after[i + 1] == y);
            }
        }
        if y == x {
            assert(after[k] == y);
        }
        if after.contains(y) {
            let i = choose|i: int| 0 <= i < after.len() && after[i] == y;
            if i < k {
                assert(before[i] == y);
            } else if i > k {
                assert(before[i - 1] == y);
            }
        }
    }
}

/// The times at which the curve is drawn, in order.
pub fn sample_times(start: Timestamp, upto: Timestamp, markers: &Vec<Timestamp>) -> (r: Vec<i64>)
    requires
        start.wf(),
        upto.wf(),
    ensures
        samples_of(r@, start, upto, markers@),
{
    let mut v: Vec<i64> = Vec::new();
    let mut h: i64 = start.secs - euclid_rem(start.secs, HOUR) + HOUR;
    while h < upto.secs
        invariant
            start.wf(),
            upto.wf(),
            h as int % HOUR as int == 0,
            start.secs < h,
            h <= start.secs + HOUR || h <= upto.secs + HOUR,
            rising(v@),
            forall|i: int| 0 <= i < v@.len() ==> v@[i] < h,
            forall|x: i64| #[trigger]
                v@.contains(x) <==> x as int % HOUR as int == 0 && start.secs < x < upto.secs && x < h,
        decreases upto.secs - h + HOUR,
    {
        let ghost before = v@;
        v.push(h);
        proof {
            assert forall|x: i64| #[trigger] v@.contains(x) <==> x as int % HOUR as int == 0
                && start.secs < x < upto.secs && x < h + HOUR by {
                if v@.contains(x) {
                    let i = choose|i: int| 0 <= i < v@.len() && v@[i] == x;
                    if i < before.len() {
                        assert(before[i] == x);
                        assert(before.contains(x));
                    }
                }
                if x as int % HOUR as int == 0 && start.secs < x < upto.secs && x < h + HOUR {
                    if x < h {
                        assert(before.contains(x));
                        let i = choose|i: int| 0 <= i < before.len() && before[i] == x;
                        assert(v@[i] == x);
                    } else {
                        assert(x == h);
                        assert(v@[before.len() as int] == x);
                    }
                }
            }
        }
        h = h + HOUR;
    }
    for k in 0..markers.len()
        invariant
            rising(v@),
            forall|x: i64| #[trigger]
                v@.contains(x) <==> (x as int % HOUR as int == 0 && start.secs < x < upto.secs) || (
                start.secs < x <= upto.secs && exists|i: int|
                    0 <= i < k && (#[trigger] markers@[i]).secs == x),
    {
        let m: i64 = markers[k].secs;
        let ghost before = v@;
        if m > start.secs && m <= upto.secs {
            insert_rising(&mut v, m);
        }
        assert forall|x: i64| #[trigger] v@.contains(x) <==> (x as int % HOUR as int == 0
            && start.secs < x < upto.secs) || (start.secs < x <= upto.secs && exists|i: int|
            0 <= i < k + 1 && (#[trigger] markers@[i]).secs == x) by {
            if before.contains(x) && start.secs < x <= upto.secs && exists|i: int|
                0 <= i < k && (#[trigger] markers@[i]).secs == x {
                let i = choose|i: int| 0 <= i < k && (#[trigger] markers@[i]).secs == x;
                assert(markers@[i].secs == x);
            }
            if x == m {
                assert(markers@[k as int].secs == x);
            }
        }
    }
    insert_rising(&mut v, upto.secs);
    v
}

/// The models of the events, in order.
fn distinct_models(rows: &Vec<TokenRow>) -> (r: Vec<String>)
    ensures
        models_of(rows@, texts(r@)),
{
    let mut v: Vec<String> = Vec::new();
    assert(texts(v@) =~= Seq::empty());
    for k in 0..rows.len()
        invariant
            rising_texts(texts(v@)),
            forall|i: int| 0 <= i < k ==> texts(v@).contains((#[trigger] rows@[i]).model@),
            forall|y: Seq<char>| #[trigger] texts(v@).contains(y) ==> has_model(rows@, k as int, y),
    {
        let ghost before = texts(v@);
        insert_text(&mut v, rows[k].model.as_str());
        assert forall|y: Seq<char>| #[trigger] texts(v@).contains(y) implies has_model(
            rows@,
            k + 1,
            y,
        ) by {
            if before.contains(y) {
                assert(has_model(rows@, k as int, y));
                let i = choose|i: int| 0 <= i < k && (#[trigger] rows@[i]).model@ == y;
                assert(rows@[i].model@ == y);
            } else {
                assert(rows@[k as int].model@ == y);
            }
        }
    }
    assert forall|m: int| 0 <= m < texts(v@).len() implies has_model(
        rows@,
        rows@.len() as int,
        #[trigger] texts(v@)[m],
    ) by {
        assert(texts(v@).contains(texts(v@)[m]));
    }
    v
}

/// The position of a model.
fn model_index(models: &Vec<String>, model: &str) -> (r: Option<usize>)
    ensures
        match r {
            Some(m) => m < models@.len() && texts(models@)[m as int] == model@,
            None => !texts(models@).contains(model@),
        },
{
    for m in 0..models.len()
        invariant
            forall|i: int| 0 <= i < m ==> (#[trigger] models@[i])@ != model@,
    {
        if str_eq(models[m].as_str(), model) {
            return Some(m);
        }
    }
    assert(!texts(models@).contains(model@)) by {
        if texts(models@).contains(model@) {
            let i = choose|i: int| 0 <= i < texts(models@).len() && texts(models@)[i] == model@;
            assert(models@[i]@ == model@);
        }
    }
    None
}

/// The tokens of a model are no more than as many events can have.
proof fn lemma_used_bound(rows: Seq<TokenRow>, k: int, model: Seq<char>)
    requires
        0 <= k,
    ensures
        -(k * 0x8000_0000_0000_0000) <= used(rows, k, model) <= k * 0x8000_0000_0000_0000,
    decreases k,
{
    if k > 0 {
        lemma_used_bound(rows, k - 1, model);
    }
}

/// Counting on from a position reached by an earlier time leads where counting from the
/// start leads.
proof fn lemma_reach(rows: Seq<TokenRow>, st: i64, i: int)
    requires
        0 <= i <= rows.len(),
        forall|j: int| 0 <= j < i ==> (#[trigger] rows[j]).secs <= st,
    ensures
        reach(rows, st, 0) == reach(rows, st, i),
    decreases i,
{
    if i > 0 {
        lemma_reach(rows, st, i - 1);
        assert(rows[i - 1].secs <= st);
    }
}

/// The models and the curve of events: nothing at the start, and then the tokens of the
/// events up to each full hour, each marker and the end.
pub fn cumulative_curve(
    rows: &Vec<TokenRow>,
    start: Timestamp,
    upto: Timestamp,
    markers: &Vec<Timestamp>,
) -> (r: (Vec<String>, Vec<TokenCumPoint>))
    requires
        start.wf(),
        upto.wf(),
    ensures
        curve_of(texts(r.0@), r.1@, rows@, start, upto, markers@),
{
    let models = distinct_models(rows);
    let ghost names = texts(models@);
    let samples = sample_times(start, upto, markers);
    let mut running: Vec<i128> = Vec::new();
    for m in 0..models.len()
        invariant
            running@.len() == m,
            forall|i: int| 0 <= i < m ==> running@[i] == 0,
    {
        running.push(0);
    }
    let mut points: Vec<TokenCumPoint> = Vec::new();
    let first = TokenCumPoint { ts: start, cum: copy_counts(&running) };
    assert(point_tells(first, rows@, 0, names));
    points.push(first);
    let mut ei: usize = 0;
    let ghost mut prev: int = 0;
    for j in 0..samples.len()
        invariant
            names == texts(models@),
            models_of(rows@, names),
            rising(samples@),
            ei <= rows@.len(),
            j == 0 ==> ei == 0,
            j > 0 ==> prev == samples@[j - 1],
            forall|i: int| 0 <= i < ei ==> (#[trigger] rows@[i]).secs <= prev,
            running@.len() == names.len(),
            forall|m: int| 0 <= m < names.len() ==> #[trigger] running@[m] == used(rows@, ei as int, names[m]),
            points@.len() == j + 1,
            points@[0].ts == start,
            point_tells(points@[0], rows@, 0, names),
            forall|i: int|
                0 <= i < j ==> (#[trigger] points@[i + 1]).ts == (Timestamp {
                    secs: samples@[i],
                    nanos: 0,
                }) && point_tells(points@[i + 1], rows@, reach(rows@, samples@[i], 0), names),
    {
        let st: i64 = samples[j];
        proof {
            assert(j > 0 ==> samples@[j - 1] < samples@[j as int]);
            lemma_reach(rows@, st, ei as int);
        }
        while ei < rows.len() && rows[ei].secs <= st
            invariant
                names == texts(models@),
                models_of(rows@, names),
                ei <= rows@.len(),
                forall|i: int| 0 <= i < ei ==> (#[trigger] rows@[i]).secs <= st,
                reach(rows@, st, 0) == reach(rows@, st, ei as int),
                running@.len() == names.len(),
                forall|m: int|
                    0 <= m < names.len() ==> #[trigger] running@[m] == used(rows@, ei as int, names[m]),
            ensures
                ei <= rows@.len(),
                forall|i: int| 0 <= i < ei ==> (#[trigger] rows@[i]).secs <= st,
                reach(rows@, st, 0) == ei,
                running@.len() == names.len(),
                forall|m: int|
                    0 <= m < names.len() ==> #[trigger] running@[m] == used(rows@, ei as int, names[m]),
            decreases rows.len() - ei,
        {
            let ghost before = running@;
            match model_index(&models, rows[ei].model.as_str()) {
                Some(m) => {
                    proof {
                        lemma_used_bound(rows@, ei as int, names[m as int]);
                    }
                    let v: i128 = running[m] + rows[ei].amount as i128;
                    running.set(m, v);
                    assert forall|i: int| 0 <= i < names.len() implies #[trigger] running@[i] == used(
                        rows@,
                        ei + 1,
                        names[i],
                    ) by {
                        if i < m {
                            assert(text_lt(names[i], names[m as int]));
                            lemma_text_order(names[i], names[i], names[i]);
                        } else if i > m {
                            assert(text_lt(names[m as int], names[i]));
                            lemma_text_order(names[i], names[i], names[i]);
                        }
                        assert(before[i] == used(rows@, ei as int, names[i]));
                    }
                },
                None => {
                    assert(names.contains(rows@[ei as int].model@));
                },
            }
            ei = ei + 1;
        }
        let p = TokenCumPoint { ts: Timestamp { secs: st, nanos: 0 }, cum: copy_counts(&running) };
        assert(point_tells(p, rows@, ei as int, names));
        let ghost seen = points@;
        points.push(p);
        proof {
            prev = st as int;
        }
        assert(points@[j + 1] == p);
        assert(forall|i: int| 0 <= i < seen.len() ==> points@[i] == seen[i]);
    }
    assert(drawn(points@, rows@, names, start, samples@));
    (models, points)
}

/// A copy of counts.
fn copy_counts(v: &Vec<i128>) -> (r: Vec<i128>)
    ensures
        r@ == v@,
{
    let mut out: Vec<i128> = Vec::new();
    for i in 0..v.len()
        invariant
            out@ == v@.take(i as int),
    {
        out.push(v[i]);
        assert(v@.take(i + 1) =~= v@.take(i as int).push(v@[i as int]));
    }
    assert(v@.take(v@.len() as int) =~= v@);
    out
}

/// Events as plain values: the second, the model and the tokens.
pub open spec fn row_views(rows: Seq<TokenRow>) -> Seq<(i64, Seq<char>, i64)> {
    rows.map_values(|r: TokenRow| (r.secs, r.model@, r.amount))
}

/// The events whose times could be read, in their order.
pub open spec fn read_views(rows: Seq<TokenText>) -> Seq<(i64, Seq<char>, i64)>
    decreases rows.len(),
{
    if rows.len() == 0 {
        Seq::empty()
    } else {
        let rest = read_views(rows.drop_last());
        match rfc3339_instant(rows.last().ts@) {
            Some(t) => rest.push((t.secs, rows.last().model@, rows.last().amount)),
            None => rest,
        }
    }
}

/// The models and the curve of events, of those whose times can be read.
pub fn token_cumulative_by_model(
    rows: &Vec<TokenText>,
    start: Timestamp,
    upto: Timestamp,
    markers: &Vec<Timestamp>,
) -> (r: (Vec<String>, Vec<TokenCumPoint>))
    requires
        start.wf(),
        upto.wf(),
    ensures
        exists|t: Seq<TokenRow>| #[trigger]
            row_views(t) == read_views(rows@) && curve_of(
                texts(r.0@),
                r.1@,
                t,
                start,
                upto,
                markers@,
            ),
{
    let mut t: Vec<TokenRow> = Vec::new();
    assert(rows@.take(0) =~= Seq::empty());
    assert(row_views(t@) =~= Seq::empty());
    for i in 0..rows.len()
        invariant
            row_views(t@) == read_views(rows@.take(i as int)),
    {
        assert(rows@.take(i + 1).drop_last() =~= rows@.take(i as int));
        let ghost before = t@;
        match parse_dt(rows[i].ts.as_str()) {
            Some(x) => {
                let row = TokenRow { secs: x.secs, model: rows[i].model.clone(), amount: rows[i].amount };
                t.push(row);
                assert(row_views(t@) =~= row_views(before).push((row.secs, row.model@, row.amount)));
            },
            None => {},
        }
    }
    assert(rows@.take(rows@.len() as int) =~= rows@);
    cumulative_curve(&t, start, upto, markers)
}

/// Where every event is at or before a time, all of them are counted at it.
proof fn lemma_reach_all(rows: Seq<TokenRow>, st: i64, i: int)
    requires
        0 <= i <= rows.len(),
        forall|j: int| 0 <= j < rows.len() ==> (#[trigger] rows[j]).secs <= st,
    ensures
        reach(rows, st, i) == rows.len(),
    decreases rows.len() - i,
{
    if i < rows.len() {
        assert(rows[i].secs <= st);
        lemma_reach_all(rows, st, i + 1);
    }
}

/// The count at a time is one of positions, and no smaller at a later time.
proof fn lemma_reach_grows(rows: Seq<TokenRow>, s: i64, t: i64, i: int)
    requires
        0 <= i <= rows.len(),
        s <= t,
    ensures
        i <= reach(rows, s, i) <= reach(rows, t, i) <= rows.len(),
    decreases rows.len() - i,
{
    if i < rows.len() && rows[i].secs <= s {
        lemma_reach_grows(rows, s, t, i + 1);
    } else if i < rows.len() && rows[i].secs <= t {
        lemma_reach_grows(rows, t, t, i + 1);
    }
}

/// Tokens that are not negative only add.
proof fn lemma_used_grows(rows: Seq<TokenRow>, j: int, k: int, model: Seq<char>)
    requires
        0 <= j <= k <= rows.len(),
        forall|i: int| 0 <= i < rows.len() ==> (#[trigger] rows[i]).amount >= 0,
    ensures
        used(rows, j, model) <= used(rows, k, model),
    decreases k,
{
    if j < k {
        assert(rows[k - 1].amount >= 0);
        lemma_used_grows(rows, j, k - 1, model);
    }
}

/// The curve ends with everything: where no event is later than its end, the last point has
/// the tokens of all events of each model.
pub proof fn law_curve_ends_with_totals(
    models: Seq<Seq<char>>,
    points: Seq<TokenCumPoint>,
    rows: Seq<TokenRow>,
    start: Timestamp,
    upto: Timestamp,
    markers: Seq<Timestamp>,
    m: int,
)
    requires
        curve_of(models, points, rows, start, upto, markers),
        forall|i: int| 0 <= i < rows.len() ==> (#[trigger] rows[i]).secs <= upto.secs,
        0 <= m < models.len(),
        start.secs <= upto.secs,
    ensures
        points.last().ts.secs == upto.secs,
        points.last().cum@[m] == used(rows, rows.len() as int, models[m]),
{
    let samples = choose|samples: Seq<i64>| #[trigger]
        samples_of(samples, start, upto, markers) && drawn(points, rows, models, start, samples);
    assert(is_sample(upto.secs, start, upto, markers));
    assert(samples.contains(upto.secs));
    let n = samples.len() as int;
    let k = choose|k: int| 0 <= k < samples.len() && samples[k] == upto.secs;
    assert(samples.contains(samples[n - 1]));
    assert(is_sample(samples[n - 1], start, upto, markers));
    assert(k < n - 1 ==> samples[k] < samples[n - 1]);
    assert(samples[n - 1] == upto.secs);
    assert(points[(n - 1) + 1].ts.secs == upto.secs);
    lemma_reach_all(rows, upto.secs, 0);
}

/// The curve never falls where no event has negative tokens, and its times only advance.
pub proof fn law_curve_rises(
    models: Seq<Seq<char>>,
    points: Seq<TokenCumPoint>,
    rows: Seq<TokenRow>,
    start: Timestamp,
    upto: Timestamp,
    markers: Seq<Timestamp>,
    i: int,
    j: int,
    m: int,
)
    requires
        curve_of(models, points, rows, start, upto, markers),
        forall|k: int| 0 <= k < rows.len() ==> (#[trigger] rows[k]).amount >= 0,
        0 <= i < j < points.len(),
        0 <= m < models.len(),
        start.secs < upto.secs,
    ensures
        points[i].ts.secs < points[j].ts.secs,
        points[i].cum@[m] <= points[j].cum@[m],
{
    let samples = choose|samples: Seq<i64>| #[trigger]
        samples_of(samples, start, upto, markers) && drawn(points, rows, models, start, samples);
    let b = samples[j - 1];
    assert(points[(j - 1) + 1].ts.secs == b);
    let kb = reach(rows, b, 0);
    lemma_reach_grows(rows, b, b, 0);
    assert(samples.contains(b));
    assert(is_sample(b, start, upto, markers));
    if i == 0 {
        lemma_used_grows(rows, 0, kb, models[m]);
    } else {
        let a = samples[i - 1];
        assert(points[(i - 1) + 1].ts.secs == a);
        assert(a < b);
        lemma_reach_grows(rows, a, b, 0);
        lemma_used_grows(rows, reach(rows, a, 0), kb, models[m]);
    }
}

/// The curve passes through every marker within the window: it has a point in its second,
/// with the tokens of the events up to that second.
pub proof fn law_curve_through_markers(
    models: Seq<Seq<char>>,
    points: Seq<TokenCumPoint>,
    rows: Seq<TokenRow>,
    start: Timestamp,
    upto: Timestamp,
    markers: Seq<Timestamp>,
    k: int,
)
    requires
        curve_of(models, points, rows, start, upto, markers),
        0 <= k < markers.len(),
        start.secs < markers[k].secs <= upto.secs,
    ensures
        exists|j: int|
            0 <= j < points.len() && (#[trigger] points[j]).ts.secs == markers[k].secs && point_tells(
                points[j],
                rows,
                reach(rows, markers[k].secs, 0),
                models,
            ),
{
    let samples = choose|samples: Seq<i64>| #[trigger]
        samples_of(samples, start, upto, markers) && drawn(points, rows, models, start, samples);
    let x = markers[k].secs;
    assert(is_sample(x, start, upto, markers));
    assert(samples.contains(x));
    let j = choose|j: int| 0 <= j < samples.len() && samples[j] == x;
    assert(points[j + 1].ts.secs == x);
}

/// The tokens of a model in the events of the first `k` that happened at or before `st`.
pub open spec fn used_by(rows: Seq<TokenRow>, k: int, model: Seq<char>, st: int) -> int
    decreases k,
{
    if k <= 0 {
        0
    } else {
        used_by(rows, k - 1, model, st) + if rows[k - 1].model@ == model && rows[k - 1].secs <= st {
            rows[k - 1].amount as int
        } else {
            0
        }
    }
}

/// Where events come in the order of their times, those reached are those that happened.
proof fn lemma_reached(rows: Seq<TokenRow>, st: i64, k: int, model: Seq<char>, r: int)
    requires
        0 <= r <= rows.len(),
        0 <= k <= rows.len(),
        forall|i: int| 0 <= i < r ==> (#[trigger] rows[i]).secs <= st,
        forall|i: int| r <= i < rows.len() ==> (#[trigger] rows[i]).secs > st,
    ensures
        used_by(rows, k, model, st as int) == used(
            rows,
            if k < r {
                k
            } else {
                r
            },
            model,
        ),
    decreases k,
{
    if k > 0 {
        lemma_reached(rows, st, k - 1, model, r);
    }
}

/// What is reached from a position on are the events up to the first later one.
proof fn lemma_reach_is(rows: Seq<TokenRow>, st: i64, i: int)
    requires
        0 <= i <= rows.len(),
    ensures
        i <= reach(rows, st, i) <= rows.len(),
        forall|k: int| i <= k < reach(rows, st, i) ==> (#[trigger] rows[k]).secs <= st,
        reach(rows, st, i) < rows.len() ==> rows[reach(rows, st, i)].secs > st,
    decreases rows.len() - i,
{
    if i < rows.len() && rows[i].secs <= st {
        lemma_reach_is(rows, st, i + 1);
    }
}

/// Each point of the curve tells, per model, all the tokens of the events up to its second and
/// none of later ones, where the events come in the order of their times; the first point, at
/// the start, tells nothing.
pub proof fn law_curve_counts(
    models: Seq<Seq<char>>,
    points: Seq<TokenCumPoint>,
    rows: Seq<TokenRow>,
    start: Timestamp,
    upto: Timestamp,
    markers: Seq<Timestamp>,
    j: int,
    m: int,
)
    requires
        curve_of(models, points, rows, start, upto, markers),
        forall|a: int, b: int|
            0 <= a <= b < rows.len() ==> (#[trigger] rows[a]).secs <= (#[trigger] rows[b]).secs,
        0 <= j < points.len(),
        0 <= m < models.len(),
    ensures
        points[0].ts == start,
        points[0].cum@[m] == 0,
        j > 0 ==> points[j].cum@[m] == used_by(
            rows,
            rows.len() as int,
            models[m],
            points[j].ts.secs as int,
        ),
        points[j].cum@.len() == models.len(),
{
    let samples = choose|samples: Seq<i64>| #[trigger]
        samples_of(samples, start, upto, markers) && drawn(points, rows, models, start, samples);
    assert(points[0].cum@[m] == used(rows, 0, models[m]));
    if j > 0 {
        let st = samples[j - 1];
        assert(points[(j - 1) + 1].ts.secs == st);
        let r = reach(rows, st, 0);
        lemma_reach_is(rows, st, 0);
        assert(points[j].cum@[m] == used(rows, r, models[m]));
        assert forall|i: int| r <= i < rows.len() implies (#[trigger] rows[i]).secs > st by {
            assert(rows[r].secs <= rows[i].secs);
        }
        lemma_reached(rows, st, rows.len() as int, models[m], r);
    }
}

/// The curve has a point at every full hour between the start and the end, and at the end; any
/// other point, but the first, is at a marker of the window.
pub proof fn law_curve_samples(
    models: Seq<Seq<char>>,
    points: Seq<TokenCumPoint>,
    rows: Seq<TokenRow>,
    start: Timestamp,
    upto: Timestamp,
    markers: Seq<Timestamp>,
    x: i64,
    j: int,
)
    requires
        curve_of(models, points, rows, start, upto, markers),
    ensures
        start.secs < x < upto.secs && x as int % 3600 == 0 ==> exists|k: int|
            0 < k < points.len() && (#[trigger] points[k]).ts == (Timestamp { secs: x, nanos: 0 }),
        exists|k: int|
            0 < k < points.len() && (#[trigger] points[k]).ts == (Timestamp {
                secs: upto.secs,
                nanos: 0,
            }),
        0 < j < points.len() ==> {
            let t = points[j].ts.secs;
            &&& points[j].ts.nanos == 0
            &&& t == upto.secs || start.secs < t < upto.secs && t as int % 3600 == 0 || start.secs < t
                <= upto.secs && exists|k: int|
                0 <= k < markers.len() && (#[trigger] markers[k]).secs == t
        },
{
    let samples = choose|samples: Seq<i64>| #[trigger]
        samples_of(samples, start, upto, markers) && drawn(points, rows, models, start, samples);
    assert(is_sample(upto.secs, start, upto, markers));
    assert(samples.contains(upto.secs));
    let e = choose|k: int| 0 <= k < samples.len() && samples[k] == upto.secs;
    assert(points[e + 1].ts == (Timestamp { secs: upto.secs, nanos: 0 }));
    if start.secs < x < upto.secs && x as int % 3600 == 0 {
        assert(is_sample(x, start, upto, markers));
        assert(samples.contains(x));
        let k = choose|k: int| 0 <= k < samples.len() && samples[k] == x;
        assert(points[k + 1].ts == (Timestamp { secs: x, nanos: 0 }));
    }
    if 0 < j < points.len() {
        assert(points[(j - 1) + 1].ts.secs == samples[j - 1]);
        assert(samples.contains(samples[j - 1]));
        assert(is_sample(samples[j - 1], start, upto, markers));
    }
}

/// The models of a curve are those of its events, each once, in the order of their names.
pub proof fn law_curve_models(
    models: Seq<Seq<char>>,
    points: Seq<TokenCumPoint>,
    rows: Seq<TokenRow>,
    start: Timestamp,
    upto: Timestamp,
    markers: Seq<Timestamp>,
    model: Seq<char>,
)
    requires
        curve_of(models, points, rows, start, upto, markers),
    ensures
        models.contains(model) <==> exists|i: int|
            0 <= i < rows.len() && (#[trigger] rows[i]).model@ == model,
        forall|i: int, j: int|
            0 <= i < j < models.len() ==> text_lt(#[trigger] models[i], #[trigger] models[j]),
{
    if models.contains(model) {
        let m = choose|m: int| 0 <= m < models.len() && models[m] == model;
        assert(has_model(rows, rows.len() as int, models[m]));
    }
}

/// An event whose time can be read counts at its second, with its model and its tokens, in its
/// place; one whose time cannot be read does not count.
pub proof fn law_read_rows(a: Seq<TokenText>, b: Seq<TokenText>, r: TokenText)
    ensures
        read_views(a + b) == read_views(a) + read_views(b),
        rfc3339_instant(r.ts@) matches Some(t) ==> read_views(seq![r]) == seq![
            (t.secs, r.model@, r.amount),
        ],
        rfc3339_instant(r.ts@) is None ==> read_views(seq![r]).len() == 0,
    decreases b.len(),
{
    assert(seq![r].drop_last() =~= Seq::<TokenText>::empty());
    assert(read_views(Seq::<TokenText>::empty()) =~= Seq::empty());
    if let Some(t) = rfc3339_instant(r.ts@) {
        assert(read_views(seq![r]) =~= seq![(t.secs, r.model@, r.amount)]);
    } else {
        assert(read_views(seq![r]) =~= Seq::empty());
    }
    if b.len() == 0 {
        assert(a + b =~= a);
        assert(read_views(a) + read_views(b) =~= read_views(a));
    } else {
        law_read_rows(a, b.drop_last(), r);
        assert((a + b).drop_last() =~= a + b.drop_last());
        assert((a + b).last() == b.last());
        assert(read_views(a + b) =~= read_views(a) + read_views(b));
    }
}

/// Events are read one by one, each as its second, its model and its tokens.
pub proof fn law_row_contents(rows: Seq<TokenRow>, i: int)
    ensures
        row_views(rows).len() == rows.len(),
        0 <= i < rows.len() ==> row_views(rows)[i] == (rows[i].secs, rows[i].model@, rows[i].amount),
{
}

} // verus!
