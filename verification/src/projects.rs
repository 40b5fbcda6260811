//! Tokens per project over time, for the sparklines.

use crate::text::str_eq;
use crate::time::{parse_dt, rfc3339_instant, Timestamp, HOUR};
use vstd::prelude::*;

verus! {

/// The tokens of one event, with its project and the text of its time.
#[derive(Debug, Clone)]
pub struct ProjectRow {
    pub project: String,
    pub ts: String,
    pub tokens: i64,
}

/// The tokens of one event, with its project and its time, if that could be read.
#[derive(Debug, Clone)]
pub struct TimedRow {
    pub project: String,
    pub at: Option<Timestamp>,
    pub tokens: i64,
}

/// The tokens of a project: in all, and per stretch of time from the oldest to the newest.
#[derive(Debug, Clone)]
pub struct ProjectSeries {
    pub project: String,
    pub total: i64,
    pub points: Vec<i128>,
}

/// The seconds of a stretch: at least an hour.
pub open spec fn stretch_of(bucket_hours: i64) -> int {
    if bucket_hours < 1 {
        HOUR as int
    } else {
        bucket_hours * HOUR
    }
}

/// The number of stretches from `since` to `now`, the one that `now` is in counted.
pub open spec fn stretches(since: Timestamp, now: Timestamp, bucket_hours: i64) -> int {
    let len = stretch_of(bucket_hours);
    let span = now.spec_seconds_since(since);
    (if span < len {
        len
    } else {
        span
    }) / len + 1
}

/// Whether an instant lies between `since` and `now`, both counted.
pub open spec fn within(at: Timestamp, since: Timestamp, now: Timestamp) -> bool {
    since.spec_le(at) && at.spec_le(now)
}

/// The stretch that an instant falls in, whole seconds counted: none where it is before
/// `since` or after `now`. What is left of a second at the end belongs to the last stretch.
pub open spec fn stretch_at(at: Timestamp, since: Timestamp, now: Timestamp, len: int, n: int) -> Option<int> {
    let d = (at.secs - since.secs) / len;
    if !within(at, since, now) {
        None
    } else if d < n {
        Some(d)
    } else {
        Some(n - 1)
    }
}

/// The stretch that an event counts in.
pub open spec fn row_stretch(r: TimedRow, since: Timestamp, now: Timestamp, len: int, n: int) -> Option<int> {
    match r.at {
        Some(t) => stretch_at(t, since, now, len, n),
        None => None,
    }
}

/// The tokens of a project in stretch `b`, among the first `k` events.
pub open spec fn tokens_in(
    rows: Seq<TimedRow>,
    k: int,
    project: Seq<char>,
    b: int,
    since: Timestamp,
    now: Timestamp,
    len: int,
    n: int,
) -> int
    decreases k,
{
    if k <= 0 {
        0
    } else {
        tokens_in(rows, k - 1, project, b, since, now, len, n) + if rows[k - 1].project@ == project
            && row_stretch(rows[k - 1], since, now, len, n) == Some(b) {
            rows[k - 1].tokens as int
        } else {
            0
        }
    }
}

/// The sum of numbers.
pub open spec fn sum_of(s: Seq<i128>) -> int
    decreases s.len(),
{
    if s.len() == 0 {
        0
    } else {
        sum_of(s.drop_last()) + s.last()
    }
}

/// A number as one of 64 bits: the nearest one.
pub open spec fn clamped(x: int) -> i64 {
    if x > i64::MAX {
        i64::MAX
    } else if x < i64::MIN {
        i64::MIN
    } else {
        x as i64
    }
}

/// Whether a series tells the tokens of its project, which has an event that counts, among
/// the first `k` events.
pub open spec fn tells(
    p: ProjectSeries,
    rows: Seq<TimedRow>,
    k: int,
    since: Timestamp,
    now: Timestamp,
    len: int,
    n: int,
) -> bool {
    &&& p.points@.len() == n
    &&& forall|b: int|
        0 <= b < n ==> #[trigger] p.points@[b] == tokens_in(rows, k, p.project@, b, since, now, len, n)
    &&& exists|i: int| #[trigger] counts_for(rows, i, p.project@, since, now, len, n) && i < k
}

/// Whether event `i` is one of the project that counts.
pub open spec fn counts_for(
    rows: Seq<TimedRow>,
    i: int,
    project: Seq<char>,
    since: Timestamp,
    now: Timestamp,
    len: int,
    n: int,
) -> bool {
    0 <= i < rows.len() && rows[i].project@ == project && row_stretch(rows[i], since, now, len, n) is Some
}

/// Whether some series is that of `project`.
pub open spec fn listed(out: Seq<ProjectSeries>, project: Seq<char>) -> bool {
    exists|i: int| 0 <= i < out.len() && (#[trigger] out[i]).project@ == project
}

/// Whether `out` has the tokens of exactly the projects with events that count among the
/// first `k`, each once.
pub open spec fn covers(
    out: Seq<ProjectSeries>,
    rows: Seq<TimedRow>,
    k: int,
    since: Timestamp,
    now: Timestamp,
    len: int,
    n: int,
) -> bool {
    &&& forall|i: int| 0 <= i < out.len() ==> tells(#[trigger] out[i], rows, k, since, now, len, n)
    &&& forall|i: int, j: int|
        0 <= i < j < out.len() ==> (#[trigger] out[i]).project@ != (#[trigger] out[j]).project@
    &&& forall|i: int|
        0 <= i < k && row_stretch(rows[i], since, now, len, n) is Some ==> listed(
            out,
            (#[trigger] rows[i]).project@,
        )
}

/// Whether `out` has the tokens of the projects, those with the most tokens first.
pub open spec fn series_of(
    out: Seq<ProjectSeries>,
    rows: Seq<TimedRow>,
    since: Timestamp,
    now: Timestamp,
    bucket_hours: i64,
) -> bool {
    &&& covers(
        out,
        rows,
        rows.len() as int,
        since,
        now,
        stretch_of(bucket_hours),
        stretches(since, now, bucket_hours),
    )
    &&& forall|i: int|
        0 <= i < out.len() ==> (#[trigger] out[i]).total == clamped(sum_of(out[i].points@))
    &&& forall|i: int, j: int|
        0 <= i < j < out.len() ==> (#[trigger] out[i]).total >= (#[trigger] out[j]).total
}

/// Adding to one number adds to the sum.
proof fn lemma_sum_update(s: Seq<i128>, i: int, x: i128)
    requires
        0 <= i < s.len(),
    ensures
        sum_of(s.update(i, x)) == sum_of(s) - s[i] + x,
    decreases s.len(),
{
    let t = s.update(i, x);
    if i == s.len() - 1 {
        assert(t.drop_last() =~= s.drop_last());
    } else {
        lemma_sum_update(s.drop_last(), i, x);
        assert(t.drop_last() =~= s.drop_last().update(i, x));
    }
}

/// The sum of zeros is zero.
proof fn lemma_sum_zeros(s: Seq<i128>)
    requires
        forall|i: int| 0 <= i < s.len() ==> s[i] == 0,
    ensures
        sum_of(s) == 0,
    decreases s.len(),
{
    if s.len() > 0 {
        lemma_sum_zeros(s.drop_last());
    }
}

/// A project without an event that counts has no tokens in any stretch.
proof fn lemma_no_tokens(
    rows: Seq<TimedRow>,
    k: int,
    project: Seq<char>,
    b: int,
    since: Timestamp,
    now: Timestamp,
    len: int,
    n: int,
)
    requires
        0 <= k <= rows.len(),
        forall|i: int|
            0 <= i < k && row_stretch(rows[i], since, now, len, n) is Some ==> (#[trigger] rows[i]).project@
                != project,
    ensures
        tokens_in(rows, k, project, b, since, now, len, n) == 0,
    decreases k,
{
    if k > 0 {
        lemma_no_tokens(rows, k - 1, project, b, since, now, len, n);
        assert(rows[k - 1].project@ == project ==> row_stretch(rows[k - 1], since, now, len, n) is None);
    }
}

/// The stretch that an instant falls in.
fn stretch_index(at: Timestamp, since: Timestamp, now: Timestamp, len: i64, n: usize) -> (r: Option<usize>)
    requires
        at.wf(),
        since.wf(),
        len > 0,
        n > 0,
    ensures
        match r {
            Some(b) => stretch_at(at, since, now, len as int, n as int) == Some(b as int) && b < n,
            None => stretch_at(at, since, now, len as int, n as int) is None,
        },
{
    if !since.le(at) || !at.le(now) {
        return None;
    }
    let q: u64 = ((at.secs - since.secs) / len) as u64;
    if q < n as u64 {
        Some(q as usize)
    } else {
        Some(n - 1)
    }
}

/// The tokens of a project in a stretch are no more than as many events can have.
proof fn lemma_tokens_bound(
    rows: Seq<TimedRow>,
    k: int,
    project: Seq<char>,
    b: int,
    since: Timestamp,
    now: Timestamp,
    len: int,
    n: int,
)
    requires
        0 <= k,
    ensures
        -(k * 0x8000_0000_0000_0000) <= tokens_in(rows, k, project, b, since, now, len, n) <= k
            * 0x8000_0000_0000_0000,
    decreases k,
{
    if k > 0 {
        lemma_tokens_bound(rows, k - 1, project, b, since, now, len, n);
    }
}

/// The position of the series of `project`, if there is one.
fn find_project(out: &Vec<ProjectSeries>, project: &str) -> (r: Option<usize>)
    ensures
        match r {
            Some(j) => j < out@.len() && out@[j as int].project@ == project@,
            None => !listed(out@, project@),
        },
{
    for j in 0..out.len()
        invariant
            forall|i: int| 0 <= i < j ==> (#[trigger] out@[i]).project@ != project@,
    {
        if str_eq(out[j].project.as_str(), project) {
            return Some(j);
        }
    }
    None
}

/// One more event keeps the series right: they change only in the stretch that the event
/// counts in and for its project, which is listed then.
proof fn lemma_covers_step(
    before: Seq<ProjectSeries>,
    after: Seq<ProjectSeries>,
    rows: Seq<TimedRow>,
    k: int,
    j: int,
    since: Timestamp,
    now: Timestamp,
    len: int,
    n: int,
)
    requires
        0 <= k < rows.len(),
        covers(before, rows, k, since, now, len, n),
        row_stretch(rows[k], since, now, len, n) is Some,
        before.len() <= after.len() <= before.len() + 1,
        0 <= j < after.len(),
        after[j].project@ == rows[k].project@,
        after.len() > before.len() ==> j == before.len() && !listed(before, rows[k].project@),
        forall|i: int| 0 <= i < before.len() && i != j ==> #[trigger] after[i] == before[i],
        j < before.len() ==> before[j].project@ == rows[k].project@,
        after[j].points@.len() == n,
        forall|b: int|
            0 <= b < n ==> #[trigger] after[j].points@[b] == tokens_in(
                rows,
                k + 1,
                rows[k].project@,
                b,
                since,
                now,
                len,
                n,
            ),
    ensures
        covers(after, rows, k + 1, since, now, len, n),
{
    let p = rows[k].project@;
    assert(counts_for(rows, k, p, since, now, len, n));
    assert forall|i: int| 0 <= i < after.len() implies tells(
        #[trigger] after[i],
        rows,
        k + 1,
        since,
        now,
        len,
        n,
    ) by {
        if i != j {
            assert(after[i] == before[i]);
            assert(tells(before[i], rows, k, since, now, len, n));
            if before[i].project@ == p {
                assert(listed(before, p));
                assert(j < before.len());
            }
            assert(before[i].project@ != p);
            let w = choose|w: int|
                #[trigger] counts_for(rows, w, before[i].project@, since, now, len, n) && w < k;
            assert(counts_for(rows, w, before[i].project@, since, now, len, n) && w < k + 1);
        }
    }
    assert forall|i: int, m: int| 0 <= i < m < after.len() implies (#[trigger] after[i]).project@
        != (#[trigger] after[m]).project@ by {
        if i != j && m != j {
            assert(after[i] == before[i] && after[m] == before[m]);
        } else if j < before.len() {
            assert(i != j ==> after[i] == before[i]);
            assert(m != j ==> after[m] == before[m]);
            assert(before[i].project@ != before[m].project@);
        } else {
            assert(m == j && after[i] == before[i]);
            if before[i].project@ == p {
                assert(listed(before, p));
            }
        }
    }
    assert forall|i: int| 0 <= i < k + 1 && row_stretch(rows[i], since, now, len, n) is Some implies listed(
        after,
        (#[trigger] rows[i]).project@,
    ) by {
        if i < k {
            assert(listed(before, rows[i].project@));
            let w = choose|w: int|
                0 <= w < before.len() && (#[trigger] before[w]).project@ == rows[i].project@;
            assert(after[w].project@ == rows[i].project@);
        } else {
            assert(after[j].project@ == rows[i].project@);
        }
    }
}

/// An event that does not count changes nothing.
proof fn lemma_covers_skip(
    out: Seq<ProjectSeries>,
    rows: Seq<TimedRow>,
    k: int,
    since: Timestamp,
    now: Timestamp,
    len: int,
    n: int,
)
    requires
        0 <= k < rows.len(),
        covers(out, rows, k, since, now, len, n),
        row_stretch(rows[k], since, now, len, n) is None,
    ensures
        covers(out, rows, k + 1, since, now, len, n),
{
    assert forall|i: int| 0 <= i < out.len() implies tells(
        #[trigger] out[i],
        rows,
        k + 1,
        since,
        now,
        len,
        n,
    ) by {
        assert(tells(out[i], rows, k, since, now, len, n));
        let w = choose|w: int| #[trigger] counts_for(rows, w, out[i].project@, since, now, len, n) && w < k;
        assert(counts_for(rows, w, out[i].project@, since, now, len, n) && w < k + 1);
    }
}

/// The tokens of the projects with events that count, in the order in which they are met,
/// and their sums.
fn gather(rows: &Vec<TimedRow>, since: Timestamp, now: Timestamp, len: i64, n: usize) -> (r: (
    Vec<ProjectSeries>,
    Vec<i128>,
))
    requires
        since.wf(),
        len > 0,
        n > 0,
        forall|i: int| 0 <= i < rows@.len() ==> ((#[trigger] rows@[i]).at matches Some(t) ==> t.wf()),
    ensures
        covers(r.0@, rows@, rows@.len() as int, since, now, len as int, n as int),
        r.1@.len() == r.0@.len(),
        forall|i: int| 0 <= i < r.1@.len() ==> #[trigger] r.1@[i] == sum_of(r.0@[i].points@),
{
    let mut out: Vec<ProjectSeries> = Vec::new();
    let mut sums: Vec<i128> = Vec::new();
    for k in 0..rows.len()
        invariant
            since.wf(),
            len > 0,
            n > 0,
            forall|i: int|
                0 <= i < rows@.len() ==> ((#[trigger] rows@[i]).at matches Some(t) ==> t.wf()),
            covers(out@, rows@, k as int, since, now, len as int, n as int),
            sums@.len() == out@.len(),
            forall|i: int| 0 <= i < sums@.len() ==> #[trigger] sums@[i] == sum_of(out@[i].points@),
            forall|i: int|
                0 <= i < sums@.len() ==> -(k * 0x8000_0000_0000_0000) <= #[trigger] sums@[i] <= k
                    * 0x8000_0000_0000_0000,
    {
        let row = &rows[k];
        let b = match row.at {
            Some(t) => stretch_index(t, since, now, len, n),
            None => None,
        };
        let ghost before = out@;
        match b {
            Some(b) => {
                let tok: i128 = row.tokens as i128;
                match find_project(&out, row.project.as_str()) {
                    Some(j) => {
                        let ghost points = before[j as int].points@;
                        assert(tells(before[j as int], rows@, k as int, since, now, len as int, n as int));
                        proof {
                            lemma_tokens_bound(
                                rows@,
                                k as int,
                                row.project@,
                                b as int,
                                since,
                                now,
                                len as int,
                                n as int,
                            );
                        }
                        let v: i128 = out[j].points[b] + tok;
                        out[j].points.set(b, v);
                        let s: i128 = sums[j] + tok;
                        sums.set(j, s);
                        proof {
                            lemma_sum_update(points, b as int, v);
                            lemma_covers_step(
                                before,
                                out@,
                                rows@,
                                k as int,
                                j as int,
                                since,
                                now,
                                len as int,
                                n as int,
                            );
                        }
                    },
                    None => {
                        let mut points: Vec<i128> = Vec::new();
                        for i in 0..n
                            invariant
                                points@.len() == i,
                                forall|m: int| 0 <= m < i ==> points@[m] == 0,
                        {
                            points.push(0);
                        }
                        let ghost zeros = points@;
                        points.set(b, tok);
                        proof {
                            lemma_sum_zeros(zeros);
                            lemma_sum_update(zeros, b as int, tok);
                            assert forall|m: int| 0 <= m < n implies #[trigger] points@[m]
                                == tokens_in(
                                rows@,
                                k + 1,
                                row.project@,
                                m,
                                since,
                                now,
                                len as int,
                                n as int,
                            ) by {
                                assert forall|i: int|
                                    0 <= i < k && row_stretch(rows@[i], since, now, len as int, n as int) is Some
                                    implies (#[trigger] rows@[i]).project@ != row.project@ by {
                                    assert(listed(before, rows@[i].project@));
                                }
                                lemma_no_tokens(
                                    rows@,
                                    k as int,
                                    row.project@,
                                    m,
                                    since,
                                    now,
                                    len as int,
                                    n as int,
                                );
                            }
                        }
                        out.push(ProjectSeries { project: row.project.clone(), total: 0, points });
                        sums.push(tok);
                        proof {
                            lemma_covers_step(
                                before,
                                out@,
                                rows@,
                                k as int,
                                before.len() as int,
                                since,
                                now,
                                len as int,
                                n as int,
                            );
                        }
                    },
                }
            },
            None => {
                proof {
                    lemma_covers_skip(before, rows@, k as int, since, now, len as int, n as int);
                }
            },
        }
    }
    (out, sums)
}

/// A number as one of 64 bits.
fn clamp(x: i128) -> (r: i64)
    ensures
        r == clamped(x as int),
{
    if x > 0x7fff_ffff_ffff_ffff {
        i64::MAX
    } else if x < -0x8000_0000_0000_0000 {
        i64::MIN
    } else {
        x as i64
    }
}

/// Whether the first `m` series are among the sorted ones, and no other.
spec fn moved(res: Seq<ProjectSeries>, all: Seq<ProjectSeries>, m: int) -> bool {
    &&& forall|i: int| m <= i < all.len() ==> listed(res, (#[trigger] all[i]).project@)
    &&& forall|i: int, j: int|
        0 <= i < res.len() && 0 <= j < m ==> (#[trigger] res[i]).project@ != (
        #[trigger] all[j]).project@
}

/// Whether series tell their tokens and totals and stand in the order of these.
spec fn ordered(
    res: Seq<ProjectSeries>,
    rows: Seq<TimedRow>,
    since: Timestamp,
    now: Timestamp,
    len: int,
    n: int,
) -> bool {
    &&& forall|i: int|
        0 <= i < res.len() ==> tells(#[trigger] res[i], rows, rows.len() as int, since, now, len, n)
    &&& forall|i: int|
        0 <= i < res.len() ==> (#[trigger] res[i]).total == clamped(sum_of(res[i].points@))
    &&& forall|i: int, j: int|
        0 <= i < j < res.len() ==> (#[trigger] res[i]).project@ != (#[trigger] res[j]).project@
    &&& forall|i: int, j: int|
        0 <= i < j < res.len() ==> (#[trigger] res[i]).total >= (#[trigger] res[j]).total
}

/// Sorts series by their sums, the largest first.
fn sort_series(
    mut all: Vec<ProjectSeries>,
    sums: Vec<i128>,
    Ghost(rows): Ghost<Seq<TimedRow>>,
    Ghost(since): Ghost<Timestamp>,
    Ghost(now): Ghost<Timestamp>,
    Ghost(len): Ghost<int>,
    Ghost(n): Ghost<int>,
) -> (res: Vec<ProjectSeries>)
    requires
        covers(all@, rows, rows.len() as int, since, now, len, n),
        sums@.len() == all@.len(),
        forall|i: int| 0 <= i < sums@.len() ==> #[trigger] sums@[i] == sum_of(all@[i].points@),
    ensures
        covers(res@, rows, rows.len() as int, since, now, len, n),
        ordered(res@, rows, since, now, len, n),
{
    let ghost whole = all@;
    let mut res: Vec<ProjectSeries> = Vec::new();
    while all.len() > 0
        invariant
            covers(whole, rows, rows.len() as int, since, now, len, n),
            sums@.len() == whole.len(),
            forall|i: int| 0 <= i < sums@.len() ==> #[trigger] sums@[i] == sum_of(whole[i].points@),
            all@.len() <= whole.len(),
            all@ == whole.take(all@.len() as int),
            moved(res@, whole, all@.len() as int),
            ordered(res@, rows, since, now, len, n),
        decreases all@.len(),
    {
        let k: usize = all.len() - 1;
        let total = clamp(sums[k]);
        match all.pop() {
            Some(p) => {
                assert(p == whole[k as int]);
                assert(all@ =~= whole.take(k as int));
                let q = ProjectSeries { project: p.project, total, points: p.points };
                let mut at: usize = 0;
                while at < res.len() && res[at].total > total
                    invariant
                        at <= res@.len(),
                        forall|i: int| 0 <= i < at ==> (#[trigger] res@[i]).total > total,
                    ensures
                        at <= res@.len(),
                        forall|i: int| 0 <= i < at ==> (#[trigger] res@[i]).total > total,
                        at < res@.len() ==> res@[at as int].total <= total,
                    decreases res.len() - at,
                {
                    at = at + 1;
                }
                let ghost before = res@;
                res.insert(at, q);
                proof {
                    assert(tells(whole[k as int], rows, rows.len() as int, since, now, len, n));
                    let w = choose|w: int|
                        #[trigger] counts_for(rows, w, whole[k as int].project@, since, now, len, n) && w
                            < rows.len();
                    assert(counts_for(rows, w, q.project@, since, now, len, n) && w < rows.len());
                    assert(tells(q, rows, rows.len() as int, since, now, len, n));
                    lemma_insert(before, q, at as int, whole, k as int, rows, since, now, len, n);
                }
            },
            None => {},
        }
    }
    proof {
        assert forall|i: int|
            0 <= i < rows.len() && row_stretch(rows[i], since, now, len, n) is Some implies listed(
            res@,
            (#[trigger] rows[i]).project@,
        ) by {
            assert(listed(whole, rows[i].project@));
            let w = choose|w: int|
                0 <= w < whole.len() && (#[trigger] whole[w]).project@ == rows[i].project@;
            assert(listed(res@, whole[w].project@));
        }
    }
    res
}

/// Putting one more series in its place keeps the order.
proof fn lemma_insert(
    before: Seq<ProjectSeries>,
    q: ProjectSeries,
    at: int,
    whole: Seq<ProjectSeries>,
    k: int,
    rows: Seq<TimedRow>,
    since: Timestamp,
    now: Timestamp,
    len: int,
    n: int,
)
    requires
        0 <= at <= before.len(),
        0 <= k < whole.len(),
        covers(whole, rows, rows.len() as int, since, now, len, n),
        moved(before, whole, k + 1),
        ordered(before, rows, since, now, len, n),
        q.project@ == whole[k].project@,
        tells(q, rows, rows.len() as int, since, now, len, n),
        q.total == clamped(sum_of(q.points@)),
        forall|i: int| 0 <= i < at ==> (#[trigger] before[i]).total > q.total,
        at < before.len() ==> before[at].total <= q.total,
    ensures
        moved(before.insert(at, q), whole, k),
        ordered(before.insert(at, q), rows, since, now, len, n),
{
    let after = before.insert(at, q);
    assert forall|i: int| k <= i < whole.len() implies listed(after, (#[trigger] whole[i]).project@) by {
        if i == k {
            assert(after[at].project@ == whole[i].project@);
        } else {
            assert(listed(before, whole[i].project@));
            let w = choose|w: int|
                0 <= w < before.len() && (#[trigger] before[w]).project@ == whole[i].project@;
            if w < at {
                assert(after[w] == before[w]);
            } else {
                assert(after[w + 1] == before[w]);
            }
        }
    }
    assert forall|i: int, j: int| 0 <= i < after.len() && 0 <= j < k implies (
    #[trigger] after[i]).project@ != (#[trigger] whole[j]).project@ by {
        if i == at {
            assert(whole[j].project@ != whole[k].project@);
        } else if i < at {
            assert(after[i] == before[i]);
        } else {
            assert(after[i] == before[i - 1]);
        }
    }
    assert forall|i: int| 0 <= i < after.len() implies tells(
        #[trigger] after[i],
        rows,
        rows.len() as int,
        since,
        now,
        len,
        n,
    ) && after[i].total == clamped(sum_of(after[i].points@)) by {
        if i < at {
            assert(after[i] == before[i]);
        } else if i > at {
            assert(after[i] == before[i - 1]);
        }
    }
    assert forall|i: int, j: int| 0 <= i < j < after.len() implies (#[trigger] after[i]).project@
        != (#[trigger] after[j]).project@ && after[i].total >= after[j].total by {
        let x = if i < at {
            i
        } else {
            i - 1
        };
        let y = if j < at {
            j
        } else {
            j - 1
        };
        if i != at {
            assert(after[i] == before[x]);
            assert(before[x].project@ != whole[k].project@);
        }
        if j != at {
            assert(after[j] == before[y]);
            assert(before[y].project@ != whole[k].project@);
        }
        if i == at && y > at {
            assert(before[at].total >= before[y].total);
        }
    }
}

/// The tokens of the projects over the stretches from `since` to `now`, those with the most
/// tokens first.
pub fn bucket_projects(
    rows: &Vec<TimedRow>,
    since: Timestamp,
    now: Timestamp,
    bucket_hours: i64,
) -> (r: Vec<ProjectSeries>)
    requires
        since.wf(),
        now.wf(),
        stretch_of(bucket_hours) <= i64::MAX,
        stretches(since, now, bucket_hours) <= usize::MAX,
        forall|i: int| 0 <= i < rows@.len() ==> ((#[trigger] rows@[i]).at matches Some(t) ==> t.wf()),
    ensures
        series_of(r@, rows@, since, now, bucket_hours),
{
    let len: i64 = if bucket_hours < 1 {
        HOUR
    } else {
        bucket_hours * HOUR
    };
    let seconds: i64 = now.seconds_since(since);
    let span: i64 = if seconds < len {
        len
    } else {
        seconds
    };
    proof {
        vstd::arithmetic::div_mod::lemma_div_is_ordered(len as int, span as int, len as int);
        vstd::arithmetic::div_mod::lemma_div_by_self(len as int);
        vstd::arithmetic::div_mod::lemma_div_nonincreasing(span as int, len as int);
    }
    let n: usize = (span / len) as usize + 1;
    let (all, sums) = gather(rows, since, now, len, n);
    sort_series(
        all,
        sums,
        Ghost(rows@),
        Ghost(since),
        Ghost(now),
        Ghost(len as int),
        Ghost(n as int),
    )
}

/// The events with their times read.
pub open spec fn timed(rows: Seq<ProjectRow>, t: Seq<TimedRow>) -> bool {
    &&& t.len() == rows.len()
    &&& forall|i: int|
        0 <= i < t.len() ==> (#[trigger] t[i]).project@ == rows[i].project@ && t[i].tokens
            == rows[i].tokens && t[i].at == rfc3339_instant(rows[i].ts@)
}

/// The tokens of the projects over the stretches from `since` to `now`. An event whose time
/// cannot be read does not count.
pub fn project_series(
    rows: &Vec<ProjectRow>,
    since: Timestamp,
    now: Timestamp,
    bucket_hours: i64,
) -> (r: Vec<ProjectSeries>)
    requires
        since.wf(),
        now.wf(),
        stretch_of(bucket_hours) <= i64::MAX,
        stretches(since, now, bucket_hours) <= usize::MAX,
    ensures
        exists|t: Seq<TimedRow>|
            #[trigger] timed(rows@, t) && series_of(r@, t, since, now, bucket_hours),
{
    let mut t: Vec<TimedRow> = Vec::new();
    for i in 0..rows.len()
        invariant
            t@.len() == i,
            forall|k: int|
                0 <= k < i ==> (#[trigger] t@[k]).project@ == rows@[k].project@ && t@[k].tokens
                    == rows@[k].tokens && t@[k].at == rfc3339_instant(rows@[k].ts@),
            forall|k: int| 0 <= k < i ==> ((#[trigger] t@[k]).at matches Some(x) ==> x.wf()),
    {
        let at = parse_dt(rows[i].ts.as_str());
        t.push(TimedRow { project: rows[i].project.clone(), at, tokens: rows[i].tokens });
    }
    assert(timed(rows@, t@));
    bucket_projects(&t, since, now, bucket_hours)
}

/// Whether an event lies between `since` and `now`.
pub open spec fn row_within(r: TimedRow, since: Timestamp, now: Timestamp) -> bool {
    r.at matches Some(t) && within(t, since, now)
}

/// The tokens of a project between `since` and `now`, among the first `k` events.
pub open spec fn tokens_of(
    rows: Seq<TimedRow>,
    k: int,
    project: Seq<char>,
    since: Timestamp,
    now: Timestamp,
) -> int
    decreases k,
{
    if k <= 0 {
        0
    } else {
        tokens_of(rows, k - 1, project, since, now) + if rows[k - 1].project@ == project && row_within(
            rows[k - 1],
            since,
            now,
        ) {
            rows[k - 1].tokens as int
        } else {
            0
        }
    }
}

/// The tokens of a project in the first `m` stretches, among the first `k` events.
spec fn tokens_up_to(
    rows: Seq<TimedRow>,
    k: int,
    project: Seq<char>,
    m: int,
    since: Timestamp,
    now: Timestamp,
    len: int,
    n: int,
) -> int
    decreases m,
{
    if m <= 0 {
        0
    } else {
        tokens_up_to(rows, k, project, m - 1, since, now, len, n) + tokens_in(
            rows,
            k,
            project,
            m - 1,
            since,
            now,
            len,
            n,
        )
    }
}

/// One event adds its tokens once, in the stretch it counts in.
proof fn lemma_tokens_up_to(
    rows: Seq<TimedRow>,
    k: int,
    project: Seq<char>,
    m: int,
    since: Timestamp,
    now: Timestamp,
    len: int,
    n: int,
)
    requires
        0 < k <= rows.len(),
        0 <= m,
    ensures
        tokens_up_to(rows, k, project, m, since, now, len, n) == tokens_up_to(
            rows,
            k - 1,
            project,
            m,
            since,
            now,
            len,
            n,
        ) + if rows[k - 1].project@ == project && (row_stretch(rows[k - 1], since, now, len, n) matches Some(
            b,
        ) && 0 <= b < m) {
            rows[k - 1].tokens as int
        } else {
            0
        },
    decreases m,
{
    if m > 0 {
        lemma_tokens_up_to(rows, k, project, m - 1, since, now, len, n);
    }
}

/// The stretches together have the tokens of every event that counts.
proof fn lemma_all_tokens(
    rows: Seq<TimedRow>,
    k: int,
    project: Seq<char>,
    since: Timestamp,
    now: Timestamp,
    len: int,
    n: int,
)
    requires
        0 <= k <= rows.len(),
        len > 0,
        n > 0,
    ensures
        tokens_up_to(rows, k, project, n, since, now, len, n) == tokens_of(
            rows,
            k,
            project,
            since,
            now,
        ),
    decreases k,
{
    if k > 0 {
        lemma_all_tokens(rows, k - 1, project, since, now, len, n);
        lemma_tokens_up_to(rows, k, project, n, since, now, len, n);
        let r = rows[k - 1];
        if r.at is Some && within(r.at->0, since, now) {
            vstd::arithmetic::div_mod::lemma_div_pos_is_pos(r.at->0.secs - since.secs, len);
        }
    } else {
        lemma_nothing_up_to(rows, project, n, since, now, len, n);
    }
}

/// Without events there are no tokens.
proof fn lemma_nothing_up_to(
    rows: Seq<TimedRow>,
    project: Seq<char>,
    m: int,
    since: Timestamp,
    now: Timestamp,
    len: int,
    n: int,
)
    ensures
        tokens_up_to(rows, 0, project, m, since, now, len, n) == 0,
    decreases m,
{
    if m > 0 {
        lemma_nothing_up_to(rows, project, m - 1, since, now, len, n);
    }
}

/// The sum of the first points is that of the stretches they stand for.
proof fn lemma_points_sum(
    p: ProjectSeries,
    rows: Seq<TimedRow>,
    k: int,
    m: int,
    since: Timestamp,
    now: Timestamp,
    len: int,
    n: int,
)
    requires
        tells(p, rows, k, since, now, len, n),
        0 <= m <= n,
    ensures
        sum_of(p.points@.take(m)) == tokens_up_to(rows, k, p.project@, m, since, now, len, n),
    decreases m,
{
    if m > 0 {
        lemma_points_sum(p, rows, k, m - 1, since, now, len, n);
        assert(p.points@.take(m).drop_last() =~= p.points@.take(m - 1));
        assert(p.points@.take(m).last() == p.points@[m - 1]);
    }
}

/// No token is lost or counted twice: the points of a project add up to the tokens of its
/// events between `since` and `now`, it has such an event, and every project that has one is
/// listed.
pub proof fn law_points_add_up(
    out: Seq<ProjectSeries>,
    rows: Seq<TimedRow>,
    since: Timestamp,
    now: Timestamp,
    bucket_hours: i64,
    i: int,
    k: int,
)
    requires
        series_of(out, rows, since, now, bucket_hours),
        0 <= i < out.len(),
        0 <= k < rows.len(),
    ensures
        sum_of(out[i].points@) == tokens_of(rows, rows.len() as int, out[i].project@, since, now),
        out[i].points@.len() == stretches(since, now, bucket_hours),
        exists|j: int|
            0 <= j < rows.len() && (#[trigger] rows[j]).project@ == out[i].project@ && row_within(
                rows[j],
                since,
                now,
            ),
        row_within(rows[k], since, now) ==> listed(out, rows[k].project@),
{
    let len = stretch_of(bucket_hours);
    let n = stretches(since, now, bucket_hours);
    let p = out[i];
    assert(tells(p, rows, rows.len() as int, since, now, len, n));
    vstd::arithmetic::div_mod::lemma_div_pos_is_pos(
        if now.spec_seconds_since(since) < len {
            len
        } else {
            now.spec_seconds_since(since)
        },
        len,
    );
    lemma_points_sum(p, rows, rows.len() as int, n, since, now, len, n);
    lemma_all_tokens(rows, rows.len() as int, p.project@, since, now, len, n);
    assert(p.points@.take(n) =~= p.points@);
    let j = choose|j: int|
        #[trigger] counts_for(rows, j, p.project@, since, now, len, n) && j < rows.len();
    assert(rows[j].project@ == out[i].project@);
    assert(row_within(rows[k], since, now) ==> row_stretch(rows[k], since, now, len, n) is Some);
}

/// An event counts in the stretch that it falls in, and only there: from the start of that
/// stretch on, and before the next one starts, unless it is the last.
pub proof fn law_stretch_of_event(at: Timestamp, since: Timestamp, now: Timestamp, len: int, n: int)
    requires
        len > 0,
        n > 0,
    ensures
        !(since.spec_le(at) && at.spec_le(now)) ==> stretch_at(at, since, now, len, n) is None,
        since.spec_le(at) && at.spec_le(now) ==> (stretch_at(at, since, now, len, n) matches Some(b) && {
            &&& 0 <= b < n
            &&& since.secs + b * len <= at.secs
            &&& b < n - 1 ==> at.secs < since.secs + (b + 1) * len
        }),
{
    if since.spec_le(at) && at.spec_le(now) {
        let x = at.secs - since.secs;
        let d = x / len;
        vstd::arithmetic::div_mod::lemma_fundamental_div_mod(x, len);
        vstd::arithmetic::div_mod::lemma_mod_bound(x, len);
        assert(d >= 0) by {
            vstd::arithmetic::div_mod::lemma_div_pos_is_pos(x, len);
        }
        assert(d * len == len * d) by (nonlinear_arith);
        assert((d + 1) * len == len * d + len) by (nonlinear_arith);
        if d >= n {
            assert((n - 1) * len <= d * len) by (nonlinear_arith)
                requires
                    n - 1 <= d,
                    len > 0,
            ;
        }
    }
}

/// Each event adds its tokens to the stretch it falls in of its own project, and to nothing
/// else.
pub proof fn law_event_adds(
    rows: Seq<TimedRow>,
    k: int,
    project: Seq<char>,
    b: int,
    since: Timestamp,
    now: Timestamp,
    len: int,
    n: int,
)
    requires
        0 <= k < rows.len(),
    ensures
        ({
            let added = tokens_in(rows, k + 1, project, b, since, now, len, n) - tokens_in(
                rows,
                k,
                project,
                b,
                since,
                now,
                len,
                n,
            );
            let here = rows[k].project@ == project && rows[k].at is Some && stretch_at(
                rows[k].at->0,
                since,
                now,
                len,
                n,
            ) == Some(b);
            &&& here ==> added == rows[k].tokens
            &&& !here ==> added == 0
        }),
        tokens_in(rows, 0, project, b, since, now, len, n) == 0,
{
}

/// A stretch is as many hours as asked for, at least one, and there are as many as reach from
/// the start to now, the one that now is in counted, two at least.
pub proof fn law_stretches(since: Timestamp, now: Timestamp, bucket_hours: i64)
    requires
        now.nanos == since.nanos,
        !now.leap(),
        !since.leap(),
        since.secs <= now.secs,
    ensures
        bucket_hours >= 1 ==> stretch_of(bucket_hours) == bucket_hours * 3600,
        bucket_hours < 1 ==> stretch_of(bucket_hours) == 3600,
        ({
            let (len, n) = (stretch_of(bucket_hours), stretches(since, now, bucket_hours));
            &&& n >= 2
            &&& now.secs < since.secs + n * len
            &&& n > 2 ==> since.secs + (n - 1) * len <= now.secs
        }),
{
    crate::time::law_steps(now, 0, since);
    let len = stretch_of(bucket_hours);
    let span = now.secs - since.secs;
    let s = if span < len {
        len
    } else {
        span
    };
    let q = s / len;
    vstd::arithmetic::div_mod::lemma_fundamental_div_mod(s, len);
    vstd::arithmetic::div_mod::lemma_mod_bound(s, len);
    assert((q + 1) * len == len * q + len) by (nonlinear_arith);
    assert(q * len == len * q) by (nonlinear_arith);
    vstd::arithmetic::div_mod::lemma_div_is_ordered(len, s, len);
    vstd::arithmetic::div_mod::lemma_div_by_self(len);
    if span < len {
        assert(q == 1);
    }
}

/// The projects stand in the order of their totals, the largest first, each once; a total is
/// the sum of the points, as far as 64 bits hold it.
pub proof fn law_series_order(
    out: Seq<ProjectSeries>,
    rows: Seq<TimedRow>,
    since: Timestamp,
    now: Timestamp,
    bucket_hours: i64,
    i: int,
    j: int,
)
    requires
        series_of(out, rows, since, now, bucket_hours),
        0 <= i < j < out.len(),
    ensures
        out[i].total >= out[j].total,
        out[i].project@ != out[j].project@,
        i64::MIN <= sum_of(out[i].points@) <= i64::MAX ==> out[i].total == sum_of(out[i].points@),
        sum_of(out[i].points@) > i64::MAX ==> out[i].total == i64::MAX,
        sum_of(out[i].points@) < i64::MIN ==> out[i].total == i64::MIN,
        out[i].points@.len() == out[j].points@.len(),
{
    assert(tells(
        out[i],
        rows,
        rows.len() as int,
        since,
        now,
        stretch_of(bucket_hours),
        stretches(since, now, bucket_hours),
    ));
    assert(tells(
        out[j],
        rows,
        rows.len() as int,
        since,
        now,
        stretch_of(bucket_hours),
        stretches(since, now, bucket_hours),
    ));
}

/// A point tells the tokens of its project in its stretch, from all the events.
pub proof fn law_point(
    out: Seq<ProjectSeries>,
    rows: Seq<TimedRow>,
    since: Timestamp,
    now: Timestamp,
    bucket_hours: i64,
    i: int,
    b: int,
)
    requires
        series_of(out, rows, since, now, bucket_hours),
        0 <= i < out.len(),
        0 <= b < stretches(since, now, bucket_hours),
    ensures
        out[i].points@[b] == tokens_in(
            rows,
            rows.len() as int,
            out[i].project@,
            b,
            since,
            now,
            stretch_of(bucket_hours),
            stretches(since, now, bucket_hours),
        ),
{
    assert(tells(
        out[i],
        rows,
        rows.len() as int,
        since,
        now,
        stretch_of(bucket_hours),
        stretches(since, now, bucket_hours),
    ));
}

/// An event is of the instant that its text names, of its own project and with its own tokens;
/// one whose text names none counts nowhere.
pub proof fn law_timed_rows(
    rows: Seq<ProjectRow>,
    t: Seq<TimedRow>,
    i: int,
    since: Timestamp,
    now: Timestamp,
    len: int,
    n: int,
)
    requires
        timed(rows, t),
        0 <= i < rows.len(),
    ensures
        t.len() == rows.len(),
        t[i].project@ == rows[i].project@,
        t[i].tokens == rows[i].tokens,
        rfc3339_instant(rows[i].ts@) matches Some(x) ==> t[i].at == Some(x) && row_stretch(
            t[i],
            since,
            now,
            len,
            n,
        ) == stretch_at(x, since, now, len, n),
        rfc3339_instant(rows[i].ts@) is None ==> row_stretch(t[i], since, now, len, n) is None,
{
}

} // verus!
