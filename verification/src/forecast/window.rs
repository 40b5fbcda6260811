//! The bounds of a weekly window.

use crate::time::{Timestamp, DAY, HOUR, MAX_SECS, MIN_SECS};
use vstd::prelude::*;

verus! {

/// Days in a window.
pub const WINDOW_DAYS: i64 = 7;

/// Seconds in a window.
pub const WEEK: i64 = 604_800;

/// The start of 2024, a Monday, where the grid of windows is anchored.
pub const ANCHOR: i64 = 1_704_067_200;

/// Whether `end` is the first of a reset time and those a whole number of weeks later that
/// is after `now`.
pub open spec fn next_reset(now: Timestamp, reset: Timestamp, end: Timestamp) -> bool {
    exists|k: int| #[trigger] resets_after(now, reset, end, k)
}

/// Whether `end` is `k` weeks after a reset time and the first of those after `now`.
pub open spec fn resets_after(now: Timestamp, reset: Timestamp, end: Timestamp, k: int) -> bool {
    &&& k >= 0
    &&& reset.can_shift(k * WEEK)
    &&& end == reset.shifted(k * WEEK)
    &&& now.spec_lt(end)
    &&& k > 0 ==> reset.shifted((k - 1) * WEEK).spec_le(now)
}

/// The start of the window of the weekly grid that `now` falls in.
pub open spec fn grid_start(now: Timestamp) -> int {
    let since = now.spec_seconds_since(Timestamp { secs: ANCHOR, nanos: 0 });
    ANCHOR + (since / WEEK as int) * WEEK
}

/// Whether `w` is the window of `now`: it ends with the next reset where one is known, and
/// is one of the weekly grid otherwise; it starts a week before its end.
pub open spec fn is_window(
    now: Timestamp,
    reset: Option<Timestamp>,
    w: (Timestamp, Timestamp),
) -> bool {
    match reset {
        Some(r) => next_reset(now, r, w.1) && w.0 == w.1.shifted(-(WEEK as int)),
        None => w.0.secs == grid_start(now) && w.0.nanos == 0 && w.1.secs == grid_start(now) + WEEK
            && w.1.nanos == 0,
    }
}

/// Whether the calendar has a week before the instant.
pub open spec fn week_before(t: Timestamp) -> bool {
    t.wf() && MIN_SECS + WEEK <= t.secs
}

/// Whether the calendar has a week on either side of the instant.
pub open spec fn has_room(t: Timestamp) -> bool {
    week_before(t) && t.secs + WEEK < MAX_SECS
}

/// The window of `now`: it ends with the next reset where one is known, and is one of a
/// weekly grid otherwise, so that its end is after `now`.
pub fn resolve_window(now: Timestamp, reset: Option<Timestamp>) -> (w: (Timestamp, Timestamp))
    requires
        has_room(now),
        reset matches Some(r) ==> week_before(r),
    ensures
        is_window(now, reset, w),
        w.0.wf(),
        w.1.wf(),
{
    match reset {
        Some(r) => {
            let mut end = r;
            let ghost mut k: int = 0;
            assert(r.shifted(0) == r);
            while end.le(now)
                invariant
                    has_room(now),
                    week_before(r),
                    end.wf(),
                    k >= 0,
                    end.secs == r.secs + k * WEEK,
                    end == r.shifted(k * WEEK),
                    k > 0 ==> !end.leap(),
                    k > 0 ==> r.shifted((k - 1) * WEEK).spec_le(now),
                    end.secs >= MIN_SECS + WEEK,
                decreases now.secs - end.secs + WEEK,
            {
                let ghost before = end;
                end = end.shift(WEEK);
                proof {
                    assert((k + 1) * WEEK == k * WEEK + WEEK) by (nonlinear_arith);
                    k = k + 1;
                    assert((k - 1) * WEEK >= 0) by (nonlinear_arith)
                        requires
                            k >= 1,
                    ;
                    assert(before == r.shifted((k - 1) * WEEK));
                    assert(k * WEEK == (k - 1) * WEEK + WEEK) by (nonlinear_arith);
                    assert(end == before.shifted(WEEK as int));
                    if k == 1 {
                        assert(k * WEEK == WEEK) by (nonlinear_arith)
                            requires
                                k == 1,
                        ;
                        assert(before == r);
                    } else {
                        assert((k - 1) * WEEK > 0) by (nonlinear_arith)
                            requires
                                k > 1,
                        ;
                        assert(!before.leap());
                    }
                }
            }
            assert(resets_after(now, r, end, k));
            (end.shift(-WEEK), end)
        },
        None => {
            let anchor = Timestamp { secs: ANCHOR, nanos: 0 };
            let since: i64 = now.seconds_since(anchor);
            proof {
                lemma_since_anchor(now);
            }
            let idx: i64 = floor_div(since, WEEK);
            proof {
                vstd::arithmetic::div_mod::lemma_fundamental_div_mod(since as int, WEEK as int);
                vstd::arithmetic::div_mod::lemma_mod_bound(since as int, WEEK as int);
                assert(WEEK * idx == idx * WEEK) by (nonlinear_arith);
            }
            let secs: i64 = ANCHOR + idx * WEEK;
            (Timestamp { secs, nanos: 0 }, Timestamp { secs: secs + WEEK, nanos: 0 })
        },
    }
}

/// The seconds since the anchor of the grid are those on the clock, up to two.
proof fn lemma_since_anchor(now: Timestamp)
    requires
        now.wf(),
    ensures
        ({
            let d = now.spec_seconds_since(Timestamp { secs: ANCHOR, nanos: 0 });
            now.secs - ANCHOR <= d <= now.secs - ANCHOR + 2 && (now.secs >= ANCHOR ==> d <= now.secs
                - ANCHOR + 1)
        }),
{
    let a = Timestamp { secs: ANCHOR, nanos: 0 };
    let n = now.nanos_since(a);
    assert(a.secs as int % DAY as int == 0);
}

/// The quotient of `a` by a positive `m`, rounded down.
fn floor_div(a: i64, m: i64) -> (r: i64)
    requires
        0 < m,
        -0x4000_0000_0000_0000 < a < 0x4000_0000_0000_0000,
        m < 0x4000_0000_0000_0000,
    ensures
        r == a as int / m as int,
{
    if a >= 0 {
        return a / m;
    }
    let c: i64 = (-a + (m - 1)) / m;
    proof {
        let (n, d) = (-(a as int), m as int);
        let t = (n + d - 1) % d;
        vstd::arithmetic::div_mod::lemma_fundamental_div_mod(n + d - 1, d);
        vstd::arithmetic::div_mod::lemma_mod_bound(n + d - 1, d);
        assert(-n == (-c) * d + (d - 1 - t)) by (nonlinear_arith)
            requires
                n + d - 1 == d * c + t,
        ;
        vstd::arithmetic::div_mod::lemma_fundamental_div_mod_converse(
            a as int,
            d,
            -(c as int),
            d - 1 - t,
        );
    }
    -c
}

/// The bounds of the window that a service is tracked over, and whether it is rolling: with
/// a reset known the window is fixed, otherwise it is the week up to `now`.
pub open spec fn tracked_window(
    now: Timestamp,
    reset: Option<Timestamp>,
    r: (Timestamp, Timestamp, bool),
) -> bool {
    match reset {
        Some(_) => !r.2 && is_window(now, reset, (r.0, r.1)),
        None => r.2 && r.0 == now.shifted(-(WEEK as int)) && r.1 == now,
    }
}

/// The bounds of the window that a service is tracked over, and whether it is rolling.
pub fn service_window(now: Timestamp, reset: Option<Timestamp>) -> (r: (Timestamp, Timestamp, bool))
    requires
        has_room(now),
        reset matches Some(t) ==> week_before(t),
    ensures
        tracked_window(now, reset, r),
        r.0.wf(),
        r.1.wf(),
{
    match reset {
        Some(_) => {
            let (start, end) = resolve_window(now, reset);
            (start, end, false)
        },
        None => (now.shift(-WEEK), now, true),
    }
}

/// The end of the projection: a week ahead for a rolling window, else the end of the window,
/// but not before `now`.
pub open spec fn horizon_of(now: Timestamp, window_end: Timestamp, rolling: bool) -> Timestamp {
    if rolling {
        now.shifted(WEEK as int)
    } else if window_end.spec_lt(now) {
        now
    } else {
        window_end
    }
}

/// The end of the projection.
pub fn horizon_end(now: Timestamp, window_end: Timestamp, rolling: bool) -> (r: Timestamp)
    requires
        now.wf(),
        window_end.wf(),
        rolling ==> now.can_shift(WEEK as int),
    ensures
        r == horizon_of(now, window_end, rolling),
        r.wf(),
{
    if rolling {
        now.shift(WEEK)
    } else if window_end.lt(now) {
        now
    } else {
        window_end
    }
}

/// Whether too little is known for a projection to be relied on: for a rolling window if
/// nothing was used, for a fixed one if less than a day of it has passed.
pub fn low_confidence(now: Timestamp, start: Timestamp, rolling: bool, nothing_used: bool) -> (r: bool)
    requires
        now.wf(),
        start.wf(),
    ensures
        r == if rolling {
            nothing_used
        } else {
            now.spec_seconds_since(start) < 24 * HOUR
        },
{
    if rolling {
        nothing_used
    } else {
        now.seconds_since(start) < 24 * HOUR
    }
}

/// Days over which the pace of a rolling window is taken.
pub const PACE_DAYS: i64 = 2;

/// Since when use is counted to tell its pace at `now`, and over how many seconds: the last
/// days of a rolling window, else the window from its start on, which may not have lasted a
/// second yet.
pub fn pace_span(now: Timestamp, start: Timestamp, rolling: bool) -> (r: (Timestamp, i64))
    requires
        now.wf(),
        start.wf(),
        rolling ==> now.can_shift(-(PACE_DAYS * DAY)),
    ensures
        r == if rolling {
            (now.shifted(-(PACE_DAYS * DAY)), (PACE_DAYS * DAY) as i64)
        } else {
            let passed = now.spec_seconds_since(start);
            (
                start,
                if passed < 0 {
                    0
                } else {
                    passed as i64
                },
            )
        },
{
    if rolling {
        (now.shift(-PACE_DAYS * DAY), PACE_DAYS * DAY)
    } else {
        let passed: i64 = now.seconds_since(start);
        (
            start,
            if passed < 0 {
                0
            } else {
                passed
            },
        )
    }
}

/// Steps of the projection.
pub const CONE_STEPS: i64 = 48;

/// The times at which the projection is drawn, `span` seconds from `now`: the start and the
/// end of each step.
pub open spec fn cone_time(now: Timestamp, span: int, i: int) -> Timestamp {
    now.shifted(span * i / CONE_STEPS as int)
}

/// The times at which the projection from `now` to the horizon is drawn: none where the
/// horizon is not a second away.
pub fn cone_times(now: Timestamp, horizon: Timestamp) -> (r: Vec<Timestamp>)
    requires
        now.wf(),
        horizon.wf(),
        horizon.secs < MAX_SECS,
    ensures
        ({
            let span = horizon.spec_seconds_since(now);
            &&& span <= 0 ==> r@.len() == 0
            &&& span > 0 ==> r@.len() == CONE_STEPS + 1
            &&& forall|i: int| 0 <= i < r@.len() ==> #[trigger] r@[i] == cone_time(now, span, i)
        }),
        forall|i: int| 0 <= i < r@.len() ==> (#[trigger] r@[i]).wf(),
{
    let mut out: Vec<Timestamp> = Vec::new();
    let span: i64 = horizon.seconds_since(now);
    if span <= 0 {
        return out;
    }
    let mut i: i64 = 0;
    while i <= CONE_STEPS
        invariant
            now.wf(),
            0 < span < 0x1000_0000_0000,
            now.secs + span <= MAX_SECS,
            0 <= i <= CONE_STEPS + 1,
            out@.len() == i,
            forall|k: int| 0 <= k < i ==> #[trigger] out@[k] == cone_time(now, span as int, k),
            forall|k: int| 0 <= k < i ==> (#[trigger] out@[k]).wf(),
        decreases CONE_STEPS + 1 - i,
    {
        assert(0 <= span * i <= span * CONE_STEPS) by (nonlinear_arith)
            requires
                0 < span,
                0 <= i <= CONE_STEPS,
        ;
        let d: i64 = span * i / CONE_STEPS;
        assert(0 <= d <= span);
        out.push(now.shift(d));
        i = i + 1;
    }
    out
}

/// The bounds of what leaves a rolling window by the time `t`: from the start of the week up
/// to `now` for as long as it is from `now` to `t`.
pub open spec fn rolled_off_of(now: Timestamp, t: Timestamp) -> (Timestamp, Timestamp) {
    let start = now.shifted(-(WEEK as int));
    (start, start.shifted(t.spec_seconds_since(now)))
}

/// The bounds of what leaves a rolling window by the time `t`, which is whole seconds from
/// `now` and at most a week.
pub fn rolled_off(now: Timestamp, t: Timestamp) -> (r: (Timestamp, Timestamp))
    requires
        has_room(now),
        t.wf(),
        0 <= t.spec_seconds_since(now) <= WEEK,
    ensures
        r == rolled_off_of(now, t),
        r.0.wf(),
        r.1.wf(),
{
    let start = now.shift(-WEEK);
    let d: i64 = t.seconds_since(now);
    (start, start.shift(d))
}

/// The most seconds that a span of time can hold.
pub const MAX_SPAN: i64 = 9_223_372_036_854_775;

/// The time `secs` seconds after `t`, if the calendar has it.
pub fn eta_after(t: Timestamp, secs: i64) -> (r: Option<Timestamp>)
    requires
        t.wf(),
        -MAX_SPAN <= secs <= MAX_SPAN,
    ensures
        r == if t.can_shift(secs as int) {
            Some(t.shifted(secs as int))
        } else {
            None
        },
        r matches Some(e) ==> e.wf(),
{
    t.checked_shift(secs)
}

/// A window with a known reset ends after `now`, starts a week before its end and is the
/// only one; it is still the window at every later time before its end.
pub proof fn law_fixed_window(
    now: Timestamp,
    reset: Timestamp,
    w: (Timestamp, Timestamp),
    other: (Timestamp, Timestamp),
    later: Timestamp,
)
    requires
        is_window(now, Some(reset), w),
        is_window(now, Some(reset), other),
        now.spec_le(later),
        later.spec_lt(w.1),
    ensures
        now.spec_lt(w.1),
        w.0 == w.1.shifted(-(WEEK as int)),
        other == w,
        is_window(later, Some(reset), w),
{
    let k = choose|k: int| resets_after(now, reset, w.1, k);
    let j = choose|k: int| resets_after(now, reset, other.1, k);
    assert(resets_after(now, reset, w.1, k));
    assert(resets_after(now, reset, other.1, j));
    if j < k {
        lemma_still_ahead(now, reset, j, k);
    }
    if k < j {
        lemma_still_ahead(now, reset, k, j);
    }
    assert(resets_after(later, reset, w.1, k));
}

/// After a reset that is ahead of `now`, so is the one before every later one.
proof fn lemma_still_ahead(now: Timestamp, reset: Timestamp, j: int, k: int)
    requires
        0 <= j < k,
        reset.can_shift(j * WEEK),
        reset.can_shift(k * WEEK),
        now.spec_lt(reset.shifted(j * WEEK)),
    ensures
        now.spec_lt(reset.shifted((k - 1) * WEEK)),
{
    assert(0 <= j * WEEK <= (k - 1) * WEEK < k * WEEK) by (nonlinear_arith)
        requires
            0 <= j < k,
    ;
    if j < k - 1 {
        assert(j * WEEK + WEEK <= (k - 1) * WEEK) by (nonlinear_arith)
            requires
                j < k - 1,
        ;
    }
}

/// A reset time that has been rolled forward to the end of its window gives the same window.
pub proof fn law_rolled_reset(now: Timestamp, reset: Timestamp, w: (Timestamp, Timestamp))
    requires
        is_window(now, Some(reset), w),
        w.1.wf(),
    ensures
        is_window(now, Some(w.1), w),
{
    assert(w.1.shifted(0) == w.1);
    assert(resets_after(now, w.1, w.1, 0));
}

/// A reset that is still ahead is the end of the window.
pub proof fn law_future_reset(now: Timestamp, reset: Timestamp, w: (Timestamp, Timestamp))
    requires
        reset.wf(),
        now.spec_lt(reset),
        is_window(now, Some(reset), w),
    ensures
        w.1 == reset,
{
    let k = choose|k: int| resets_after(now, reset, w.1, k);
    assert(reset.shifted(0) == reset);
    if k > 0 {
        assert(reset.can_shift(0));
        lemma_still_ahead(now, reset, 0, k);
    }
}

/// A window of the grid is a week long, its end is after `now`, and it holds `now`, unless
/// `now` is in a leap second or in the last second before a window that starts before the
/// anchor.
pub proof fn law_grid_window(now: Timestamp, w: (Timestamp, Timestamp))
    requires
        has_room(now),
        is_window(now, None, w),
    ensures
        now.spec_lt(w.1),
        w.1.secs == w.0.secs + WEEK,
        (w.0.secs - ANCHOR) % WEEK as int == 0,
        !now.leap() && (now.secs >= ANCHOR || now.nanos == 0) ==> w.0.spec_le(now),
{
    lemma_since_anchor(now);
    let since = now.spec_seconds_since(Timestamp { secs: ANCHOR, nanos: 0 });
    let idx = since / WEEK as int;
    vstd::arithmetic::div_mod::lemma_fundamental_div_mod(since, WEEK as int);
    vstd::arithmetic::div_mod::lemma_mod_bound(since, WEEK as int);
    assert(WEEK * idx == idx * WEEK) by (nonlinear_arith);
    vstd::arithmetic::div_mod::lemma_fundamental_div_mod_converse(
        idx * WEEK,
        WEEK as int,
        idx,
        0,
    );
    if !now.leap() && (now.secs >= ANCHOR || now.nanos == 0) {
        assert(since == now.secs - ANCHOR);
    }
}

/// Every instant of a window of the grid has that window, unless it is in a leap second or
/// between two seconds before the anchor.
pub proof fn law_grid_window_is_stable(now: Timestamp, later: Timestamp, w: (Timestamp, Timestamp))
    requires
        is_window(now, None, w),
        w.0.wf(),
        w.1.wf(),
        w.0.spec_le(later),
        later.spec_lt(w.1),
        !later.leap(),
        later.secs >= ANCHOR || later.nanos == 0,
    ensures
        is_window(later, None, w),
{
    let since = now.spec_seconds_since(Timestamp { secs: ANCHOR, nanos: 0 });
    let idx = since / WEEK as int;
    let d = later.secs - ANCHOR;
    assert(later.spec_seconds_since(Timestamp { secs: ANCHOR, nanos: 0 }) == d);
    vstd::arithmetic::div_mod::lemma_fundamental_div_mod_converse(
        d,
        WEEK as int,
        idx,
        d - idx * WEEK,
    );
}

/// With no reset known, the window is the week up to now, and rolling; with one it is fixed.
pub proof fn law_rolling_window(now: Timestamp, reset: Option<Timestamp>, r: (Timestamp, Timestamp, bool))
    requires
        has_room(now),
        tracked_window(now, reset, r),
    ensures
        r.2 <==> reset is None,
        reset is None ==> r.1 == now && r.0.spec_lt(now) && (!now.leap() ==> r.0.secs == now.secs
            - 604_800 && r.0.nanos == now.nanos),
        reset matches Some(t) ==> is_window(now, Some(t), (r.0, r.1)),
{
}

/// A fixed window ends a whole number of weeks after the reset, with no such time between now
/// and its end: it is the reset itself, or it starts at or before now.
pub proof fn law_window_ends_with_a_reset(now: Timestamp, reset: Timestamp, w: (Timestamp, Timestamp))
    requires
        is_window(now, Some(reset), w),
        !reset.leap(),
    ensures
        (w.1.secs - reset.secs) % 604_800 == 0,
        w.1.nanos == reset.nanos,
        reset.secs <= w.1.secs,
        w.1 == reset || w.1.secs - 604_800 < now.secs || w.1.secs - 604_800 == now.secs && w.1.nanos
            <= now.nanos,
        now.secs < w.1.secs || now.secs == w.1.secs && now.nanos < w.1.nanos,
{
    let k = choose|k: int| resets_after(now, reset, w.1, k);
    assert(resets_after(now, reset, w.1, k));
    vstd::arithmetic::div_mod::lemma_fundamental_div_mod_converse(
        k * WEEK,
        WEEK as int,
        k,
        0,
    );
    assert((k - 1) * WEEK == k * WEEK - WEEK) by (nonlinear_arith);
    assert(k >= 0 ==> k * WEEK >= 0) by (nonlinear_arith);
    if k == 0 {
        assert(reset.shifted(0) == reset);
    } else {
        assert(k * WEEK >= WEEK) by (nonlinear_arith)
            requires
                k >= 1,
        ;
    }
}

/// A projection reaches a week ahead for a rolling window, to the end of a fixed one, and never
/// back.
pub proof fn law_horizon(now: Timestamp, end: Timestamp)
    ensures
        !now.leap() && now.can_shift(604_800) ==> horizon_of(now, end, true).secs == now.secs + 604_800
            && horizon_of(now, end, true).nanos == now.nanos,
        now.spec_le(end) ==> horizon_of(now, end, false) == end,
        end.spec_lt(now) ==> horizon_of(now, end, false) == now,
{
}

/// The points of a projection are evenly spread: point `i` of 48 is `i` 48ths of the way, to
/// the second.
pub proof fn law_cone_steps(now: Timestamp, span: int, i: int)
    requires
        !now.leap(),
        now.can_shift(span * i / 48),
    ensures
        cone_time(now, span, i).nanos == now.nanos,
        48 * (cone_time(now, span, i).secs - now.secs) <= span * i < 48 * (cone_time(now, span, i).secs
            - now.secs) + 48,
{
}

/// What leaves a rolling window lasts as long as it is to the time looked at, from the start of
/// the week up to now.
pub proof fn law_rolled_off(now: Timestamp, t: Timestamp)
    requires
        has_room(now),
        !now.leap(),
        !t.leap(),
        t.nanos == now.nanos,
        now.secs <= t.secs <= now.secs + WEEK,
    ensures
        ({
            let (from, to) = rolled_off_of(now, t);
            &&& from.secs == now.secs - 604_800
            &&& to.secs - from.secs == t.secs - now.secs
            &&& from.nanos == now.nanos && to.nanos == now.nanos
        }),
{
    crate::time::law_steps(t, 0, now);
}

/// A window is seven days, and a projection of it has a point for every 48th of its span.
pub proof fn law_lengths()
    ensures
        WEEK == WINDOW_DAYS * DAY,
        WINDOW_DAYS == 7,
        PACE_DAYS == 2,
        CONE_STEPS == 48,
        ANCHOR as int % DAY as int == 0,
        crate::time::utc_weekday(ANCHOR as int) == 0,
        ANCHOR == 1_704_067_200,
{
}

} // verus!
