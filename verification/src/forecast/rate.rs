//! The rate of use per day of the week and hour, and what it adds up to ahead.
//!
//! The rates are fitted to every hour of the history, idle ones included. A projection walks
//! over the hours ahead and takes from each the rate of its day and hour for as long as it
//! lasts.

use crate::forecast::median::{
    all_numbers, in_the_middle, is_middle, law_middle, law_middle_ignores_growth, law_one_middle,
    middle, sort_numbers, sorted_as,
};
use crate::forecast::window::WEEK;
use crate::number::{zero, Real};
use crate::time::{
    euclid_rem, local_start, local_start_at, local_time, local_time_at, parse_dt, rfc3339_instant,
    utc_hour, utc_weekday, zone_clock, zone_hour, zone_of, Timestamp, DAY, HOUR, MAX_SECS, MIN_SECS,
};
use vstd::prelude::*;

verus! {

/// Weeks of history that the rates are fitted to.
pub const MODEL_LOOKBACK_WEEKS: i64 = 26;

/// The tokens expected in an hour and their variance, per day of the week (Monday first) and
/// hour in a time zone, and the weeks of history behind them.
#[derive(Debug, Clone)]
pub struct RateModel {
    pub lambda: [[Real; 24]; 7],
    pub var: [[Real; 24]; 7],
    pub tz: String,
    pub weeks: Real,
}

/// A stretch of time within one hour of the clock: it lasts `secs` whole seconds, at the
/// rate and the variance of that hour.
#[derive(Debug, Clone, Copy, PartialEq, Eq, Structural)]
pub struct Segment {
    pub from: Timestamp,
    pub until: Timestamp,
    pub secs: i64,
    pub rate: Real,
    pub variance: Real,
}

/// The end of the clock hour that `cur` is in, or of an hour from `cur` where the zone does
/// not tell when the hour started, but not after `upto`: none where that is past the calendar.
pub open spec fn segment_end(tz: Seq<char>, cur: Timestamp, upto: Timestamp) -> Option<Timestamp> {
    let start = match local_start(tz, local_time(tz, cur), false) {
        Some(s) => s,
        None => cur,
    };
    if start.can_shift(HOUR as int) {
        let end = start.shifted(HOUR as int);
        Some(
            if upto.spec_lt(end) {
                upto
            } else {
                end
            },
        )
    } else {
        None
    }
}

/// The stretch from `cur` to `end`.
pub open spec fn segment_of(m: RateModel, cur: Timestamp, end: Timestamp) -> Segment {
    let l = local_time(m.tz@, cur);
    Segment {
        from: cur,
        until: end,
        secs: end.spec_seconds_since(cur) as i64,
        rate: m.lambda[l.weekday as int][l.hour as int],
        variance: m.var[l.weekday as int][l.hour as int],
    }
}

/// How far apart two instants are, with room for leap seconds.
pub open spec fn distance(cur: Timestamp, upto: Timestamp) -> int {
    (upto.secs - cur.secs) * 2_000_000_000 + upto.nanos - cur.nanos
}

/// The stretches from `cur` to `upto`, hour by hour: none where the clock of the zone is set
/// back so that the end of an hour is not after the time reached, or past the calendar.
pub open spec fn segments(m: RateModel, cur: Timestamp, upto: Timestamp) -> Option<Seq<Segment>>
    decreases distance(cur, upto),
{
    if !cur.spec_lt(upto) || cur.nanos >= 2_000_000_000 || upto.nanos >= 2_000_000_000 {
        Some(Seq::empty())
    } else {
        match segment_end(m.tz@, cur, upto) {
            Some(end) => if cur.spec_lt(end) && end.nanos < 2_000_000_000 {
                match segments(m, end, upto) {
                    Some(rest) => Some(seq![segment_of(m, cur, end)] + rest),
                    None => None,
                }
            } else {
                None
            },
            None => None,
        }
    }
}

/// The next full hour after an instant in UTC.
pub open spec fn next_hour(t: Timestamp) -> Timestamp {
    Timestamp { secs: (t.secs - t.secs as int % HOUR as int + HOUR) as i64, nanos: 0 }
}

/// Whether a stretch is one of the hours in UTC: it ends with its hour, or at `upto`, and has
/// the rate and the variance of that hour of the week.
pub open spec fn utc_segment(m: RateModel, g: Segment, upto: Timestamp) -> bool {
    let (d, h) = (utc_weekday(g.from.secs as int), utc_hour(g.from.secs as int));
    &&& g.from.spec_lt(g.until)
    &&& g.until == if upto.spec_lt(next_hour(g.from)) {
        upto
    } else {
        next_hour(g.from)
    }
    &&& g.secs == g.until.spec_seconds_since(g.from)
    &&& g.rate == m.lambda[d][h]
    &&& g.variance == m.var[d][h]
}

/// Whether stretches follow one another hour by hour in UTC, from `now` to `end`, on the way
/// to `upto`.
pub open spec fn utc_pieces(
    m: RateModel,
    s: Seq<Segment>,
    now: Timestamp,
    end: Timestamp,
    upto: Timestamp,
) -> bool {
    &&& s.len() == 0 ==> end == now
    &&& s.len() > 0 ==> s[0].from == now && s.last().until == end
    &&& forall|i: int| 0 < i < s.len() ==> (#[trigger] s[i]).from == s[i - 1].until
    &&& forall|i: int| 0 <= i < s.len() ==> utc_segment(m, #[trigger] s[i], upto)
}

/// Whether stretches are those from `now` to `upto` in UTC: none where `upto` is not ahead.
pub open spec fn utc_run(m: RateModel, s: Seq<Segment>, now: Timestamp, upto: Timestamp) -> bool {
    if now.spec_lt(upto) {
        utc_pieces(m, s, now, upto, upto)
    } else {
        s.len() == 0
    }
}

impl RateModel {
    /// Whether some hour has a rate above zero.
    pub open spec fn any_rate(&self) -> bool {
        exists|d: int, h: int|
            0 <= d < 7 && 0 <= h < 24 && zero().spec_lt(#[trigger] self.lambda[d][h])
    }

    /// Whether there is history, and use in it.
    pub open spec fn is_fitted(&self) -> bool {
        zero().spec_lt(self.weeks) && self.any_rate()
    }

    /// Whether there is history, and use in it.
    pub fn has_data(&self) -> (r: bool)
        ensures
            r == self.is_fitted(),
    {
        if !self.weeks.positive() {
            return false;
        }
        for d in 0..7
            invariant
                zero().spec_lt(self.weeks),
                forall|i: int, h: int|
                    0 <= i < d && 0 <= h < 24 ==> !zero().spec_lt(#[trigger] self.lambda[i][h]),
        {
            for h in 0..24
                invariant
                    0 <= d < 7,
                    zero().spec_lt(self.weeks),
                    forall|i: int, k: int|
                        0 <= i < d && 0 <= k < 24 ==> !zero().spec_lt(#[trigger] self.lambda[i][k]),
                    forall|k: int|
                        0 <= k < h ==> !zero().spec_lt(#[trigger] self.lambda[d as int][k]),
            {
                if self.lambda[d][h].positive() {
                    assert(zero().spec_lt(self.lambda[d as int][h as int]));
                    return true;
                }
            }
        }
        false
    }

    /// The stretches from `now` to `upto`, hour by hour, with the rate and variance of each.
    /// Use expected up to `upto` is the sum of rate times hours over them, and its variance
    /// the sum of variance times hours.
    pub fn accumulate_future(&self, now: Timestamp, upto: Timestamp) -> (r: Option<Vec<Segment>>)
        requires
            now.wf(),
            upto.wf(),
        ensures
            match r {
                Some(v) => segments(*self, now, upto) == Some(v@),
                None => segments(*self, now, upto) is None,
            },
            zone_of(self.tz@) == "UTC"@ ==> (r matches Some(v) ==> utc_run(*self, v@, now, upto)),
            zone_of(self.tz@) == "UTC"@ && upto.secs + HOUR <= MAX_SECS ==> r is Some,
            r matches Some(v) ==> forall|i: int|
                0 <= i < v@.len() ==> {
                    let l = zone_clock(zone_of(self.tz@), (#[trigger] v@[i]).from.secs as int);
                    v@[i].rate == self.lambda[l.weekday as int][l.hour as int] && v@[i].variance
                        == self.var[l.weekday as int][l.hour as int]
                },
    {
        let mut out: Vec<Segment> = Vec::new();
        let mut cur = now;
        while cur.lt(upto)
            invariant
                cur.wf(),
                upto.wf(),
                match segments(*self, cur, upto) {
                    Some(rest) => segments(*self, now, upto) == Some(out@ + rest),
                    None => segments(*self, now, upto) is None,
                },
                zone_of(self.tz@) == "UTC"@ ==> utc_pieces(*self, out@, now, cur, upto),
                now.spec_lt(upto) ==> cur.spec_le(upto),
                !now.spec_lt(upto) ==> cur == now && out@.len() == 0,
            decreases distance(cur, upto),
        {
            let l = local_time_at(self.tz.as_str(), cur);
            let start = match local_start_at(self.tz.as_str(), l, false) {
                Some(s) => s,
                None => cur,
            };
            let end = match start.checked_shift(HOUR) {
                Some(e) => if upto.lt(e) {
                    upto
                } else {
                    e
                },
                None => return None,
            };
            if !cur.lt(end) {
                return None;
            }
            let secs: i64 = end.seconds_since(cur);
            let d: usize = l.weekday as usize;
            let h: usize = l.hour as usize;
            let seg = Segment {
                from: cur,
                until: end,
                secs,
                rate: self.lambda[d][h],
                variance: self.var[d][h],
            };
            assert(seg == segment_of(*self, cur, end));
            let ghost before = out@;
            out.push(seg);
            assert(zone_of(self.tz@) == "UTC"@ ==> utc_segment(*self, seg, upto));
            proof {
                match segments(*self, end, upto) {
                    Some(rest) => {
                        assert(before + (seq![seg] + rest) =~= out@ + rest);
                    },
                    None => {},
                }
            }
            cur = end;
        }
        assert(out@ + Seq::<Segment>::empty() =~= out@);
        assert forall|i: int| 0 <= i < out@.len() implies {
            let l = zone_clock(zone_of(self.tz@), (#[trigger] out@[i]).from.secs as int);
            out@[i].rate == self.lambda[l.weekday as int][l.hour as int] && out@[i].variance
                == self.var[l.weekday as int][l.hour as int]
        } by {
            law_segments_by_the_local_clock(*self, now, upto, i);
        }
        Some(out)
    }
}

/// The stretches of a projection follow one another without a gap from `now` to `upto`.
pub proof fn law_segments_cover(m: RateModel, now: Timestamp, upto: Timestamp)
    requires
        now.nanos < 2_000_000_000,
        upto.nanos < 2_000_000_000,
        now.spec_lt(upto),
        segments(m, now, upto) is Some,
    ensures
        ({
            let s = segments(m, now, upto)->0;
            &&& s.len() > 0
            &&& s[0].from == now
            &&& s.last().until == upto
            &&& forall|i: int| 0 < i < s.len() ==> (#[trigger] s[i]).from == s[i - 1].until
            &&& forall|i: int| 0 <= i < s.len() ==> (#[trigger] s[i]).from.spec_lt(s[i].until)
        }),
    decreases distance(now, upto),
{
    let end = segment_end(m.tz@, now, upto)->0;
    let rest = segments(m, end, upto)->0;
    let s = segments(m, now, upto)->0;
    assert(s == seq![segment_of(m, now, end)] + rest);
    if end.spec_lt(upto) {
        law_segments_cover(m, end, upto);
        assert(s.last() == rest.last());
        assert forall|i: int| 0 < i < s.len() implies (#[trigger] s[i]).from == s[i - 1].until by {
            assert(s[i] == rest[i - 1]);
            if i > 1 {
                assert(s[i - 1] == rest[i - 2]);
            }
        }
        assert forall|i: int| 0 <= i < s.len() implies (#[trigger] s[i]).from.spec_lt(s[i].until) by {
            if i > 0 {
                assert(s[i] == rest[i - 1]);
            }
        }
    } else {
        assert(end == upto);
        assert(rest =~= Seq::empty());
    }
}

/// Nothing is expected of the past, whatever the rates.
pub proof fn law_nothing_of_the_past(m: RateModel, now: Timestamp, upto: Timestamp)
    requires
        now.wf(),
        upto.wf(),
        upto.spec_le(now),
    ensures
        segments(m, now, upto) == Some(Seq::<Segment>::empty()),
{
}

/// The whole seconds of stretches.
pub open spec fn total_secs(s: Seq<Segment>) -> int
    decreases s.len(),
{
    if s.len() == 0 {
        0
    } else {
        s[0].secs + total_secs(s.drop_first())
    }
}

/// Between whole seconds no time is lost: the stretches last as long as it is from `now` to
/// `upto`. So at a rate that is the same at every hour the use ahead grows in proportion to
/// the time.
pub proof fn law_segments_last(m: RateModel, now: Timestamp, upto: Timestamp)
    requires
        now.wf(),
        upto.wf(),
        now.nanos == 0,
        upto.nanos == 0,
        now.secs <= upto.secs,
        segments(m, now, upto) is Some,
    ensures
        total_secs(segments(m, now, upto)->0) == upto.secs - now.secs,
    decreases distance(now, upto),
{
    if now.spec_lt(upto) {
        let end = segment_end(m.tz@, now, upto)->0;
        let rest = segments(m, end, upto)->0;
        let s = segments(m, now, upto)->0;
        assert(s == seq![segment_of(m, now, end)] + rest);
        assert(s.drop_first() =~= rest);
        assert(s[0].secs == end.secs - now.secs);
        law_segments_last(m, end, upto);
    }
}

/// The seconds from `a` up to `c` that fall on an hour `h` of the day `d` of the week in UTC.
pub open spec fn seconds_on(a: int, c: int, d: int, h: int) -> int
    decreases c - a,
{
    if c <= a {
        0
    } else {
        seconds_on(a, c - 1, d, h) + if utc_weekday(c - 1) == d && utc_hour(c - 1) == h {
            1int
        } else {
            0
        }
    }
}

/// The whole seconds of the stretches on the hour `h` of the day `d` of the week.
pub open spec fn secs_at(s: Seq<Segment>, d: int, h: int) -> int
    decreases s.len(),
{
    if s.len() == 0 {
        0
    } else {
        let g = s.last();
        secs_at(s.drop_last(), d, h) + if utc_weekday(g.from.secs as int) == d && utc_hour(
            g.from.secs as int,
        ) == h {
            g.secs as int
        } else {
            0
        }
    }
}

/// Seconds are counted one span after the other.
proof fn lemma_seconds_add(a: int, b: int, c: int, d: int, h: int)
    requires
        a <= b <= c,
    ensures
        seconds_on(a, c, d, h) == seconds_on(a, b, d, h) + seconds_on(b, c, d, h),
    decreases c - b,
{
    if b < c {
        lemma_seconds_add(a, b, c - 1, d, h);
    }
}

/// Within one hour the clock shows the same.
proof fn lemma_same_hour(a: int, b: int)
    requires
        a <= b < a - a % HOUR as int + HOUR,
    ensures
        utc_hour(b) == utc_hour(a),
        utc_weekday(b) == utc_weekday(a),
{
    let (q, r) = (a / HOUR as int, a % HOUR as int);
    let e = b - q * HOUR;
    assert(a == q * HOUR + r && 0 <= r <= e < HOUR);
    let (k, j) = (q / 24, q % 24);
    assert(a == k * DAY + (j * HOUR + r) && b == k * DAY + (j * HOUR + e));
    assert(a / DAY as int == k && b / DAY as int == k);
    assert(a % DAY as int == j * HOUR + r && b % DAY as int == j * HOUR + e);
}

/// Within one hour all seconds fall on it.
proof fn lemma_within_hour(a: int, c: int, d: int, h: int)
    requires
        a <= c <= a - a % HOUR as int + HOUR,
    ensures
        seconds_on(a, c, d, h) == if utc_weekday(a) == d && utc_hour(a) == h {
            c - a
        } else {
            0
        },
    decreases c - a,
{
    if a < c {
        lemma_within_hour(a, c - 1, d, h);
        lemma_same_hour(a, c - 1);
    }
}

/// Stretches between whole seconds have, on each hour of the week, the seconds that fall on it.
proof fn lemma_secs_at(
    m: RateModel,
    s: Seq<Segment>,
    now: Timestamp,
    end: Timestamp,
    upto: Timestamp,
    d: int,
    h: int,
)
    requires
        utc_pieces(m, s, now, end, upto),
        now.wf(),
        upto.wf(),
        now.nanos == 0,
        upto.nanos == 0,
    ensures
        secs_at(s, d, h) == seconds_on(now.secs as int, end.secs as int, d, h),
        end.nanos == 0,
        now.secs <= end.secs,
        s.len() > 0 ==> end.secs <= upto.secs,
    decreases s.len(),
{
    if s.len() > 0 {
        let g = s.last();
        let t = s.drop_last();
        assert(utc_segment(m, g, upto));
        assert(utc_pieces(m, t, now, g.from, upto)) by {
            if t.len() > 0 {
                assert(s[s.len() - 1].from == s[s.len() - 2].until);
            }
        }
        lemma_secs_at(m, t, now, g.from, upto, d, h);
        let (a, c) = (g.from.secs as int, g.until.secs as int);
        assert(g.secs == c - a);
        lemma_within_hour(a, c, d, h);
        lemma_seconds_add(now.secs as int, a, c, d, h);
    }
}

/// In UTC two spans that adjoin give what the whole gives: on each hour of the week their
/// seconds add up, and so do the use expected and its variance, which are the rate and the
/// variance of the hours in proportion to these. A span that does not lead ahead gives nothing.
pub proof fn law_spans_add_up(
    m: RateModel,
    a: Timestamp,
    b: Timestamp,
    c: Timestamp,
    ab: Seq<Segment>,
    bc: Seq<Segment>,
    ac: Seq<Segment>,
    d: int,
    h: int,
)
    requires
        a.wf() && b.wf() && c.wf(),
        a.nanos == 0 && b.nanos == 0 && c.nanos == 0,
        a.secs <= b.secs <= c.secs,
        utc_run(m, ab, a, b),
        utc_run(m, bc, b, c),
        utc_run(m, ac, a, c),
    ensures
        secs_at(ac, d, h) == secs_at(ab, d, h) + secs_at(bc, d, h),
        forall|s: Seq<Segment>| #[trigger] utc_run(m, s, c, a) ==> s.len() == 0,
{
    if a.secs < b.secs {
        lemma_secs_at(m, ab, a, b, b, d, h);
    }
    if b.secs < c.secs {
        lemma_secs_at(m, bc, b, c, c, d, h);
    }
    if a.secs < c.secs {
        lemma_secs_at(m, ac, a, c, c, d, h);
    }
    lemma_seconds_add(a.secs as int, b.secs as int, c.secs as int, d, h);
}

/// Every week the clock shows the same.
proof fn lemma_same_next_week(b: int)
    ensures
        utc_hour(b + WEEK) == utc_hour(b),
        utc_weekday(b + WEEK) == utc_weekday(b),
{
}

/// A week from any second has as many seconds on an hour as the week from the next one.
proof fn lemma_week_step(b: int, d: int, h: int)
    ensures
        seconds_on(b, b + WEEK, d, h) == seconds_on(b + 1, b + 1 + WEEK, d, h),
{
    let c = b + WEEK;
    lemma_same_next_week(b);
    lemma_within_hour(b, b + 1, d, h);
    lemma_within_hour(c, c + 1, d, h);
    lemma_seconds_add(b, b + 1, c + 1, d, h);
    lemma_seconds_add(b, c, c + 1, d, h);
}

/// A week from any second has as many seconds on an hour as the week from a later one.
proof fn lemma_week_shift(a: int, k: nat, d: int, h: int)
    ensures
        seconds_on(a, a + WEEK, d, h) == seconds_on(a + k, a + k + WEEK, d, h),
    decreases k,
{
    if k > 0 {
        lemma_week_shift(a, (k - 1) as nat, d, h);
        lemma_week_step(a + k - 1, d, h);
    }
}

/// The last Monday's start at or before a second.
proof fn lemma_monday(x: int) -> (base: int)
    ensures
        base <= x,
        base % DAY as int == 0,
        utc_weekday(base) == 0,
{
    let monday = 4 * DAY as int;
    let q = (x - monday) / WEEK as int;
    let base = monday + q * WEEK;
    vstd::arithmetic::div_mod::lemma_fundamental_div_mod(x - monday, WEEK as int);
    assert(base == (4 + 7 * q) * DAY);
    assert(base / DAY as int == 4 + 7 * q && base % DAY as int == 0);
    assert((7 * (q + 1)) % 7 == 0);
    base
}

/// Of the first `n` hours of a week that starts on a Monday, the one that counts for the hour
/// `h` of the day `d` has its seconds.
proof fn lemma_hours_of_week(start: int, n: int, d: int, h: int)
    requires
        start % DAY as int == 0,
        utc_weekday(start) == 0,
        0 <= n <= 168,
        0 <= d < 7,
        0 <= h < 24,
    ensures
        seconds_on(start, start + n * HOUR, d, h) == if 24 * d + h < n {
            HOUR as int
        } else {
            0
        },
    decreases n,
{
    if n > 0 {
        lemma_hours_of_week(start, n - 1, d, h);
        let b = start + (n - 1) * HOUR;
        lemma_seconds_add(start, b, b + HOUR, d, h);
        lemma_hour_of_week(start, n - 1);
        lemma_within_hour(b, b + HOUR, d, h);
    }
}

/// What the clock shows some hours after the start of a week.
proof fn lemma_hour_of_week(start: int, n: int)
    requires
        start % DAY as int == 0,
        utc_weekday(start) == 0,
        0 <= n < 168,
    ensures
        (start + n * HOUR) % HOUR as int == 0,
        utc_hour(start + n * HOUR) == n % 24,
        utc_weekday(start + n * HOUR) == n / 24,
{
    let k = start / DAY as int;
    let (days, hours) = (n / 24, n % 24);
    assert(start == k * DAY);
    assert(start + n * HOUR == (k + days) * DAY + hours * HOUR);
    assert((start + n * HOUR) / DAY as int == k + days);
    assert((start + n * HOUR) % DAY as int == hours * HOUR);
}

/// In UTC a week, whenever it starts, spends an hour on each hour of the week: the use expected
/// in it is the sum of the rates.
pub proof fn law_week_has_every_hour(
    m: RateModel,
    a: Timestamp,
    c: Timestamp,
    s: Seq<Segment>,
    d: int,
    h: int,
)
    requires
        a.wf() && c.wf(),
        a.nanos == 0 && c.nanos == 0,
        c.secs == a.secs + WEEK,
        utc_run(m, s, a, c),
        0 <= d < 7,
        0 <= h < 24,
    ensures
        secs_at(s, d, h) == HOUR,
{
    lemma_secs_at(m, s, a, c, c, d, h);
    let x = a.secs as int;
    let base = lemma_monday(x);
    lemma_week_shift(base, (x - base) as nat, d, h);
    lemma_hours_of_week(base, 168, d, h);
}

// ---------------------------------------------------------------------------
// The history
// ---------------------------------------------------------------------------

/// The hour that an instant is in, as its first second.
pub open spec fn hour_of_secs(secs: i64) -> i64 {
    (secs - secs as int % HOUR as int) as i64
}

/// The hour that a text names a time in.
pub open spec fn text_hour(s: Seq<char>) -> Option<i64> {
    match rfc3339_instant(s) {
        Some(t) => Some(hour_of_secs(t.secs)),
        None => None,
    }
}

/// The hour that an instant is in, as its first second.
pub fn hour_start(t: Timestamp) -> (r: i64)
    requires
        t.wf(),
    ensures
        r == hour_of_secs(t.secs),
        MIN_SECS <= r <= t.secs,
        r as int % HOUR as int == 0,
{
    t.secs - euclid_rem(t.secs, HOUR)
}

/// The hours that texts name times in.
pub fn hours_of(ts: &Vec<String>) -> (r: Vec<Option<i64>>)
    ensures
        r@.len() == ts@.len(),
        forall|i: int| 0 <= i < r@.len() ==> #[trigger] r@[i] == text_hour(ts@[i]@),
        forall|i: int|
            0 <= i < r@.len() ==> ((#[trigger] r@[i]) matches Some(h) ==> MIN_SECS <= h <= MAX_SECS
                && h as int % HOUR as int == 0),
{
    let mut out: Vec<Option<i64>> = Vec::new();
    for i in 0..ts.len()
        invariant
            out@.len() == i,
            forall|k: int| 0 <= k < i ==> #[trigger] out@[k] == text_hour(ts@[k]@),
            forall|k: int|
                0 <= k < i ==> ((#[trigger] out@[k]) matches Some(h) ==> MIN_SECS <= h <= MAX_SECS
                    && h as int % HOUR as int == 0),
    {
        match parse_dt(ts[i].as_str()) {
            Some(t) => {
                out.push(Some(hour_start(t)));
            },
            None => {
                out.push(None);
            },
        }
    }
    out
}

/// The events of one hour, by their positions.
#[derive(Debug, Clone)]
pub struct HourGroup {
    pub hour: i64,
    pub rows: Vec<usize>,
}

/// The positions, among the first `n`, at which `hours` has `h`, in order.
pub open spec fn positions(hours: Seq<Option<i64>>, n: int, h: i64) -> Seq<usize>
    decreases n,
{
    if n <= 0 {
        Seq::empty()
    } else if hours[n - 1] == Some(h) {
        positions(hours, n - 1, h).push((n - 1) as usize)
    } else {
        positions(hours, n - 1, h)
    }
}

/// Whether some group is that of hour `h`.
pub open spec fn has_hour(groups: Seq<HourGroup>, h: i64) -> bool {
    exists|g: int| 0 <= g < groups.len() && (#[trigger] groups[g]).hour == h
}

/// Whether `groups` are the events of each hour that has any among the first `n`, in the
/// order of the hours.
pub open spec fn grouped(hours: Seq<Option<i64>>, n: int, groups: Seq<HourGroup>) -> bool {
    &&& forall|a: int, b: int|
        0 <= a < b < groups.len() ==> (#[trigger] groups[a]).hour < (#[trigger] groups[b]).hour
    &&& forall|g: int|
        0 <= g < groups.len() ==> (#[trigger] groups[g]).rows@ == positions(hours, n, groups[g].hour)
            && groups[g].rows@.len() > 0
    &&& forall|i: int|
        0 <= i < n ==> ((#[trigger] hours[i]) matches Some(h) ==> has_hour(groups, h))
}

/// An hour that no event is in has no positions.
proof fn lemma_no_positions(hours: Seq<Option<i64>>, n: int, h: i64)
    requires
        0 <= n <= hours.len(),
        forall|i: int| 0 <= i < n ==> #[trigger] hours[i] != Some(h),
    ensures
        positions(hours, n, h) == Seq::<usize>::empty(),
    decreases n,
{
    if n > 0 {
        lemma_no_positions(hours, n - 1, h);
        assert(hours[n - 1] != Some(h));
    }
}

/// The events of each hour, in the order of the hours.
pub fn group_hours(hours: &Vec<Option<i64>>) -> (r: Vec<HourGroup>)
    ensures
        grouped(hours@, hours@.len() as int, r@),
{
    let mut groups: Vec<HourGroup> = Vec::new();
    for n in 0..hours.len()
        invariant
            grouped(hours@, n as int, groups@),
    {
        let ghost before = groups@;
        match hours[n] {
            Some(h) => {
                let mut k: usize = groups.len();
                while k > 0 && groups[k - 1].hour > h
                    invariant
                        k <= groups@.len(),
                        groups@ == before,
                        forall|g: int| k <= g < groups@.len() ==> (#[trigger] groups@[g]).hour > h,
                    ensures
                        k <= groups@.len(),
                        groups@ == before,
                        forall|g: int| k <= g < groups@.len() ==> (#[trigger] groups@[g]).hour > h,
                        k > 0 ==> groups@[k - 1].hour <= h,
                    decreases k,
                {
                    k = k - 1;
                }
                if k > 0 && groups[k - 1].hour == h {
                    groups[k - 1].rows.push(n);
                    proof {
                        lemma_group_added(hours@, n as int, before, groups@, k - 1);
                    }
                } else {
                    let mut rows: Vec<usize> = Vec::new();
                    rows.push(n);
                    groups.insert(k, HourGroup { hour: h, rows });
                    proof {
                        lemma_group_new(hours@, n as int, before, groups@, k as int);
                    }
                }
            },
            None => {},
        }
    }
    groups
}

/// An event of an hour that has a group is added to it.
proof fn lemma_group_added(
    hours: Seq<Option<i64>>,
    n: int,
    before: Seq<HourGroup>,
    after: Seq<HourGroup>,
    k: int,
)
    requires
        0 <= n < hours.len() <= usize::MAX,
        grouped(hours, n, before),
        0 <= k < before.len(),
        after.len() == before.len(),
        hours[n] == Some(before[k].hour),
        forall|g: int| 0 <= g < before.len() && g != k ==> #[trigger] after[g] == before[g],
        after[k].hour == before[k].hour,
        after[k].rows@ == before[k].rows@.push(n as usize),
    ensures
        grouped(hours, n + 1, after),
{
    let h = before[k].hour;
    assert forall|a: int, b: int| 0 <= a < b < after.len() implies (#[trigger] after[a]).hour < (
    #[trigger] after[b]).hour by {
        assert(after[a].hour == before[a].hour);
        assert(after[b].hour == before[b].hour);
    }
    assert forall|g: int| 0 <= g < after.len() implies (#[trigger] after[g]).rows@ == positions(
        hours,
        n + 1,
        after[g].hour,
    ) && after[g].rows@.len() > 0 by {
        assert(before[g].rows@ == positions(hours, n, before[g].hour));
        if g < k {
            assert(before[g].hour < before[k].hour);
        } else if g > k {
            assert(before[k].hour < before[g].hour);
        }
    }
    assert forall|i: int| 0 <= i < n + 1 implies ((#[trigger] hours[i]) matches Some(x) ==> has_hour(
        after,
        x,
    )) by {
        if hours[i] is Some {
            let x = hours[i]->0;
            if i < n {
                assert(has_hour(before, x));
                let g = choose|g: int| 0 <= g < before.len() && (#[trigger] before[g]).hour == x;
                assert(after[g].hour == x);
            } else {
                assert(after[k].hour == x);
            }
        }
    }
}

/// An event of an hour that has no group starts one.
proof fn lemma_group_new(
    hours: Seq<Option<i64>>,
    n: int,
    before: Seq<HourGroup>,
    after: Seq<HourGroup>,
    k: int,
)
    requires
        0 <= n < hours.len() <= usize::MAX,
        grouped(hours, n, before),
        0 <= k <= before.len(),
        hours[n] is Some,
        forall|g: int| k <= g < before.len() ==> (#[trigger] before[g]).hour > hours[n]->0,
        k > 0 ==> before[k - 1].hour < hours[n]->0,
        after == before.insert(k, after[k]),
        after[k].hour == hours[n]->0,
        after[k].rows@ == seq![n as usize],
    ensures
        grouped(hours, n + 1, after),
{
    let h = hours[n]->0;
    assert forall|g: int| 0 <= g < before.len() implies (#[trigger] before[g]).hour != h by {
        if g < k - 1 {
            assert(before[g].hour < before[k - 1].hour);
        }
    }
    assert forall|i: int| 0 <= i < n implies #[trigger] hours[i] != Some(h) by {
        if hours[i] == Some(h) {
            assert(has_hour(before, h));
        }
    }
    lemma_no_positions(hours, n, h);
    assert(positions(hours, n + 1, h) =~= seq![n as usize]);
    assert forall|a: int, b: int| 0 <= a < b < after.len() implies (#[trigger] after[a]).hour < (
    #[trigger] after[b]).hour by {
        let x = if a < k {
            a
        } else {
            a - 1
        };
        let y = if b < k {
            b
        } else {
            b - 1
        };
        if a == k {
            assert(after[b] == before[y]);
        } else if b == k {
            assert(after[a] == before[x]);
            if x < k - 1 {
                assert(before[x].hour < before[k - 1].hour);
            }
        } else {
            assert(after[a] == before[x] && after[b] == before[y]);
        }
    }
    assert forall|g: int| 0 <= g < after.len() implies (#[trigger] after[g]).rows@ == positions(
        hours,
        n + 1,
        after[g].hour,
    ) && after[g].rows@.len() > 0 by {
        if g != k {
            let x = if g < k {
                g
            } else {
                g - 1
            };
            assert(after[g] == before[x]);
            assert(before[x].rows@ == positions(hours, n, before[x].hour));
        }
    }
    assert forall|i: int| 0 <= i < n + 1 implies ((#[trigger] hours[i]) matches Some(x) ==> has_hour(
        after,
        x,
    )) by {
        if hours[i] is Some {
            let x = hours[i]->0;
            if i < n {
                assert(has_hour(before, x));
                let g = choose|g: int| 0 <= g < before.len() && (#[trigger] before[g]).hour == x;
                if g < k {
                    assert(after[g].hour == x);
                } else {
                    assert(after[g + 1].hour == x);
                }
            } else {
                assert(after[k].hour == x);
            }
        }
    }
}

/// Hours with use from which on extreme ones are cut off.
pub const ENOUGH_HOURS: usize = 12;

/// The numbers above zero, in order.
pub open spec fn positives(s: Seq<Real>) -> Seq<Real>
    decreases s.len(),
{
    if s.len() == 0 {
        Seq::empty()
    } else if zero().spec_lt(s.last()) {
        positives(s.drop_last()).push(s.last())
    } else {
        positives(s.drop_last())
    }
}

/// Numbers above zero are numbers.
proof fn lemma_positives(s: Seq<Real>)
    ensures
        all_numbers(positives(s)),
        positives(s).len() <= s.len(),
    decreases s.len(),
{
    if s.len() > 0 {
        lemma_positives(s.drop_last());
    }
}

/// The amounts of the hours with use, sorted, from which to tell what is extreme: none where
/// there are too few.
pub fn active_hours(values: &Vec<Real>) -> (r: Option<Vec<Real>>)
    ensures
        match r {
            Some(v) => positives(values@).len() >= ENOUGH_HOURS && sorted_as(positives(values@), v@)
                && v@.len() == positives(values@).len(),
            None => positives(values@).len() < ENOUGH_HOURS,
        },
{
    let mut v: Vec<Real> = Vec::new();
    assert(values@.take(0) =~= Seq::empty());
    for i in 0..values.len()
        invariant
            v@ == positives(values@.take(i as int)),
    {
        assert(values@.take(i + 1).drop_last() =~= values@.take(i as int));
        if values[i].positive() {
            v.push(values[i]);
        }
    }
    assert(values@.take(values@.len() as int) =~= values@);
    proof {
        lemma_positives(values@);
    }
    if v.len() >= ENOUGH_HOURS {
        Some(sort_numbers(v))
    } else {
        None
    }
}

/// An amount, cut off at a bound above zero.
pub open spec fn cut(x: Real, bound: Real) -> Real {
    if zero().spec_lt(bound) && bound.spec_lt(x) {
        bound
    } else {
        x
    }
}

/// The amounts, cut off at a bound above zero.
pub fn cut_off(values: &Vec<Real>, bound: Real) -> (r: Vec<Real>)
    ensures
        r@ == values@.map_values(|x: Real| cut(x, bound)),
{
    let mut out: Vec<Real> = Vec::new();
    let high = bound.positive();
    for i in 0..values.len()
        invariant
            high == zero().spec_lt(bound),
            out@.len() == i,
            forall|k: int| 0 <= k < i ==> #[trigger] out@[k] == cut(values@[k], bound),
    {
        if high && bound.lt(values[i]) {
            out.push(bound);
        } else {
            out.push(values[i]);
        }
    }
    assert(out@ =~= values@.map_values(|x: Real| cut(x, bound)));
    out
}

/// The amounts with one of them raised, where it is above zero already: so it is among those
/// above zero.
proof fn lemma_positives_raised(s: Seq<Real>, i: int, y: Real) -> (j: int)
    requires
        0 <= i < s.len(),
        zero().spec_lt(s[i]),
        s[i].spec_lt(y),
    ensures
        0 <= j < positives(s).len(),
        positives(s)[j] == s[i],
        positives(s.update(i, y)) == positives(s).update(j, y),
    decreases s.len(),
{
    let t = s.update(i, y);
    if i == s.len() - 1 {
        assert(t.drop_last() =~= s.drop_last());
        let j = positives(s.drop_last()).len() as int;
        assert(positives(t) =~= positives(s).update(j, y));
        j
    } else {
        let j = lemma_positives_raised(s.drop_last(), i, y);
        assert(t.drop_last() =~= s.drop_last().update(i, y));
        assert(t.last() == s.last());
        assert(positives(t) =~= positives(s).update(j, y));
        j
    }
}

/// Whether `d` holds the distances of the amounts `s` from `med`, one by one, as `dist` gives
/// them.
pub open spec fn distances<D: Fn(Real, Real) -> Real>(
    dist: D,
    s: Seq<Real>,
    med: Real,
    d: Seq<Real>,
) -> bool {
    d.len() == s.len() && forall|i: int|
        0 <= i < s.len() ==> call_ensures(dist, (#[trigger] s[i], med), d[i])
}

/// Whether the hours with use, sorted to `s`, tell what is extreme: `med` is in the middle of
/// them, `mad` in the middle of their distances `d` from it, and `b` the bound that follows.
pub open spec fn extremes_told<D: Fn(Real, Real) -> Real, B: Fn(Real, Real) -> Real>(
    values: Seq<Real>,
    dist: D,
    bound: B,
    s: Seq<Real>,
    med: Real,
    d: Seq<Real>,
    mad: Real,
    b: Real,
) -> bool {
    &&& positives(values).len() >= ENOUGH_HOURS
    &&& sorted_as(positives(values), s)
    &&& s.len() == positives(values).len()
    &&& med == s[(s.len() / 2) as int]
    &&& distances(dist, s, med, d)
    &&& is_middle(d, mad)
    &&& call_ensures(bound, (med, mad), b)
}

/// Whether `out` are the amounts with extreme ones cut off: all as they are where too few
/// hours have use to tell.
pub open spec fn extremes_cut<D: Fn(Real, Real) -> Real, B: Fn(Real, Real) -> Real>(
    values: Seq<Real>,
    dist: D,
    bound: B,
    out: Seq<Real>,
) -> bool {
    if positives(values).len() < ENOUGH_HOURS {
        out == values
    } else {
        exists|s: Seq<Real>, med: Real, d: Seq<Real>, mad: Real, b: Real|
            #[trigger] extremes_told(values, dist, bound, s, med, d, mad, b) && out
                == values.map_values(|x: Real| cut(x, b))
    }
}

/// The amounts of the hours with extreme ones cut off. `dist` gives the distance of an amount
/// from the middle, `bound` the bound that follows from the middle and the distance in the
/// middle.
pub fn without_extremes<D: Fn(Real, Real) -> Real, B: Fn(Real, Real) -> Real>(
    values: Vec<Real>,
    dist: D,
    bound: B,
) -> (r: Vec<Real>)
    requires
        forall|x: Real, m: Real| call_requires(dist, (x, m)),
        forall|m: Real, d: Real| call_requires(bound, (m, d)),
    ensures
        extremes_cut(values@, dist, bound, r@),
{
    let active = match active_hours(&values) {
        Some(v) => v,
        None => return values,
    };
    let med = active[active.len() / 2];
    let mut d: Vec<Real> = Vec::new();
    for i in 0..active.len()
        invariant
            forall|x: Real, m: Real| call_requires(dist, (x, m)),
            d@.len() == i,
            forall|k: int| 0 <= k < i ==> call_ensures(dist, (#[trigger] active@[k], med), d@[k]),
    {
        d.push(dist(active[i], med));
    }
    let ghost all = d@;
    match middle(d) {
        Some(mad) => {
            let b = bound(med, mad);
            let out = cut_off(&values, b);
            assert(extremes_told(values@, dist, bound, active@, med, all, mad, b));
            out
        },
        None => values,
    }
}

/// With `med` in the middle of the hours with use, `mad` in the middle of their distances from
/// it, and an hour further from the middle than these, a larger amount in that hour leaves
/// both middles where they are.
proof fn lemma_middles_stay(
    values: Seq<Real>,
    i: int,
    y: Real,
    med: Real,
    dist: spec_fn(Real) -> Real,
    mad: Real,
)
    requires
        0 <= i < values.len(),
        zero().spec_lt(values[i]),
        values[i].spec_lt(y),
        in_the_middle(positives(values), med),
        med.spec_lt(values[i]),
        all_numbers(positives(values).map_values(dist)),
        in_the_middle(positives(values).map_values(dist), mad),
        mad.spec_lt(dist(values[i])),
        dist(values[i]).spec_le(dist(y)),
    ensures
        ({
            let raised = values.update(i, y);
            &&& positives(raised).len() == positives(values).len()
            &&& in_the_middle(positives(raised), med)
            &&& all_numbers(positives(raised).map_values(dist))
            &&& in_the_middle(positives(raised).map_values(dist), mad)
        }),
{
    let raised = values.update(i, y);
    let p = positives(values);
    lemma_positives(values);
    let j = lemma_positives_raised(values, i, y);
    law_middle_ignores_growth(p, j, y, med);
    let d = p.map_values(dist);
    assert(d[j] == dist(p[j]));
    assert(positives(raised).map_values(dist) =~= d.update(j, dist(y)));
    law_middle_ignores_growth(d, j, dist(y), mad);
}

/// Values that are the same but for their order are so too after each is mapped.
proof fn lemma_mapped_alike(s: Seq<Real>, t: Seq<Real>, f: spec_fn(Real) -> Real)
    requires
        s.to_multiset() == t.to_multiset(),
    ensures
        s.map_values(f).to_multiset() == t.map_values(f).to_multiset(),
        s.len() == t.len(),
    decreases s.len(),
{
    s.to_multiset_ensures();
    t.to_multiset_ensures();
    if s.len() == 0 {
        assert(s.map_values(f) =~= t.map_values(f));
    } else {
        let x = s.last();
        let l = s.len() - 1;
        assert(s.contains(x));
        assert(s.to_multiset().count(x) > 0);
        assert(t.contains(x));
        let p = choose|p: int| 0 <= p < t.len() && t[p] == x;
        assert(s.remove(l).to_multiset() == t.remove(p).to_multiset());
        lemma_mapped_alike(s.remove(l), t.remove(p), f);
        let (u, v) = (s.map_values(f), t.map_values(f));
        assert(u.remove(l) =~= s.remove(l).map_values(f));
        assert(v.remove(p) =~= t.remove(p).map_values(f));
        assert(u =~= u.remove(l).insert(l, f(x)));
        assert(v =~= v.remove(p).insert(p, f(x)));
        vstd::seq_lib::to_multiset_insert(u.remove(l), l, f(x));
        vstd::seq_lib::to_multiset_insert(v.remove(p), p, f(x));
    }
}

/// What is in the middle does not depend on the order.
proof fn lemma_middle_alike(s: Seq<Real>, t: Seq<Real>, m: Real)
    requires
        s.to_multiset() == t.to_multiset(),
        s.len() == t.len(),
        in_the_middle(s, m),
    ensures
        in_the_middle(t, m),
{
    let u = choose|u: Seq<Real>|
        #[trigger] sorted_as(s, u) && u.len() == s.len() && m == u[(s.len() / 2) as int];
    assert(sorted_as(t, u));
}

/// Whether a function of two numbers always gives the same for the same.
pub open spec fn settled<F: Fn(Real, Real) -> Real>(f: F) -> bool {
    forall|a: Real, b: Real, p: Real, q: Real|
        #[trigger] call_ensures(f, (a, b), p) && #[trigger] call_ensures(f, (a, b), q) ==> p == q
}

/// A spike has no further influence once it is extreme, however large it grows. Let an hour be
/// above the bound that is cut off at, above the middle of the hours with use, and further from
/// it than the distance in the middle. A larger amount in that hour, no closer to the middle,
/// leaves the amounts that are fitted to as they are, one by one, and so what is fitted.
pub proof fn law_spike_changes_nothing<D: Fn(Real, Real) -> Real, B: Fn(Real, Real) -> Real>(
    values: Seq<Real>,
    i: int,
    y: Real,
    dist: D,
    bound: B,
    s: Seq<Real>,
    med: Real,
    d: Seq<Real>,
    mad: Real,
    b: Real,
    out: Seq<Real>,
    p: Real,
    q: Real,
)
    requires
        settled(dist),
        settled(bound),
        extremes_told(values, dist, bound, s, med, d, mad, b),
        0 <= i < values.len(),
        values[i].spec_lt(y),
        zero().spec_lt(b),
        b.spec_lt(values[i]),
        med.spec_lt(values[i]),
        forall|k: int| 0 <= k < d.len() ==> zero().spec_le(#[trigger] d[k]) && !d[k].negative(),
        call_ensures(dist, (values[i], med), p),
        call_ensures(dist, (y, med), q),
        mad.spec_lt(p),
        p.spec_le(q),
        extremes_cut(values.update(i, y), dist, bound, out),
    ensures
        out == values.map_values(|x: Real| cut(x, b)),
        extremes_cut(values, dist, bound, out),
{
    let raised = values.update(i, y);
    let pos = positives(values);
    let pos2 = positives(raised);
    let f = |x: Real| choose|r: Real| call_ensures(dist, (x, med), r);
    assert(d =~= s.map_values(f)) by {
        assert forall|k: int| 0 <= k < s.len() implies #[trigger] d[k] == f(s[k]) by {
            assert(call_ensures(dist, (s[k], med), d[k]));
        }
    }
    assert(f(values[i]) == p);
    assert(f(y) == q);
    assert(in_the_middle(pos, med));
    assert(all_numbers(d));
    assert(in_the_middle(d, mad));
    lemma_mapped_alike(s, pos, f);
    let mapped = pos.map_values(f);
    lemma_middle_alike(d, mapped, mad);
    lemma_not_negative(d, mapped);
    lemma_middles_stay(values, i, y, med, f, mad);
    lemma_positives(values);
    lemma_positives(raised);
    let (s2, med2, d2, mad2, b2) = choose|
        s2: Seq<Real>,
        med2: Real,
        d2: Seq<Real>,
        mad2: Real,
        b2: Real,
    |
        #[trigger] extremes_told(raised, dist, bound, s2, med2, d2, mad2, b2) && out
            == raised.map_values(|x: Real| cut(x, b2));
    assert(in_the_middle(pos2, med2));
    law_one_middle(pos2, med, med2);
    lemma_middle_positive(raised, med);
    lemma_middle_positive(raised, med2);
    assert(med2 == med);
    assert(d2 =~= s2.map_values(f)) by {
        assert forall|k: int| 0 <= k < s2.len() implies #[trigger] d2[k] == f(s2[k]) by {
            assert(call_ensures(dist, (s2[k], med2), d2[k]));
        }
    }
    lemma_mapped_alike(pos2, s2, f);
    let mapped2 = pos2.map_values(f);
    let j = lemma_positives_raised(values, i, y);
    assert(mapped2 =~= mapped.update(j, q));
    assert(mapped[j] == p);
    lemma_not_negative(mapped2, d2);
    law_middle(mapped2, mad);
    lemma_middle_alike(mapped2, d2, mad);
    assert(in_the_middle(d2, mad2));
    law_one_middle(d2, mad, mad2);
    law_middle(d2, mad);
    law_middle(d2, mad2);
    assert(mad2 == mad);
    assert(b2 == b);
    assert(out =~= values.map_values(|x: Real| cut(x, b)));
}

/// Numbers that are not negative are so in any order.
proof fn lemma_not_negative(s: Seq<Real>, t: Seq<Real>)
    requires
        s.to_multiset() == t.to_multiset(),
        forall|k: int| 0 <= k < s.len() ==> zero().spec_le(#[trigger] s[k]) && !s[k].negative(),
    ensures
        forall|k: int| 0 <= k < t.len() ==> zero().spec_le(#[trigger] t[k]) && !t[k].negative(),
        all_numbers(t),
{
    s.to_multiset_ensures();
    t.to_multiset_ensures();
    assert forall|k: int| 0 <= k < t.len() implies zero().spec_le(#[trigger] t[k])
        && !t[k].negative() by {
        assert(t.contains(t[k]));
        assert(t.to_multiset().count(t[k]) > 0);
        assert(s.contains(t[k]));
    }
}

/// What is in the middle of the hours with use is above zero.
proof fn lemma_middle_positive(values: Seq<Real>, m: Real)
    requires
        positives(values).len() > 0,
        in_the_middle(positives(values), m),
    ensures
        zero().spec_lt(m),
{
    law_middle(positives(values), m);
    lemma_above_zero(values);
}

/// Each of the numbers above zero is.
proof fn lemma_above_zero(s: Seq<Real>)
    ensures
        forall|k: int| 0 <= k < positives(s).len() ==> zero().spec_lt(#[trigger] positives(s)[k]),
    decreases s.len(),
{
    if s.len() > 0 {
        lemma_above_zero(s.drop_last());
        let before = positives(s.drop_last());
        assert forall|k: int| 0 <= k < positives(s).len() implies zero().spec_lt(
            #[trigger] positives(s)[k],
        ) by {
            if k < before.len() {
                assert(positives(s)[k] == before[k]);
            }
        }
    }
}

/// An hour of the history: its day of the week and hour, and the group of its events, if it
/// has any.
#[derive(Debug, Clone, Copy, PartialEq, Eq, Structural)]
pub struct Cell {
    pub weekday: u32,
    pub hour: u32,
    pub group: Option<usize>,
}

/// Whether a cell is the hour `h` of the history.
pub open spec fn is_cell(c: Cell, tz: Seq<char>, groups: Seq<HourGroup>, h: i64) -> bool {
    let l = local_time(tz, Timestamp { secs: h, nanos: 0 });
    &&& c.weekday == l.weekday
    &&& c.hour == l.hour
    &&& match c.group {
        Some(g) => g < groups.len() && groups[g as int].hour == h,
        None => !has_hour(groups, h),
    }
}

/// The number of hours from the first with events to that of `now`, both counted.
pub open spec fn hours_covered(groups: Seq<HourGroup>, now_hour: i64) -> int {
    if groups.len() == 0 || now_hour < groups[0].hour {
        0
    } else {
        (now_hour - groups[0].hour) / HOUR as int + 1
    }
}

/// Every hour from the first with events to that of `now`.
pub fn covered_hours(tz: &str, groups: &Vec<HourGroup>, now: Timestamp) -> (r: Vec<Cell>)
    requires
        now.wf(),
        forall|a: int, b: int|
            0 <= a < b < groups@.len() ==> (#[trigger] groups@[a]).hour < (#[trigger] groups@[b]).hour,
        groups@.len() > 0 ==> MIN_SECS <= groups@[0].hour,
    ensures
        r@.len() == hours_covered(groups@, hour_of_secs(now.secs)),
        forall|i: int|
            0 <= i < r@.len() ==> is_cell(
                #[trigger] r@[i],
                tz@,
                groups@,
                (groups@[0].hour + i * HOUR) as i64,
            ) && r@[i].weekday < 7 && r@[i].hour < 24,
{
    let mut out: Vec<Cell> = Vec::new();
    if groups.len() == 0 {
        return out;
    }
    let now_hour: i64 = hour_start(now);
    let first: i64 = groups[0].hour;
    let mut h: i64 = first;
    let mut p: usize = 0;
    while h <= now_hour
        invariant
            now.wf(),
            now_hour <= MAX_SECS,
            MIN_SECS <= first,
            first == groups@[0].hour,
            first <= h,
            h == first + out@.len() * HOUR,
            h <= now_hour + HOUR || out@.len() == 0,
            p <= groups@.len(),
            forall|a: int, b: int|
                0 <= a < b < groups@.len() ==> (#[trigger] groups@[a]).hour < (
                #[trigger] groups@[b]).hour,
            forall|g: int| 0 <= g < p ==> (#[trigger] groups@[g]).hour < h,
            forall|i: int|
                0 <= i < out@.len() ==> is_cell(
                    #[trigger] out@[i],
                    tz@,
                    groups@,
                    (first + i * HOUR) as i64,
                ) && out@[i].weekday < 7 && out@[i].hour < 24,
        decreases now_hour - h + HOUR,
    {
        while p < groups.len() && groups[p].hour < h
            invariant
                p <= groups@.len(),
                forall|g: int| 0 <= g < p ==> (#[trigger] groups@[g]).hour < h,
            ensures
                p <= groups@.len(),
                forall|g: int| 0 <= g < p ==> (#[trigger] groups@[g]).hour < h,
                p < groups@.len() ==> groups@[p as int].hour >= h,
            decreases groups.len() - p,
        {
            p = p + 1;
        }
        let group = if p < groups.len() && groups[p].hour == h {
            Some(p)
        } else {
            None
        };
        assert(group is None ==> !has_hour(groups@, h)) by {
            if group is None && has_hour(groups@, h) {
                let g = choose|g: int| 0 <= g < groups@.len() && (#[trigger] groups@[g]).hour == h;
                assert(g >= p);
                if g > p {
                    assert(groups@[p as int].hour < groups@[g].hour);
                }
            }
        }
        let l = local_time_at(tz, Timestamp { secs: h, nanos: 0 });
        out.push(Cell { weekday: l.weekday, hour: l.hour, group });
        h = h + HOUR;
    }
    proof {
        if first <= now_hour {
            let n = out@.len() as int;
            vstd::arithmetic::div_mod::lemma_fundamental_div_mod_converse(
                now_hour - first,
                HOUR as int,
                n - 1,
                now_hour - first - (n - 1) * HOUR,
            );
        }
    }
    out
}

// ---------------------------------------------------------------------------
// What the parts of a projection are
// ---------------------------------------------------------------------------

/// In every zone, each stretch of a projection is read from one and the same cell: its rate and
/// its variance are those of the weekday and the hour that the clock of the model's zone shows
/// where the stretch starts. It lasts its whole seconds, within that hour of the clock.
pub proof fn law_segments_by_the_local_clock(m: RateModel, now: Timestamp, upto: Timestamp, i: int)
    requires
        segments(m, now, upto) is Some,
        0 <= i < segments(m, now, upto)->0.len(),
    ensures
        ({
            let g = segments(m, now, upto)->0[i];
            let l = zone_clock(zone_of(m.tz@), g.from.secs as int);
            let start = zone_hour(
                zone_of(m.tz@),
                l.year as int,
                l.month as int,
                l.day as int,
                l.hour as int,
            );
            &&& g.rate == m.lambda[l.weekday as int][l.hour as int]
            &&& g.variance == m.var[l.weekday as int][l.hour as int]
            &&& g.secs == g.until.spec_seconds_since(g.from) as i64
            &&& g.from.spec_lt(g.until)
            &&& g.until.spec_le(upto)
            &&& start matches Some(s) ==> g.until == upto || g.until == (Timestamp {
                secs: (s + 3600) as i64,
                nanos: 0,
            })
            &&& start is None ==> g.until == upto || g.until == g.from.shifted(3600)
        }),
    decreases distance(now, upto),
{
    let end = segment_end(m.tz@, now, upto)->0;
    let rest = segments(m, end, upto)->0;
    let s = segments(m, now, upto)->0;
    assert(s == seq![segment_of(m, now, end)] + rest);
    if i > 0 {
        assert(s[i] == rest[i - 1]);
        law_segments_by_the_local_clock(m, end, upto, i - 1);
    }
}

/// Two models with the same rates and variances in one zone give the same stretches, so that
/// nothing but these counts; doubling the history changes nothing.
pub proof fn law_segments_need_only_the_rates(m: RateModel, other: RateModel, now: Timestamp, upto: Timestamp)
    requires
        m.lambda == other.lambda,
        m.var == other.var,
        zone_of(m.tz@) == zone_of(other.tz@),
    ensures
        segments(m, now, upto) == segments(other, now, upto),
    decreases distance(now, upto),
{
    if now.spec_lt(upto) && now.nanos < 2_000_000_000 && upto.nanos < 2_000_000_000 {
        assert(segment_end(m.tz@, now, upto) == segment_end(other.tz@, now, upto));
        if let Some(end) = segment_end(m.tz@, now, upto) {
            if now.spec_lt(end) && end.nanos < 2_000_000_000 {
                law_segments_need_only_the_rates(m, other, end, upto);
            }
        }
    }
}

/// There is something to project from as soon as any hour of any day has a rate above zero,
/// and weeks of history behind it; otherwise there is not.
pub proof fn law_fitted(m: RateModel, d: int, h: int)
    requires
        0 <= d < 7,
        0 <= h < 24,
    ensures
        zero().spec_lt(m.lambda[d][h]) && zero().spec_lt(m.weeks) ==> m.is_fitted(),
        !zero().spec_lt(m.weeks) ==> !m.is_fitted(),
        (forall|a: int, b: int|
            0 <= a < 7 && 0 <= b < 24 ==> !zero().spec_lt(#[trigger] m.lambda[a][b]))
            ==> !m.is_fitted(),
{
}

/// The hour of a time that can be read is the full hour at or before it, less than an hour
/// away; a time that cannot be read has none.
pub proof fn law_hour_of_text(s: Seq<char>)
    ensures
        rfc3339_instant(s) matches Some(t) ==> t.wf() ==> (text_hour(s) matches Some(h) && h <= t.secs
            < h + 3600 && h as int % 3600 == 0),
        rfc3339_instant(s) is None ==> text_hour(s) is None,
{
}

/// Every event whose hour is known is in the group of that hour, once, and no other event is:
/// the positions of a group rise, are of its hour, and leave out none.
pub proof fn law_groups(hours: Seq<Option<i64>>, n: int, groups: Seq<HourGroup>, g: int, i: int)
    requires
        grouped(hours, n, groups),
        0 <= n <= hours.len() <= usize::MAX,
        0 <= g < groups.len(),
        0 <= i < n,
    ensures
        hours[i] == Some(groups[g].hour) <==> groups[g].rows@.contains(i as usize),
        groups[g].rows@.len() > 0,
        g > 0 ==> groups[g - 1].hour < groups[g].hour,
        forall|a: int, b: int|
            0 <= a < b < groups[g].rows@.len() ==> (#[trigger] groups[g].rows@[a]) < (
            #[trigger] groups[g].rows@[b]),
        forall|a: int|
            0 <= a < groups[g].rows@.len() ==> hours[(#[trigger] groups[g].rows@[a]) as int] == Some(
                groups[g].hour,
            ),
        hours[i] matches Some(h) ==> exists|k: int|
            0 <= k < groups.len() && (#[trigger] groups[k]).hour == h,
{
    lemma_positions_are(hours, n, groups[g].hour);
    assert(groups[g].rows@ == positions(hours, n, groups[g].hour));
    if let Some(h) = hours[i] {
        assert(has_hour(groups, h));
    }
}

/// Positions of an hour rise, are of that hour, and leave out none.
proof fn lemma_positions_are(hours: Seq<Option<i64>>, n: int, h: i64)
    requires
        0 <= n <= hours.len() <= usize::MAX,
    ensures
        ({
            let p = positions(hours, n, h);
            &&& forall|a: int| 0 <= a < p.len() ==> 0 <= (#[trigger] p[a]) < n && hours[p[a] as int]
                == Some(h)
            &&& forall|a: int, b: int| 0 <= a < b < p.len() ==> (#[trigger] p[a]) < (#[trigger] p[b])
            &&& forall|i: int|
                0 <= i < n && (#[trigger] hours[i]) == Some(h) ==> p.contains(i as usize)
        }),
    decreases n,
{
    if n > 0 {
        lemma_positions_are(hours, n - 1, h);
        let q = positions(hours, n - 1, h);
        let p = positions(hours, n, h);
        assert forall|i: int| 0 <= i < n && (#[trigger] hours[i]) == Some(h) implies p.contains(
            i as usize,
        ) by {
            if i < n - 1 {
                let k = choose|k: int| 0 <= k < q.len() && q[k] == i as usize;
                assert(p[k] == i as usize);
            } else {
                assert(p[p.len() - 1] == i as usize);
            }
        }
    }
}

/// The history is walked hour by hour from the first with events to that of now, none left out
/// and none past it. A cell is that of the weekday and hour that the clocks of the zone show at
/// its hour, with the events of that very hour, if it has any.
pub proof fn law_covered_hours(
    c: Cell,
    tz: Seq<char>,
    groups: Seq<HourGroup>,
    h: i64,
    now_hour: i64,
)
    requires
        is_cell(c, tz, groups, h),
        groups.len() > 0,
        groups[0].hour <= now_hour,
    ensures
        ({
            let l = zone_clock(zone_of(tz), h as int);
            let n = hours_covered(groups, now_hour);
            &&& c.weekday == l.weekday
            &&& c.hour == l.hour
            &&& c.group matches Some(g) ==> g < groups.len() && groups[g as int].hour == h
            &&& c.group is None ==> forall|g: int|
                0 <= g < groups.len() ==> (#[trigger] groups[g]).hour != h
            &&& groups[0].hour + (n - 1) * 3600 <= now_hour < groups[0].hour + n * 3600
        }),
{
    if c.group is None {
        assert forall|g: int| 0 <= g < groups.len() implies (#[trigger] groups[g]).hour != h by {
            if groups[g].hour == h {
                assert(has_hour(groups, h));
            }
        }
    }
}

/// Nothing is covered before the first event.
pub proof fn law_nothing_covered(groups: Seq<HourGroup>, now_hour: i64)
    requires
        groups.len() == 0 || now_hour < groups[0].hour,
    ensures
        hours_covered(groups, now_hour) == 0,
{
}

/// Hours without use count for nothing when it is told what is extreme: the numbers above zero
/// are all there, one for each, in their order.
pub proof fn law_positives(a: Seq<Real>, b: Seq<Real>, x: Real)
    ensures
        positives(a + b) == positives(a) + positives(b),
        zero().spec_lt(x) ==> positives(seq![x]) == seq![x],
        !zero().spec_lt(x) ==> positives(seq![x]).len() == 0,
    decreases b.len(),
{
    assert(seq![x].drop_last() =~= Seq::<Real>::empty());
    assert(positives(Seq::<Real>::empty()) =~= Seq::empty());
    assert(positives(seq![x]) =~= if zero().spec_lt(x) {
        seq![x]
    } else {
        Seq::empty()
    });
    if b.len() == 0 {
        assert(a + b =~= a);
        assert(positives(a) + positives(b) =~= positives(a));
    } else {
        law_positives(a, b.drop_last(), x);
        assert((a + b).drop_last() =~= a + b.drop_last());
        assert((a + b).last() == b.last());
        assert(positives(a + b) =~= positives(a) + positives(b));
    }
}

/// An amount above a bound becomes the bound, every other stays, and a bound that is not above
/// zero changes nothing: so no amount grows, and none is left above a bound.
pub proof fn law_cut(x: Real, bound: Real)
    requires
        !x.is_nan(),
        !bound.is_nan(),
    ensures
        cut(x, bound).spec_le(x),
        zero().spec_lt(bound) ==> cut(x, bound).spec_le(bound),
        x.spec_le(bound) ==> cut(x, bound) == x,
        zero().spec_lt(bound) && bound.spec_lt(x) ==> cut(x, bound) == bound,
        !zero().spec_lt(bound) ==> cut(x, bound) == x,
{
}

/// With use in fewer than twelve hours nothing is extreme and the amounts stay; otherwise each
/// is cut off at one bound, which follows from the middle of the hours with use and the middle
/// of their distances from it.
pub proof fn law_extremes<D: Fn(Real, Real) -> Real, B: Fn(Real, Real) -> Real>(
    values: Seq<Real>,
    dist: D,
    bound: B,
    out: Seq<Real>,
)
    requires
        extremes_cut(values, dist, bound, out),
    ensures
        positives(values).len() < 12 ==> out == values,
        positives(values).len() >= 12 ==> exists|med: Real, d: Seq<Real>, mad: Real, b: Real| #[trigger]
            told_by(values, dist, bound, out, med, d, mad, b),
        out.len() == values.len(),
{
    if positives(values).len() >= 12 {
        let (s, med, d, mad, b) = choose|
            s: Seq<Real>,
            med: Real,
            d: Seq<Real>,
            mad: Real,
            b: Real,
        |
            #[trigger] extremes_told(values, dist, bound, s, med, d, mad, b) && out
                == values.map_values(|x: Real| cut(x, b));
        assert(in_the_middle(positives(values), med));
        s.to_multiset_ensures();
        positives(values).to_multiset_ensures();
        assert forall|x: Real| #[trigger] positives(values).contains(x) implies exists|p: Real|
            d.contains(p) && #[trigger] call_ensures(dist, (x, med), p) by {
            assert(positives(values).to_multiset().count(x) > 0);
            assert(s.contains(x));
            let k = choose|k: int| 0 <= k < s.len() && s[k] == x;
            assert(call_ensures(dist, (s[k], med), d[k]));
            assert(d.contains(d[k]));
        }
        assert(told_by(values, dist, bound, out, med, d, mad, b));
    }
}

/// Whether amounts are cut off at a bound `b` that `med` and `mad` give: the one in the middle of
/// the hours with use, and the one in the middle of the distances of all of these from it.
pub open spec fn told_by<D: Fn(Real, Real) -> Real, B: Fn(Real, Real) -> Real>(
    values: Seq<Real>,
    dist: D,
    bound: B,
    out: Seq<Real>,
    med: Real,
    d: Seq<Real>,
    mad: Real,
    b: Real,
) -> bool {
    &&& in_the_middle(positives(values), med)
    &&& d.len() == positives(values).len()
    &&& forall|x: Real| #[trigger]
        positives(values).contains(x) ==> exists|p: Real|
            d.contains(p) && #[trigger] call_ensures(dist, (x, med), p)
    &&& is_middle(d, mad)
    &&& call_ensures(bound, (med, mad), b)
    &&& out.len() == values.len()
    &&& forall|i: int| 0 <= i < out.len() ==> #[trigger] out[i] == cut(values[i], b)
}

/// A projection exists wherever the clocks of the zone tell the start of every hour on the way,
/// and the calendar reaches an hour beyond it, in every zone alike.
pub proof fn law_projection_exists(m: RateModel, now: Timestamp, upto: Timestamp)
    requires
        now.wf(),
        upto.wf(),
        upto.secs + HOUR <= MAX_SECS,
        forall|x: int|
            now.secs <= x <= upto.secs ==> {
                let l = #[trigger] zone_clock(zone_of(m.tz@), x);
                zone_hour(
                    zone_of(m.tz@),
                    l.year as int,
                    l.month as int,
                    l.day as int,
                    l.hour as int,
                ) matches Some(h) && h <= x < h + HOUR && MIN_SECS <= h
            },
    ensures
        segments(m, now, upto) is Some,
        now.spec_lt(upto) ==> segments(m, now, upto)->0.len() > 0,
    decreases distance(now, upto),
{
    if now.spec_lt(upto) {
        let l = zone_clock(zone_of(m.tz@), now.secs as int);
        let end = segment_end(m.tz@, now, upto)->0;
        assert(now.spec_lt(end));
        assert(end.wf());
        law_projection_exists(m, end, upto);
    }
}

/// Half a year of history counts.
pub proof fn law_lookback()
    ensures
        MODEL_LOOKBACK_WEEKS * WEEK == 26 * 7 * 86_400,
        ENOUGH_HOURS == 12,
{
}

} // verus!
