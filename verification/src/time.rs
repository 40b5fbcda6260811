//! Instants, their arithmetic, their text form and their reading in a time zone.

use chrono::{Datelike, TimeZone, Timelike};
use vstd::prelude::*;

verus! {

/// Nanoseconds in a second.
pub const NANOS: u32 = 1_000_000_000;

/// Seconds in an hour.
pub const HOUR: i64 = 3600;

/// Seconds in a day.
pub const DAY: i64 = 86_400;

/// The first second of the calendar, 1 January -262143.
pub const MIN_SECS: i64 = -8_334_601_228_800;

/// The last second of the calendar, at the end of 31 December 262142.
pub const MAX_SECS: i64 = 8_210_266_876_799;

/// The first second of the year 0.
pub const YEAR_0: i64 = -62_167_219_200;

/// The last second of the year 9999.
pub const YEAR_9999: i64 = 253_402_300_799;

/// An instant in UTC: seconds since the start of 1970 and nanoseconds into the
/// second. Within a leap second the nanoseconds are a whole second or more.
#[derive(Debug, Clone, Copy, PartialEq, Eq, Structural)]
pub struct Timestamp {
    pub secs: i64,
    pub nanos: u32,
}

impl Timestamp {
    /// Whether the instant lies in a leap second.
    pub open spec fn leap(self) -> bool {
        self.nanos >= NANOS
    }

    /// Whether the instant is one of the calendar: leap seconds follow second 59.
    pub open spec fn wf(self) -> bool {
        &&& MIN_SECS <= self.secs <= MAX_SECS
        &&& self.nanos < 2 * NANOS
        &&& self.leap() ==> self.secs % 60 == 59
    }

    /// Strictly earlier.
    pub open spec fn spec_lt(self, other: Timestamp) -> bool {
        self.secs < other.secs || (self.secs == other.secs && self.nanos < other.nanos)
    }

    /// Earlier or the same.
    pub open spec fn spec_le(self, other: Timestamp) -> bool {
        self.secs < other.secs || (self.secs == other.secs && self.nanos <= other.nanos)
    }

    /// The second that is `d` seconds away. From within a leap second, which ends where
    /// the next second starts, a step back counts from that next second.
    pub open spec fn shifted_secs(self, d: int) -> int {
        if self.leap() && d < 0 {
            self.secs + d + 1
        } else {
            self.secs + d
        }
    }

    /// The nanoseconds into that second: a step leaves the leap second.
    pub open spec fn shifted_nanos(self, d: int) -> int {
        if self.leap() && d != 0 {
            self.nanos - NANOS
        } else {
            self.nanos as int
        }
    }

    /// Whether the instant `d` seconds away is still one of the calendar.
    pub open spec fn can_shift(self, d: int) -> bool {
        MIN_SECS <= self.shifted_secs(d) <= MAX_SECS
    }

    /// The instant `d` seconds away.
    pub open spec fn shifted(self, d: int) -> Timestamp {
        Timestamp { secs: self.shifted_secs(d) as i64, nanos: self.shifted_nanos(d) as u32 }
    }

    /// The leap second that lies between the two times of day and has to be counted.
    pub open spec fn leap_between(self, other: Timestamp) -> int {
        let (a, b) = (self.secs as int % DAY as int, other.secs as int % DAY as int);
        if a > b && other.leap() {
            1
        } else if a < b && self.leap() {
            -1
        } else {
            0
        }
    }

    /// The nanoseconds from `other` to this instant.
    pub open spec fn nanos_since(self, other: Timestamp) -> int {
        (self.secs - other.secs + self.leap_between(other)) * NANOS + self.nanos - other.nanos
    }

    /// The whole seconds from `other` to this instant, rounded towards zero.
    pub open spec fn spec_seconds_since(self, other: Timestamp) -> int {
        let n = self.nanos_since(other);
        if n >= 0 {
            n / (NANOS as int)
        } else {
            -((-n) / (NANOS as int))
        }
    }

    /// Strictly earlier.
    pub fn lt(self, other: Timestamp) -> (r: bool)
        ensures
            r == self.spec_lt(other),
    {
        self.secs < other.secs || (self.secs == other.secs && self.nanos < other.nanos)
    }

    /// Earlier or the same.
    pub fn le(self, other: Timestamp) -> (r: bool)
        ensures
            r == self.spec_le(other),
    {
        self.secs < other.secs || (self.secs == other.secs && self.nanos <= other.nanos)
    }

    /// The start of the second `secs`, where the calendar has it.
    pub fn from_epoch(secs: i64) -> (r: Option<Timestamp>)
        ensures
            r == if MIN_SECS <= secs <= MAX_SECS {
                Some(Timestamp { secs, nanos: 0 })
            } else {
                None
            },
    {
        if MIN_SECS <= secs && secs <= MAX_SECS {
            Some(Timestamp { secs, nanos: 0 })
        } else {
            None
        }
    }

    /// The instant `d` seconds away, where the calendar has it.
    pub fn checked_shift(self, d: i64) -> (r: Option<Timestamp>)
        requires
            self.wf(),
        ensures
            r == if self.can_shift(d as int) {
                Some(self.shifted(d as int))
            } else {
                None
            },
            r matches Some(t) ==> t.wf(),
    {
        let leap = self.nanos >= NANOS;
        let base: i128 = self.secs as i128 + d as i128;
        let secs: i128 = if leap && d < 0 {
            base + 1
        } else {
            base
        };
        let nanos: u32 = if leap && d != 0 {
            self.nanos - NANOS
        } else {
            self.nanos
        };
        if secs < MIN_SECS as i128 || secs > MAX_SECS as i128 {
            None
        } else {
            Some(Timestamp { secs: secs as i64, nanos })
        }
    }

    /// The instant `d` seconds away.
    pub fn shift(self, d: i64) -> (r: Timestamp)
        requires
            self.wf(),
            self.can_shift(d as int),
        ensures
            r == self.shifted(d as int),
            r.wf(),
    {
        let leap = self.nanos >= NANOS;
        let nanos: u32 = if leap && d != 0 {
            self.nanos - NANOS
        } else {
            self.nanos
        };
        let secs: i64 = if leap && d < 0 {
            self.secs + (d + 1)
        } else {
            self.secs + d
        };
        Timestamp { secs, nanos }
    }

    /// The whole seconds from `other` to this instant, rounded towards zero.
    pub fn seconds_since(self, other: Timestamp) -> (r: i64)
        requires
            self.wf(),
            other.wf(),
        ensures
            r == self.spec_seconds_since(other),
    {
        let a: i64 = euclid_rem(self.secs, DAY);
        let b: i64 = euclid_rem(other.secs, DAY);
        let mut secs: i64 = self.secs - other.secs;
        if a > b && other.nanos >= NANOS {
            secs = secs + 1;
        } else if a < b && self.nanos >= NANOS {
            secs = secs - 1;
        }
        let frac: i64 = self.nanos as i64 - other.nanos as i64;
        let total: i128 = secs as i128 * NANOS as i128 + frac as i128;
        if total >= 0 {
            (total / NANOS as i128) as i64
        } else {
            -(((-total) / NANOS as i128) as i64)
        }
    }
}

/// The remainder of `a` by a positive `m`, never negative.
pub fn euclid_rem(a: i64, m: i64) -> (r: i64)
    requires
        0 < m,
        -0x4000_0000_0000_0000 < a < 0x4000_0000_0000_0000,
        m < 0x4000_0000_0000_0000,
    ensures
        r == a as int % m as int,
        0 <= r < m,
{
    if a >= 0 {
        a % m
    } else {
        let k: i64 = (-a) % m;
        let r: i64 = if k == 0 {
            0
        } else {
            m - k
        };
        proof {
            let n = -(a as int);
            let d = m as int;
            let q = n / d;
            vstd::arithmetic::div_mod::lemma_fundamental_div_mod(n, d);
            if k == 0 {
                assert(a as int == (-q) * d) by (nonlinear_arith)
                    requires
                        -(a as int) == d * q,
                ;
                vstd::arithmetic::div_mod::lemma_fundamental_div_mod_converse(a as int, d, -q, 0);
            } else {
                assert(a as int == (-q - 1) * d + (d - k)) by (nonlinear_arith)
                    requires
                        -(a as int) == d * q + k,
                ;
                vstd::arithmetic::div_mod::lemma_fundamental_div_mod_converse(
                    a as int,
                    d,
                    -q - 1,
                    d - k,
                );
            }
        }
        r
    }
}

/// What `chrono::DateTime::parse_from_rfc3339` reads out of a text, as an instant in UTC.
pub uninterp spec fn rfc3339_instant(s: Seq<char>) -> Option<Timestamp>;

/// What `chrono::DateTime::to_rfc3339` writes for an instant in UTC.
pub uninterp spec fn rfc3339_text(t: Timestamp) -> Seq<char>;

/// Whether `chrono_tz` has a time zone of this name.
pub uninterp spec fn zone_known(name: Seq<char>) -> bool;

/// What the clocks of a zone show at the second `secs`, by `chrono_tz`.
pub uninterp spec fn zone_clock(zone: Seq<char>, secs: int) -> LocalTime;

/// The one second at which the clocks of a zone show the full hour `hour` of the given
/// day, by `chrono_tz`: none where they skip it or show it twice.
pub uninterp spec fn zone_hour(zone: Seq<char>, year: int, month: int, day: int, hour: int) -> Option<i64>;

/// What a clock shows, down to the hour. The week starts with Monday, day 0.
#[derive(Debug, Clone, Copy, PartialEq, Eq, Structural)]
pub struct LocalTime {
    pub year: i32,
    pub month: u32,
    pub day: u32,
    pub hour: u32,
    pub weekday: u32,
}

/// `chrono::DateTime::parse_from_rfc3339`, the result taken to UTC. The contract claims
/// that the instant is a function of the text and one of the calendar.
#[verifier::external_body]
fn parse_rfc3339(s: &str) -> (r: Option<Timestamp>)
    ensures
        r == rfc3339_instant(s@),
        r matches Some(t) ==> t.wf(),
{
    let d = chrono::DateTime::parse_from_rfc3339(s).ok()?;
    Some(Timestamp { secs: d.timestamp(), nanos: d.timestamp_subsec_nanos() })
}

/// `chrono::DateTime::to_rfc3339` in UTC. The contract claims that the text is a function
/// of the instant and that, where the year has four digits, reading it gives the instant back.
#[verifier::external_body]
fn to_rfc3339(t: Timestamp) -> (r: String)
    requires
        t.wf(),
    ensures
        r@ == rfc3339_text(t),
        YEAR_0 <= t.secs <= YEAR_9999 ==> rfc3339_instant(r@) == Some(t),
{
    chrono::DateTime::from_timestamp(t.secs, t.nanos).unwrap().to_rfc3339()
}

/// `chrono_tz::Tz::from_str`: whether the name is that of a zone. The contract claims
/// that this is a function of the name and that `UTC` is one.
#[verifier::external_body]
fn known_zone(name: &str) -> (r: bool)
    ensures
        r == zone_known(name@),
        name@ == "UTC"@ ==> r,
{
    name.parse::<chrono_tz::Tz>().is_ok()
}

/// The hour of the day at a second in UTC.
pub open spec fn utc_hour(secs: int) -> int {
    secs % DAY as int / HOUR as int
}

/// The day of the week at a second in UTC, Monday first: the first day of 1970 was a Thursday.
pub open spec fn utc_weekday(secs: int) -> int {
    (secs / DAY as int + 3) % 7
}

/// Whether a clock shows the given hour of the given day.
pub open spec fn shows(l: LocalTime, year: i32, month: u32, day: u32, hour: u32) -> bool {
    l.year == year && l.month == month && l.day == day && l.hour == hour
}

/// `chrono::DateTime::with_timezone` and the fields of the local time it gives. The
/// contract claims that they are a function of the zone and the second, that hours and
/// weekdays are in their ranges, and that in UTC they are those of the second.
#[verifier::external_body]
fn clock_of(zone: &str, secs: i64) -> (r: LocalTime)
    requires
        zone_known(zone@),
        MIN_SECS <= secs <= MAX_SECS,
    ensures
        r == zone_clock(zone@, secs as int),
        r.hour < 24,
        r.weekday < 7,
        zone@ == "UTC"@ ==> r.hour == utc_hour(secs as int) && r.weekday == utc_weekday(secs as int),
{
    let tz: chrono_tz::Tz = zone.parse().unwrap();
    let l = chrono::DateTime::from_timestamp(secs, 0).unwrap().with_timezone(&tz);
    LocalTime {
        year: l.year(),
        month: l.month(),
        day: l.day(),
        hour: l.hour(),
        weekday: l.weekday().num_days_from_monday(),
    }
}

/// `chrono::TimeZone::with_ymd_and_hms` at a full hour, where its result is single. The
/// contract claims that it is a function of the zone and the fields, in the calendar, and that
/// in UTC the hour that the clocks show at a second started where it is full.
#[verifier::external_body]
fn hour_of(zone: &str, year: i32, month: u32, day: u32, hour: u32) -> (r: Option<i64>)
    requires
        zone_known(zone@),
    ensures
        r == zone_hour(zone@, year as int, month as int, day as int, hour as int),
        r matches Some(s) ==> MIN_SECS <= s <= MAX_SECS,
        zone@ == "UTC"@ ==> forall|s: int|
            MIN_SECS <= s <= MAX_SECS && shows(
                #[trigger] zone_clock(zone@, s),
                year,
                month,
                day,
                hour,
            ) ==> r == Some((s - s % HOUR as int) as i64),
{
    let tz: chrono_tz::Tz = zone.parse().unwrap();
    tz.with_ymd_and_hms(year, month, day, hour, 0, 0).single().map(|d| d.timestamp())
}

/// The zone that a configured name stands for: an unknown name stands for UTC.
pub open spec fn zone_of(name: Seq<char>) -> Seq<char> {
    if zone_known(name) {
        name
    } else {
        "UTC"@
    }
}

/// The zone that a configured name stands for.
pub fn effective_zone(name: &str) -> (r: String)
    ensures
        r@ == zone_of(name@),
        zone_known(r@),
{
    let utc = "UTC";
    let have_utc = known_zone(utc);
    if known_zone(name) {
        name.to_owned()
    } else {
        utc.to_owned()
    }
}

/// What the clocks of the zone configured as `name` show at `t`.
pub open spec fn local_time(name: Seq<char>, t: Timestamp) -> LocalTime {
    zone_clock(zone_of(name), t.secs as int)
}

/// The start of the local hour of `l` in the zone configured as `name`, or of its local
/// day: none where the clocks skip it or show it twice.
pub open spec fn local_start(name: Seq<char>, l: LocalTime, daily: bool) -> Option<Timestamp> {
    let h = if daily {
        0
    } else {
        l.hour as int
    };
    match zone_hour(zone_of(name), l.year as int, l.month as int, l.day as int, h) {
        Some(s) => Some(Timestamp { secs: s, nanos: 0 }),
        None => None,
    }
}

/// What the clocks of the zone configured as `name` show at `t`.
pub fn local_time_at(name: &str, t: Timestamp) -> (r: LocalTime)
    requires
        t.wf(),
    ensures
        r == local_time(name@, t),
        r.hour < 24,
        r.weekday < 7,
        zone_of(name@) == "UTC"@ ==> r.hour == utc_hour(t.secs as int) && r.weekday == utc_weekday(
            t.secs as int,
        ),
{
    let zone = effective_zone(name);
    clock_of(zone.as_str(), t.secs)
}

/// The start of a local hour or day.
pub fn local_start_at(name: &str, l: LocalTime, daily: bool) -> (r: Option<Timestamp>)
    ensures
        r == local_start(name@, l, daily),
        r matches Some(t) ==> t.wf(),
        zone_of(name@) == "UTC"@ && !daily ==> forall|t: Timestamp|
            t.wf() && l == #[trigger] local_time(name@, t) ==> r == Some(
                Timestamp { secs: (t.secs - t.secs as int % HOUR as int) as i64, nanos: 0 },
            ),
{
    let zone = effective_zone(name);
    let h: u32 = if daily {
        0
    } else {
        l.hour
    };
    match hour_of(zone.as_str(), l.year, l.month, l.day, h) {
        Some(s) => Some(Timestamp { secs: s, nanos: 0 }),
        None => None,
    }
}

/// The instant that an optional text gives, else `default`.
pub open spec fn instant_or(s: Option<Seq<char>>, default: Timestamp) -> Timestamp {
    match s {
        Some(x) => match rfc3339_instant(x) {
            Some(t) => t,
            None => default,
        },
        None => default,
    }
}

/// The instant that a text names.
pub fn parse_dt(s: &str) -> (r: Option<Timestamp>)
    ensures
        r == rfc3339_instant(s@),
        r matches Some(t) ==> t.wf(),
{
    parse_rfc3339(s)
}

/// The instant that an optional text names, else `default`.
pub fn parse_dt_opt(s: &Option<String>, default: Timestamp) -> (r: Timestamp)
    requires
        default.wf(),
    ensures
        r == instant_or(
            match *s {
                Some(x) => Some(x@),
                None => None,
            },
            default,
        ),
        r.wf(),
{
    match s {
        Some(x) => match parse_rfc3339(x.as_str()) {
            Some(t) => t,
            None => default,
        },
        None => default,
    }
}

/// The text of an instant. Where the year has four digits, the text names the instant.
pub fn instant_text(t: Timestamp) -> (r: String)
    requires
        t.wf(),
    ensures
        r@ == rfc3339_text(t),
        YEAR_0 <= t.secs <= YEAR_9999 ==> rfc3339_instant(r@) == Some(t),
{
    to_rfc3339(t)
}

/// A step of whole seconds outside of leap seconds leads that many seconds on and no fraction,
/// whole seconds between two such instants are counted exactly, and a step there and the count
/// back agree.
pub proof fn law_steps(t: Timestamp, d: int, other: Timestamp)
    requires
        !t.leap(),
        !other.leap(),
    ensures
        t.can_shift(d) ==> t.shifted(d).secs == t.secs + d && t.shifted(d).nanos == t.nanos,
        t.can_shift(d) <==> MIN_SECS <= t.secs + d <= MAX_SECS,
        t.can_shift(d) ==> t.shifted(d).spec_seconds_since(t) == d,
        t.nanos == other.nanos ==> t.spec_seconds_since(other) == t.secs - other.secs,
        t.spec_lt(other) <==> t.secs < other.secs || t.secs == other.secs && t.nanos < other.nanos,
        t.spec_le(other) <==> !other.spec_lt(t),
{
    let n = t.secs - other.secs;
    assert(n * NANOS / NANOS as int == n);
    assert((-n) * NANOS / NANOS as int == -n);
    assert(d * NANOS / NANOS as int == d);
    assert((-d) * NANOS / NANOS as int == -d);
}

/// A text that names an instant wins over what stands for it, which counts otherwise.
pub proof fn law_instant_or(s: Seq<char>, default: Timestamp)
    ensures
        rfc3339_instant(s) matches Some(t) ==> instant_or(Some(s), default) == t,
        rfc3339_instant(s) is None ==> instant_or(Some(s), default) == default,
        instant_or(None, default) == default,
{
}

/// A zone that is known is used by its own clock, and an unknown name by that of UTC, for what
/// the clocks show and for when an hour or a day starts alike.
pub proof fn law_zone_clocks(name: Seq<char>, t: Timestamp, l: LocalTime)
    ensures
        zone_known(name) ==> local_time(name, t) == zone_clock(name, t.secs as int),
        !zone_known(name) ==> local_time(name, t) == zone_clock("UTC"@, t.secs as int),
        ({
            let zone = if zone_known(name) {
                name
            } else {
                "UTC"@
            };
            let hour = zone_hour(zone, l.year as int, l.month as int, l.day as int, l.hour as int);
            let day = zone_hour(zone, l.year as int, l.month as int, l.day as int, 0);
            &&& hour matches Some(s) ==> local_start(name, l, false) == Some(
                Timestamp { secs: s, nanos: 0 },
            )
            &&& hour is None ==> local_start(name, l, false) is None
            &&& day matches Some(s) ==> local_start(name, l, true) == Some(
                Timestamp { secs: s, nanos: 0 },
            )
            &&& day is None ==> local_start(name, l, true) is None
        }),
{
}

/// Instants have one order, the seconds before the fractions.
pub proof fn law_instants_are_ordered(a: Timestamp, b: Timestamp, c: Timestamp)
    ensures
        a.secs < b.secs ==> a.spec_lt(b),
        a.secs == b.secs ==> (a.spec_lt(b) <==> a.nanos < b.nanos),
        a.spec_lt(b) || b.spec_lt(a) || a == b,
        !(a.spec_lt(b) && b.spec_lt(a)),
        a.spec_lt(b) && b.spec_lt(c) ==> a.spec_lt(c),
        a.spec_le(b) <==> a.spec_lt(b) || a == b,
{
}

/// A leap second is one that fills the second it follows: a step from within it leaves it, and
/// the two seconds around it are two apart.
pub proof fn law_leap_seconds(t: Timestamp, d: int)
    requires
        t.wf(),
        t.leap(),
        t.can_shift(d),
    ensures
        t.secs % 60 == 59,
        d > 0 ==> t.shifted(d).secs == t.secs + d && t.shifted(d).nanos == t.nanos - 1_000_000_000,
        d < 0 ==> t.shifted(d).secs == t.secs + d + 1 && t.shifted(d).nanos == t.nanos - 1_000_000_000,
        d == 0 ==> t.shifted(d) == t,
{
}

/// Hours and days are as long as they are.
pub proof fn law_spans_of_time()
    ensures
        HOUR == 60 * 60,
        DAY == 24 * HOUR,
        NANOS == 1_000_000_000,
{
}

/// The whole seconds between two instants are those of the time that passed, rounded towards
/// zero. A leap second counts where it was passed within the day.
pub proof fn law_whole_seconds(a: Timestamp, b: Timestamp)
    ensures
        ({
            let (x, y) = (a.secs as int % 86_400, b.secs as int % 86_400);
            let extra: int = if y < x && b.nanos >= 1_000_000_000 {
                1
            } else if x < y && a.nanos >= 1_000_000_000 {
                -1
            } else {
                0
            };
            let passed = (a.secs - b.secs + extra) * 1_000_000_000 + a.nanos - b.nanos;
            let whole = a.spec_seconds_since(b);
            &&& passed >= 0 ==> whole * 1_000_000_000 <= passed < (whole + 1) * 1_000_000_000
            &&& passed < 0 ==> (whole - 1) * 1_000_000_000 < passed <= whole * 1_000_000_000
        }),
{
}

/// In UTC a second stands in an hour of a day, and days go through the week: the first of 1970
/// was a Thursday.
pub proof fn law_clock_of_utc(day: int, hour: int, second: int)
    requires
        0 <= hour < 24,
        0 <= second < 3600,
    ensures
        utc_hour(day * 86_400 + hour * 3600 + second) == hour,
        utc_weekday(day * 86_400 + hour * 3600 + second) == (day + 3) % 7,
{
}

/// The years with four digits are whole days, and so is the calendar.
pub proof fn law_years()
    ensures
        YEAR_0 == -719_528 * DAY,
        YEAR_9999 + 1 == 2_932_897 * DAY,
        MIN_SECS == -96_465_292 * DAY,
        MAX_SECS + 1 == 95_026_237 * DAY,
{
}

} // verus!
