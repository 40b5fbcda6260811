use chrono::{DateTime, Datelike, TimeZone, Timelike, Utc};
use chrono_tz::Tz;
use metoks::time::{
    effective_zone, euclid_rem, instant_text, local_start_at, local_time_at, parse_dt, parse_dt_opt,
    Timestamp, MAX_SECS, MIN_SECS, YEAR_0, YEAR_9999,
};

fn of(d: DateTime<Utc>) -> Timestamp {
    Timestamp { secs: d.timestamp(), nanos: d.timestamp_subsec_nanos() }
}

fn back(t: Timestamp) -> DateTime<Utc> {
    DateTime::from_timestamp(t.secs, t.nanos).unwrap()
}

fn at(secs: i64, nanos: u32) -> Timestamp {
    Timestamp { secs, nanos }
}

#[test]
fn bounds_are_those_of_the_calendar() {
    assert_eq!(MIN_SECS, DateTime::<Utc>::MIN_UTC.timestamp());
    assert_eq!(MAX_SECS, DateTime::<Utc>::MAX_UTC.timestamp());
    assert_eq!(YEAR_0, Utc.with_ymd_and_hms(0, 1, 1, 0, 0, 0).unwrap().timestamp());
    assert_eq!(YEAR_9999, Utc.with_ymd_and_hms(9999, 12, 31, 23, 59, 59).unwrap().timestamp());
    assert_eq!(Timestamp::from_epoch(MAX_SECS), Some(at(MAX_SECS, 0)));
    assert_eq!(Timestamp::from_epoch(MAX_SECS + 1), None);
    assert_eq!(Timestamp::from_epoch(MIN_SECS), Some(at(MIN_SECS, 0)));
    assert_eq!(Timestamp::from_epoch(MIN_SECS - 1), None);
    for s in [MIN_SECS - 1, MIN_SECS, 0, MAX_SECS, MAX_SECS + 1, i64::MAX, i64::MIN] {
        assert_eq!(Timestamp::from_epoch(s), DateTime::from_timestamp(s, 0).map(of));
    }
}

#[test]
fn times_are_read_as_instants() {
    for s in [
        "2026-08-20T19:10:28.376Z",
        "2026-08-20T19:10:28+02:00",
        "2026-08-20 19:10:28Z",
        "2026-08-20T19:10:60Z",
        "1969-12-31T23:59:59.5Z",
        "0000-01-01T00:00:00Z",
        "2026-08-20",
        "",
        "2026-13-20T19:10:28Z",
        "2026-08-20T19:10:28",
    ] {
        let want = DateTime::parse_from_rfc3339(s).ok().map(|d| of(d.with_timezone(&Utc)));
        assert_eq!(parse_dt(s), want, "{s}");
    }
    assert_eq!(parse_dt("1970-01-01T01:00:00.25+01:00"), Some(at(0, 250_000_000)));
}

#[test]
fn text_is_read_back() {
    for t in [at(0, 0), at(1_787_253_028, 376_000_000), at(-1, 1), at(59, 1_500_000_000), at(YEAR_0, 0), at(YEAR_9999, 999_999_999)] {
        assert_eq!(instant_text(t), back(t).to_rfc3339());
        assert_eq!(parse_dt(&instant_text(t)), Some(t));
    }
    assert_eq!(instant_text(at(0, 0)), "1970-01-01T00:00:00+00:00");
}

#[test]
fn missing_times_take_the_default() {
    let d = at(7, 0);
    assert_eq!(parse_dt_opt(&None, d), d);
    assert_eq!(parse_dt_opt(&Some("soon".to_string()), d), d);
    assert_eq!(parse_dt_opt(&Some("1970-01-01T00:00:00Z".to_string()), d), at(0, 0));
}

#[test]
fn shifts_are_those_of_the_calendar() {
    let ts = [at(0, 0), at(100, 999_999_999), at(59, 1_300_000_000), at(119, 1_999_999_999), at(MAX_SECS - 10, 5), at(MIN_SECS + 10, 5)];
    for t in ts {
        for d in [0i64, 1, -1, 3600, -86_400, 11, -11, i64::MAX / 2000, i64::MIN / 2000] {
            let want = chrono::Duration::try_seconds(d).and_then(|x| back(t).checked_add_signed(x)).map(of);
            assert_eq!(t.checked_shift(d), want, "{t:?} {d}");
        }
    }
}

#[test]
fn spans_are_those_of_the_calendar() {
    let ts = [
        at(0, 0),
        at(0, 1),
        at(1, 0),
        at(59, 1_300_000_000),
        at(60, 0),
        at(60, 300_000_000),
        at(-5, 999_999_999),
        at(119, 1_000_000_000),
        at(MAX_SECS, 0),
        at(MIN_SECS, 7),
    ];
    for a in ts {
        for b in ts {
            assert_eq!(a.seconds_since(b), (back(a) - back(b)).num_seconds(), "{a:?} {b:?}");
            assert_eq!(a.lt(b), back(a) < back(b));
            assert_eq!(a.le(b), back(a) <= back(b));
        }
    }
}

#[test]
fn remainders_are_not_negative() {
    assert_eq!((euclid_rem(-1, 3600), euclid_rem(-3600, 3600), euclid_rem(7200, 3600), euclid_rem(5, 3)), (3599, 0, 0, 2));
}

#[test]
fn unknown_zones_are_utc() {
    assert_eq!(effective_zone("America/Los_Angeles"), "America/Los_Angeles");
    assert_eq!(effective_zone("Mars/Olympus"), "UTC");
    assert_eq!(effective_zone(""), "UTC");
}

const ZONES: [&str; 6] =
    ["UTC", "America/Los_Angeles", "Europe/Berlin", "Asia/Kathmandu", "Australia/Lord_Howe", "Pacific/Apia"];

#[test]
fn clocks_show_the_time_of_the_zone() {
    for name in ZONES {
        let tz: Tz = name.parse().unwrap();
        for secs in [0i64, 1_787_253_028, 1_762_000_000, -1_000_000_000, 1_325_241_600] {
            let l = back(at(secs, 0)).with_timezone(&tz);
            let got = local_time_at(name, at(secs, 0));
            assert_eq!(
                (got.year, got.month, got.day, got.hour, got.weekday),
                (l.year(), l.month(), l.day(), l.hour(), l.weekday().num_days_from_monday())
            );
        }
    }
}

#[test]
fn hours_and_days_begin_where_the_zone_says() {
    for name in ZONES {
        let tz: Tz = name.parse().unwrap();
        for step in 0..2000i64 {
            let t = at(1_772_000_000 + step * 8_000, 0);
            let l = local_time_at(name, t);
            let hour = tz.with_ymd_and_hms(l.year, l.month, l.day, l.hour, 0, 0).single();
            let day = tz.with_ymd_and_hms(l.year, l.month, l.day, 0, 0, 0).single();
            assert_eq!(local_start_at(name, l, false), hour.map(|d| of(d.with_timezone(&Utc))));
            assert_eq!(local_start_at(name, l, true), day.map(|d| of(d.with_timezone(&Utc))));
        }
    }
}

#[test]
fn hours_of_utc_follow_from_the_seconds() {
    for secs in [0i64, -1, 3599, 3600, 86_399, -86_400, 1_787_253_028, -62_000_000_000, MIN_SECS, MAX_SECS] {
        let l = local_time_at("UTC", at(secs, 0));
        assert_eq!(i64::from(l.hour), secs.rem_euclid(86_400) / 3600);
        // The first of January 1970 was a Thursday.
        assert_eq!(i64::from(l.weekday), (secs.div_euclid(86_400) + 3).rem_euclid(7));
        assert_eq!(local_start_at("UTC", l, false), Some(at(secs - secs.rem_euclid(3600), 0)));
    }
}
