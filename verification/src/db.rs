//! The rows of the store: what is written, and what is read back.

use crate::collectors::claude_code::has_uid;
use crate::models::{Event, EventView, Unit};
use crate::number::Real;
use crate::text::{concat, opt_text};
use crate::time::{
    instant_text, parse_dt, rfc3339_instant, rfc3339_text, Timestamp, YEAR_0, YEAR_9999,
};
use vstd::prelude::*;

verus! {

/// The limit of a window.
#[derive(Debug, Clone)]
pub struct LimitRow {
    pub service: String,
    pub window_kind: String,
    pub limit_value: Option<Real>,
    pub limit_unit: Unit,
    pub limit_source: String,
    pub window_reset: Option<Timestamp>,
    pub window_anchor: Option<Timestamp>,
}

/// The limit of a window, as it is stored.
#[derive(Debug, Clone)]
pub struct LimitCells {
    pub service: String,
    pub window_kind: String,
    pub limit_value: Option<Real>,
    pub limit_unit: String,
    pub limit_source: String,
    pub window_reset: Option<String>,
    pub window_anchor: Option<String>,
}

/// A share of the weekly limit that the user knows to be used.
#[derive(Debug, Clone)]
pub struct Fiducial {
    pub id: i64,
    pub service: String,
    pub window_kind: String,
    pub ts: Timestamp,
    pub percent: Real,
    pub resets_at: Option<Timestamp>,
    pub window_start: Timestamp,
    pub measured_cumulative: Real,
    pub unit: Unit,
}

/// A [`Fiducial`], as it is stored.
#[derive(Debug, Clone)]
pub struct FiducialCells {
    pub id: i64,
    pub service: String,
    pub window_kind: String,
    pub ts: String,
    pub percent: Real,
    pub resets_at: Option<String>,
    pub window_start: String,
    pub measured_cumulative: Real,
    pub unit: String,
}

/// The provider's own account of a window.
#[derive(Debug, Clone)]
pub struct RateLimitStatus {
    pub service: String,
    pub window_kind: String,
    pub used_percent: Option<Real>,
    pub window_minutes: Option<i64>,
    pub resets_at: Option<Timestamp>,
    pub observed_at: Timestamp,
}

/// A [`RateLimitStatus`], as it is stored.
#[derive(Debug, Clone)]
pub struct RateLimitCells {
    pub service: String,
    pub window_kind: String,
    pub used_percent: Option<Real>,
    pub window_minutes: Option<i64>,
    pub resets_at: Option<String>,
    pub observed_at: String,
}

/// What a service has recorded in all.
#[derive(Debug, Clone)]
pub struct CountsSummary {
    pub service: String,
    pub events: i64,
    pub cost_usd: Real,
    pub tokens: i64,
}

/// Whether an instant, if there is one, is of the calendar.
pub open spec fn opt_wf(t: Option<Timestamp>) -> bool {
    t matches Some(x) ==> x.wf()
}

/// Whether an instant has a year of four digits.
pub open spec fn four_digits(t: Timestamp) -> bool {
    YEAR_0 <= t.secs <= YEAR_9999
}

/// Whether an instant, if there is one, has a year of four digits.
pub open spec fn opt_four_digits(t: Option<Timestamp>) -> bool {
    t matches Some(x) ==> four_digits(x)
}

/// The text of an optional instant.
pub open spec fn opt_instant_text(t: Option<Timestamp>) -> Option<Seq<char>> {
    match t {
        Some(x) => Some(rfc3339_text(x)),
        None => None,
    }
}

/// The instant that an optional text names.
pub open spec fn opt_instant(s: Option<Seq<char>>) -> Option<Timestamp> {
    match s {
        Some(x) => rfc3339_instant(x),
        None => None,
    }
}

/// The instant that a text names, else `now`.
pub open spec fn instant_else(s: Seq<char>, now: Timestamp) -> Timestamp {
    match rfc3339_instant(s) {
        Some(t) => t,
        None => now,
    }
}

/// The text of an optional instant.
fn opt_to_text(t: Option<Timestamp>) -> (r: Option<String>)
    requires
        opt_wf(t),
    ensures
        opt_text(r) == opt_instant_text(t),
        opt_four_digits(t) ==> opt_instant(opt_text(r)) == t,
{
    match t {
        Some(x) => Some(instant_text(x)),
        None => None,
    }
}

/// The instant that an optional text names.
fn opt_from_text(s: &Option<String>) -> (r: Option<Timestamp>)
    ensures
        r == opt_instant(opt_text(*s)),
        opt_wf(r),
{
    match s {
        Some(x) => parse_dt(x.as_str()),
        None => None,
    }
}

/// The instant that a text names, else `now`.
fn from_text_else(s: &str, now: Timestamp) -> (r: Timestamp)
    requires
        now.wf(),
    ensures
        r == instant_else(s@, now),
        r.wf(),
{
    match parse_dt(s) {
        Some(t) => t,
        None => now,
    }
}

// ---------------------------------------------------------------------------
// Limits
// ---------------------------------------------------------------------------

/// Whether a row is what its cells say. An unknown unit is read as tokens, and a text that
/// names no instant as none.
pub open spec fn limit_reads(c: LimitCells, row: LimitRow) -> bool {
    &&& row.service@ == c.service@
    &&& row.window_kind@ == c.window_kind@
    &&& row.limit_value == c.limit_value
    &&& row.limit_unit == Unit::named_or_tokens(c.limit_unit@)
    &&& row.limit_source@ == c.limit_source@
    &&& row.window_reset == opt_instant(opt_text(c.window_reset))
    &&& row.window_anchor == opt_instant(opt_text(c.window_anchor))
}

/// Whether cells hold a row.
pub open spec fn limit_stored(row: LimitRow, c: LimitCells) -> bool {
    &&& c.service@ == row.service@
    &&& c.window_kind@ == row.window_kind@
    &&& c.limit_value == row.limit_value
    &&& c.limit_unit@ == row.limit_unit.name()
    &&& c.limit_source@ == row.limit_source@
    &&& opt_text(c.window_reset) == opt_instant_text(row.window_reset)
    &&& opt_text(c.window_anchor) == opt_instant_text(row.window_anchor)
}

impl LimitRow {
    /// Whether the times are instants of the calendar.
    pub open spec fn wf(self) -> bool {
        opt_wf(self.window_reset) && opt_wf(self.window_anchor)
    }

    /// The cells that store the row. Where years have four digits they read back as the row.
    pub fn store(&self) -> (r: LimitCells)
        requires
            self.wf(),
        ensures
            limit_stored(*self, r),
            opt_four_digits(self.window_reset) && opt_four_digits(self.window_anchor)
                ==> limit_reads(r, *self),
    {
        proof {
            crate::models::law_unit_names(self.limit_unit, Seq::empty());
        }
        LimitCells {
            service: self.service.clone(),
            window_kind: self.window_kind.clone(),
            limit_value: self.limit_value,
            limit_unit: self.limit_unit.as_str().to_owned(),
            limit_source: self.limit_source.clone(),
            window_reset: opt_to_text(self.window_reset),
            window_anchor: opt_to_text(self.window_anchor),
        }
    }
}

impl LimitCells {
    /// The row that the cells hold.
    pub fn load(self) -> (r: LimitRow)
        ensures
            limit_reads(self, r),
            r.wf(),
    {
        LimitRow {
            limit_unit: Unit::parse_or_tokens(self.limit_unit.as_str()),
            window_reset: opt_from_text(&self.window_reset),
            window_anchor: opt_from_text(&self.window_anchor),
            service: self.service,
            window_kind: self.window_kind,
            limit_value: self.limit_value,
            limit_source: self.limit_source,
        }
    }
}

// ---------------------------------------------------------------------------
// Fiducials
// ---------------------------------------------------------------------------

/// Whether a reading is what its cells say, read at `now`. A text that names no instant is
/// read as `now`, or as none where the cell is optional; an unknown unit as tokens.
pub open spec fn fiducial_reads(c: FiducialCells, now: Timestamp, f: Fiducial) -> bool {
    &&& f.id == c.id
    &&& f.service@ == c.service@
    &&& f.window_kind@ == c.window_kind@
    &&& f.ts == instant_else(c.ts@, now)
    &&& f.percent == c.percent
    &&& f.resets_at == opt_instant(opt_text(c.resets_at))
    &&& f.window_start == instant_else(c.window_start@, now)
    &&& f.measured_cumulative == c.measured_cumulative
    &&& f.unit == Unit::named_or_tokens(c.unit@)
}

/// Whether cells hold a reading.
pub open spec fn fiducial_stored(f: Fiducial, c: FiducialCells) -> bool {
    &&& c.id == f.id
    &&& c.service@ == f.service@
    &&& c.window_kind@ == f.window_kind@
    &&& c.ts@ == rfc3339_text(f.ts)
    &&& c.percent == f.percent
    &&& opt_text(c.resets_at) == opt_instant_text(f.resets_at)
    &&& c.window_start@ == rfc3339_text(f.window_start)
    &&& c.measured_cumulative == f.measured_cumulative
    &&& c.unit@ == f.unit.name()
}

impl Fiducial {
    /// Whether the times are instants of the calendar.
    pub open spec fn wf(self) -> bool {
        self.ts.wf() && self.window_start.wf() && opt_wf(self.resets_at)
    }

    /// The cells that store the reading. Where years have four digits they read back as the
    /// reading, whenever that is.
    pub fn store(&self) -> (r: FiducialCells)
        requires
            self.wf(),
        ensures
            fiducial_stored(*self, r),
            four_digits(self.ts) && four_digits(self.window_start) && opt_four_digits(self.resets_at)
                ==> forall|now: Timestamp| #[trigger] fiducial_reads(r, now, *self),
    {
        proof {
            crate::models::law_unit_names(self.unit, Seq::empty());
        }
        FiducialCells {
            id: self.id,
            service: self.service.clone(),
            window_kind: self.window_kind.clone(),
            ts: instant_text(self.ts),
            percent: self.percent,
            resets_at: opt_to_text(self.resets_at),
            window_start: instant_text(self.window_start),
            measured_cumulative: self.measured_cumulative,
            unit: self.unit.as_str().to_owned(),
        }
    }
}

impl FiducialCells {
    /// The reading that the cells hold, read at `now`.
    pub fn load(self, now: Timestamp) -> (r: Fiducial)
        requires
            now.wf(),
        ensures
            fiducial_reads(self, now, r),
            r.wf(),
    {
        Fiducial {
            ts: from_text_else(self.ts.as_str(), now),
            resets_at: opt_from_text(&self.resets_at),
            window_start: from_text_else(self.window_start.as_str(), now),
            unit: Unit::parse_or_tokens(self.unit.as_str()),
            id: self.id,
            service: self.service,
            window_kind: self.window_kind,
            percent: self.percent,
            measured_cumulative: self.measured_cumulative,
        }
    }
}

// ---------------------------------------------------------------------------
// Rate limits
// ---------------------------------------------------------------------------

/// Whether an account is what its cells say, read at `now`.
pub open spec fn rate_limit_reads(c: RateLimitCells, now: Timestamp, s: RateLimitStatus) -> bool {
    &&& s.service@ == c.service@
    &&& s.window_kind@ == c.window_kind@
    &&& s.used_percent == c.used_percent
    &&& s.window_minutes == c.window_minutes
    &&& s.resets_at == opt_instant(opt_text(c.resets_at))
    &&& s.observed_at == instant_else(c.observed_at@, now)
}

/// Whether cells hold an account.
pub open spec fn rate_limit_stored(s: RateLimitStatus, c: RateLimitCells) -> bool {
    &&& c.service@ == s.service@
    &&& c.window_kind@ == s.window_kind@
    &&& c.used_percent == s.used_percent
    &&& c.window_minutes == s.window_minutes
    &&& opt_text(c.resets_at) == opt_instant_text(s.resets_at)
    &&& c.observed_at@ == rfc3339_text(s.observed_at)
}

impl RateLimitStatus {
    /// Whether the times are instants of the calendar.
    pub open spec fn wf(self) -> bool {
        self.observed_at.wf() && opt_wf(self.resets_at)
    }

    /// The cells that store the account. Where years have four digits they read back as the
    /// account, whenever that is.
    pub fn store(&self) -> (r: RateLimitCells)
        requires
            self.wf(),
        ensures
            rate_limit_stored(*self, r),
            four_digits(self.observed_at) && opt_four_digits(self.resets_at)
                ==> forall|now: Timestamp| #[trigger] rate_limit_reads(r, now, *self),
    {
        RateLimitCells {
            service: self.service.clone(),
            window_kind: self.window_kind.clone(),
            used_percent: self.used_percent,
            window_minutes: self.window_minutes,
            resets_at: opt_to_text(self.resets_at),
            observed_at: instant_text(self.observed_at),
        }
    }
}

impl RateLimitCells {
    /// The account that the cells hold, read at `now`.
    pub fn load(self, now: Timestamp) -> (r: RateLimitStatus)
        requires
            now.wf(),
        ensures
            rate_limit_reads(self, now, r),
            r.wf(),
    {
        RateLimitStatus {
            resets_at: opt_from_text(&self.resets_at),
            observed_at: from_text_else(self.observed_at.as_str(), now),
            service: self.service,
            window_kind: self.window_kind,
            used_percent: self.used_percent,
            window_minutes: self.window_minutes,
        }
    }
}

// ---------------------------------------------------------------------------
// Events
// ---------------------------------------------------------------------------

/// The cells of an event that are not stored as they are: the name of its mode, the text of
/// its time, and whether its cost is an estimate as a number.
#[derive(Debug, Clone)]
pub struct EventCells {
    pub metered_mode: &'static str,
    pub ts: String,
    pub cost_is_estimate: i64,
}

/// The cells of an event that are not stored as they are. Where the year has four digits the
/// text of the time reads back as the time.
pub fn event_cells(e: &Event) -> (r: EventCells)
    requires
        e.ts.wf(),
    ensures
        r.metered_mode@ == e.metered_mode.name(),
        r.ts@ == rfc3339_text(e.ts),
        four_digits(e.ts) ==> rfc3339_instant(r.ts@) == Some(e.ts),
        r.cost_is_estimate == if e.cost_is_estimate {
            1
        } else {
            0int
        },
{
    EventCells {
        metered_mode: e.metered_mode.as_str(),
        ts: instant_text(e.ts),
        cost_is_estimate: if e.cost_is_estimate {
            1
        } else {
            0
        },
    }
}

// ---------------------------------------------------------------------------
// Offsets
// ---------------------------------------------------------------------------

/// The offset that a cell holds: the start of the file where there is none, or a negative one.
pub open spec fn offset_of(cell: Option<i64>) -> u64 {
    match cell {
        Some(n) => if n < 0 {
            0
        } else {
            n as u64
        },
        None => 0,
    }
}

/// The offset that a cell holds.
pub fn get_file_offset(cell: Option<i64>) -> (r: u64)
    ensures
        r == offset_of(cell),
{
    match cell {
        Some(n) => if n < 0 {
            0
        } else {
            n as u64
        },
        None => 0,
    }
}

/// The cell that stores an offset, which reads back as the offset. One that does not fit is
/// taken modulo the size of the cell.
pub fn set_file_offset(offset: u64) -> (r: i64)
    ensures
        offset <= i64::MAX ==> r == offset && offset_of(Some(r)) == offset,
        offset > i64::MAX ==> r == offset - 0x1_0000_0000_0000_0000,
{
    if offset <= 0x7fff_ffff_ffff_ffff {
        offset as i64
    } else {
        -((u64::MAX - offset) as i64) - 1
    }
}

// ---------------------------------------------------------------------------
// Queries
// ---------------------------------------------------------------------------

/// What an event amounts to in a unit.
pub open spec fn amount_of(unit: Unit) -> Seq<char> {
    match unit {
        Unit::Tokens => "input_tokens+output_tokens+cache_read_tokens+cache_write_tokens+reasoning_tokens"@,
        Unit::Usd => "cost_usd"@,
    }
}

/// What an event amounts to in a unit.
pub fn amount_expr(unit: Unit) -> (r: &'static str)
    ensures
        r@ == amount_of(unit),
{
    match unit {
        Unit::Tokens => "input_tokens+output_tokens+cache_read_tokens+cache_write_tokens+reasoning_tokens",
        Unit::Usd => "cost_usd",
    }
}

/// The query for what a service has consumed between two times.
pub fn consumed_in_window(unit: Unit) -> (r: String)
    ensures
        r@ == "SELECT COALESCE(SUM("@ + amount_of(unit)
            + "),0) FROM events WHERE service=?1 AND ts>=?2 AND ts<=?3"@,
{
    let mut s = concat("SELECT COALESCE(SUM(", amount_expr(unit));
    s.append("),0) FROM events WHERE service=?1 AND ts>=?2 AND ts<=?3");
    s
}

/// The query for the times and amounts of the events of a service from a time on.
pub fn amounts_since(unit: Unit) -> (r: String)
    ensures
        r@ == "SELECT ts, ("@ + amount_of(unit) + ") FROM events WHERE service=?1 AND ts>=?2"@,
{
    let mut s = concat("SELECT ts, (", amount_expr(unit));
    s.append(") FROM events WHERE service=?1 AND ts>=?2");
    s
}

/// The identifiers that are stored once the records are: a record is stored under its
/// identifier, and one whose identifier is stored already is passed over.
pub open spec fn stored_uids(known: Set<Seq<char>>, events: Seq<EventView>) -> Set<Seq<char>> {
    Set::new(|uid: Seq<char>| known.contains(uid) || has_uid(events, uid))
}

/// How many of the records are newly stored, one after the other.
pub open spec fn newly_stored(known: Set<Seq<char>>, events: Seq<EventView>) -> nat
    decreases events.len(),
{
    if events.len() == 0 {
        0
    } else {
        let before = events.drop_last();
        newly_stored(known, before) + if stored_uids(known, before).contains(
            events.last().event_uid,
        ) {
            0nat
        } else {
            1nat
        }
    }
}

/// Of records whose identifiers are stored already, none is newly stored, and what is stored
/// stays as it is. So storing records a second time adds nothing.
pub proof fn law_known_records_add_nothing(known: Set<Seq<char>>, events: Seq<EventView>)
    requires
        forall|uid: Seq<char>| #[trigger] has_uid(events, uid) ==> known.contains(uid),
    ensures
        newly_stored(known, events) == 0,
        stored_uids(known, events) == known,
    decreases events.len(),
{
    assert(stored_uids(known, events) =~= known);
    if events.len() > 0 {
        let before = events.drop_last();
        assert forall|uid: Seq<char>| #[trigger] has_uid(before, uid) implies known.contains(uid) by {
            let i = choose|i: int|
                0 <= i < before.len() && (#[trigger] before[i]).event_uid == uid;
            assert(events[i] == before[i]);
            assert(has_uid(events, uid));
        }
        law_known_records_add_nothing(known, before);
        let last = events.last();
        assert(events[events.len() - 1].event_uid == last.event_uid);
        assert(has_uid(events, last.event_uid));
    }
}

/// Each cell of a limit holds the column that is called so, and is read into it: texts and
/// values as they are, units by their names, times by their texts.
pub proof fn law_limit_cells(row: LimitRow, c: LimitCells, back: LimitRow)
    requires
        limit_stored(row, c),
        limit_reads(c, back),
    ensures
        back.service@ == row.service@,
        back.window_kind@ == row.window_kind@,
        back.limit_value == row.limit_value,
        back.limit_unit == row.limit_unit,
        back.limit_source@ == row.limit_source@,
        row.window_reset is None ==> c.window_reset is None && back.window_reset is None,
        row.window_anchor is None ==> c.window_anchor is None && back.window_anchor is None,
        row.window_reset matches Some(t) ==> {
            &&& c.window_reset matches Some(x) && x@ == rfc3339_text(t)
            &&& back.window_reset == rfc3339_instant(rfc3339_text(t))
        },
        row.window_anchor matches Some(t) ==> {
            &&& c.window_anchor matches Some(x) && x@ == rfc3339_text(t)
            &&& back.window_anchor == rfc3339_instant(rfc3339_text(t))
        },
        c.service@ == row.service@ && c.window_kind@ == row.window_kind@ && c.limit_value
            == row.limit_value && c.limit_source@ == row.limit_source@,
        row.limit_unit == Unit::Usd ==> c.limit_unit@ == "usd"@,
        row.limit_unit == Unit::Tokens ==> c.limit_unit@ == "tokens"@,
{
    crate::models::law_unit_names(row.limit_unit, c.limit_unit@);
    crate::models::law_unknown_unit_is_tokens(c.limit_unit@);
}

/// Each cell of a reading holds the column that is called so, and is read into it; a time that
/// cannot be read is taken as now.
pub proof fn law_fiducial_cells(f: Fiducial, c: FiducialCells, now: Timestamp, back: Fiducial)
    requires
        fiducial_stored(f, c),
        fiducial_reads(c, now, back),
    ensures
        back.id == f.id,
        back.service@ == f.service@,
        back.window_kind@ == f.window_kind@,
        back.percent == f.percent,
        back.measured_cumulative == f.measured_cumulative,
        back.unit == f.unit,
        c.ts@ == rfc3339_text(f.ts) && c.window_start@ == rfc3339_text(f.window_start),
        c.id == f.id && c.service@ == f.service@ && c.window_kind@ == f.window_kind@ && c.percent
            == f.percent && c.measured_cumulative == f.measured_cumulative,
        f.unit == Unit::Usd ==> c.unit@ == "usd"@,
        f.unit == Unit::Tokens ==> c.unit@ == "tokens"@,
        f.resets_at is None ==> c.resets_at is None,
        f.resets_at matches Some(t) ==> c.resets_at matches Some(x) && x@ == rfc3339_text(t),
        rfc3339_instant(c.ts@) matches Some(t) ==> back.ts == t,
        rfc3339_instant(c.ts@) is None ==> back.ts == now,
        rfc3339_instant(c.window_start@) matches Some(t) ==> back.window_start == t,
        rfc3339_instant(c.window_start@) is None ==> back.window_start == now,
        f.resets_at is None ==> back.resets_at is None,
        f.resets_at matches Some(t) ==> back.resets_at == rfc3339_instant(rfc3339_text(t)),
{
    crate::models::law_unit_names(f.unit, c.unit@);
}

/// Each cell of an account of the rate limits holds the column that is called so, and is read
/// into it; a time of observation that cannot be read is taken as now.
pub proof fn law_rate_limit_cells(s: RateLimitStatus, c: RateLimitCells, now: Timestamp, back: RateLimitStatus)
    requires
        rate_limit_stored(s, c),
        rate_limit_reads(c, now, back),
    ensures
        back.service@ == s.service@,
        back.window_kind@ == s.window_kind@,
        back.used_percent == s.used_percent,
        back.window_minutes == s.window_minutes,
        c.observed_at@ == rfc3339_text(s.observed_at),
        c.service@ == s.service@ && c.window_kind@ == s.window_kind@ && c.used_percent
            == s.used_percent && c.window_minutes == s.window_minutes,
        s.resets_at is None ==> c.resets_at is None,
        s.resets_at matches Some(t) ==> c.resets_at matches Some(x) && x@ == rfc3339_text(t),
        rfc3339_instant(c.observed_at@) matches Some(t) ==> back.observed_at == t,
        rfc3339_instant(c.observed_at@) is None ==> back.observed_at == now,
        s.resets_at is None ==> back.resets_at is None,
        s.resets_at matches Some(t) ==> back.resets_at == rfc3339_instant(rfc3339_text(t)),
{
}

/// An offset is read as it stands; none, or a negative one, as the start of the file.
pub proof fn law_offset(n: i64)
    ensures
        n >= 0 ==> offset_of(Some(n)) == n,
        n < 0 ==> offset_of(Some(n)) == 0,
        offset_of(None) == 0,
{
}

/// A record is newly stored exactly where its identifier is not known, once: the first of an
/// identifier is, the others are not.
pub proof fn law_newly_stored(known: Set<Seq<char>>, events: Seq<EventView>, e: EventView)
    ensures
        known.contains(e.event_uid) || has_uid(events, e.event_uid) ==> newly_stored(
            known,
            events.push(e),
        ) == newly_stored(known, events),
        !known.contains(e.event_uid) && !has_uid(events, e.event_uid) ==> newly_stored(
            known,
            events.push(e),
        ) == newly_stored(known, events) + 1,
        stored_uids(known, events).contains(e.event_uid) <==> known.contains(e.event_uid) || has_uid(
            events,
            e.event_uid,
        ),
{
    assert(events.push(e).drop_last() =~= events);
}

/// An event amounts to all its tokens, of every kind, or to its cost.
pub proof fn law_amounts()
    ensures
        amount_of(Unit::Tokens)
            == "input_tokens+output_tokens+cache_read_tokens+cache_write_tokens+reasoning_tokens"@,
        amount_of(Unit::Usd) == "cost_usd"@,
{
}

/// A text that names an instant is read as that, one that does not as what stands for it, and
/// an absent one as absent.
pub proof fn law_optional_instants(s: Seq<char>, t: Timestamp, now: Timestamp)
    ensures
        opt_instant(Some(s)) == rfc3339_instant(s),
        opt_instant(None) is None,
        opt_instant_text(Some(t)) == Some(rfc3339_text(t)),
        opt_instant_text(None) is None,
        rfc3339_instant(s) matches Some(x) ==> instant_else(s, now) == x,
        rfc3339_instant(s) is None ==> instant_else(s, now) == now,
{
}

/// The years with four digits are those from 0 to 9999.
pub proof fn law_four_digits(t: Timestamp)
    ensures
        four_digits(t) <==> -62_167_219_200 <= t.secs < 253_402_300_800,
        opt_four_digits(Some(t)) <==> -62_167_219_200 <= t.secs < 253_402_300_800,
        opt_four_digits(None),
        opt_wf(Some(t)) <==> t.wf(),
        opt_wf(None),
{
}

} // verus!
