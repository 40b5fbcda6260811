//! The credits of OpenRouter.
//!
//! The service reports running totals. Each is compared with the one before, and a rise is
//! recorded as spend; the first total is only a baseline.

use crate::digest::{sha256_hex, text_digest, utf8};
use crate::json::{json_doc, parse_json, Doc, Json};
use crate::models::{Cost, CostView, Event, EventView, MeteredMode, SERVICE_OPENROUTER};
use crate::normalize::opt_event;
use crate::number::{zero, Real};
use crate::time::{instant_text, rfc3339_text, Timestamp};
use vstd::prelude::*;

verus! {

/// Where the totals are reported.
pub const CREDITS_URL: &'static str = "https://openrouter.ai/api/v1/credits";

/// The totals reported.
#[derive(Debug, Clone, Copy, PartialEq, Eq, Structural)]
pub struct Credits {
    pub total_credits: Real,
    pub total_usage: Real,
}

/// The totals that a report gives: none unless it tells the usage.
pub open spec fn credits_of(body: Doc) -> Option<Credits> {
    match body.get("data"@) {
        Some(d) => match d.number_at("total_usage"@) {
            Some(total_usage) => Some(
                Credits {
                    total_credits: match d.number_at("total_credits"@) {
                        Some(c) => c,
                        None => zero(),
                    },
                    total_usage,
                },
            ),
            None => None,
        },
        None => None,
    }
}

/// The totals that the text of a report gives.
pub open spec fn credits_in(text: Seq<char>) -> Option<Credits> {
    match json_doc(text) {
        Some(d) => credits_of(d),
        None => None,
    }
}

/// The totals that a report gives.
pub fn parse_credits(body: &Json) -> (r: Option<Credits>)
    ensures
        r == credits_of(body.doc()),
{
    let d = match body.get("data") {
        Some(d) => d,
        None => return None,
    };
    let total_usage = match d.number_at("total_usage") {
        Some(x) => x,
        None => return None,
    };
    let total_credits = match d.number_at("total_credits") {
        Some(x) => x,
        None => Real { bits: 0 },
    };
    Some(Credits { total_credits, total_usage })
}

/// The totals that the text of a report gives.
pub fn read_credits(text: &str) -> (r: Option<Credits>)
    ensures
        r == credits_in(text@),
{
    match parse_json(text) {
        Some(j) => parse_credits(&j),
        None => None,
    }
}

/// Whether the difference of two totals is zero or less. The difference of two equal
/// infinities is no number.
pub open spec fn no_rise(prev: Real, curr: Real) -> bool {
    curr.spec_le(prev) && !(curr.is_infinite() && curr.rank() == prev.rank())
}

/// The text that tells a rise apart: the service, the time and the total reached, in decimal,
/// with bars between them.
pub open spec fn rise_text(total: Seq<char>, ts: Timestamp) -> Seq<char> {
    SERVICE_OPENROUTER@ + seq!['|'] + rfc3339_text(ts) + seq!['|'] + total
}

/// The record of a rise to a total that is written as `total`.
pub open spec fn rise_event(prev: Real, curr: Real, total: Seq<char>, ts: Timestamp) -> EventView {
    EventView {
        event_uid: sha256_hex(utf8(rise_text(total, ts))),
        service: SERVICE_OPENROUTER@,
        metered_mode: MeteredMode::PayPerToken,
        ts,
        model: None,
        input_tokens: 0,
        output_tokens: 0,
        cache_read_tokens: 0,
        cache_write_tokens: 0,
        reasoning_tokens: 0,
        cost: CostView::Rise(prev, curr),
        cost_is_estimate: false,
        session_id: None,
        project: None,
        raw_source: Some(CREDITS_URL@),
    }
}

/// The record that a total gives after the one before it: none for the first, nor for one
/// that has not risen.
pub open spec fn delta_of(
    prev: Option<Real>,
    curr: Real,
    total: Seq<char>,
    ts: Timestamp,
) -> Option<EventView> {
    match prev {
        Some(p) => if no_rise(p, curr) {
            None
        } else {
            Some(rise_event(p, curr, total, ts))
        },
        None => None,
    }
}

/// Whether the difference of two totals is zero or less.
fn has_not_risen(prev: Real, curr: Real) -> (r: bool)
    ensures
        r == no_rise(prev, curr),
{
    curr.le(prev) && !(curr.infinite() && prev.le(curr))
}

/// The record that a total gives after the one before it. `total` is the text of `curr`.
pub fn derive_delta_event(
    prev: Option<Real>,
    curr: Real,
    total: &str,
    ts: Timestamp,
) -> (r: Option<Event>)
    requires
        ts.wf(),
    ensures
        opt_event(r) == delta_of(prev, curr, total@, ts),
{
    let prev = match prev {
        Some(p) => p,
        None => return None,
    };
    if has_not_risen(prev, curr) {
        return None;
    }
    let mut s = SERVICE_OPENROUTER.to_owned();
    s.push('|');
    let time = instant_text(ts);
    s.append(time.as_str());
    s.push('|');
    s.append(total);
    assert(s@ =~= rise_text(total@, ts));
    let uid = text_digest(s.as_str());
    Some(
        Event {
            event_uid: uid,
            service: SERVICE_OPENROUTER.to_owned(),
            metered_mode: MeteredMode::PayPerToken,
            ts,
            model: None,
            input_tokens: 0,
            output_tokens: 0,
            cache_read_tokens: 0,
            cache_write_tokens: 0,
            reasoning_tokens: 0,
            cost: Cost::Rise { from: prev, to: curr },
            cost_is_estimate: false,
            session_id: None,
            project: None,
            raw_source: Some(CREDITS_URL.to_owned()),
        },
    )
}

/// Of two finite totals a record is made exactly if the second is above the first, and it
/// is of real spend.
pub proof fn law_only_rises_are_spend(prev: Real, curr: Real, total: Seq<char>, ts: Timestamp)
    requires
        !prev.is_nan() && !prev.is_infinite(),
        !curr.is_nan() && !curr.is_infinite(),
    ensures
        delta_of(Some(prev), curr, total, ts) is Some <==> prev.spec_lt(curr),
        delta_of(Some(prev), curr, total, ts) matches Some(e) ==> !e.cost_is_estimate && e.metered_mode
            == MeteredMode::PayPerToken && e.cost == CostView::Rise(prev, curr),
        delta_of(None, curr, total, ts) is None,
{
}

/// The rises among the first `n` totals of a run, each as the two totals it lies between.
pub open spec fn rises(totals: Seq<Real>, n: int) -> Seq<(Real, Real)>
    decreases n,
{
    if n <= 1 {
        Seq::empty()
    } else if no_rise(totals[n - 2], totals[n - 1]) {
        rises(totals, n - 1)
    } else {
        rises(totals, n - 1).push((totals[n - 2], totals[n - 1]))
    }
}

/// Of totals that never fall, the rises recorded join without a gap and lead from the first
/// total to the last: what they add up to is what was spent between the two.
pub proof fn law_rises_add_up(totals: Seq<Real>, n: int)
    requires
        1 <= n <= totals.len(),
        forall|i: int| 0 <= i < n ==> !(#[trigger] totals[i]).is_nan() && !totals[i].is_infinite(),
        forall|i: int, j: int| 0 <= i <= j < n ==> (#[trigger] totals[i]).spec_le(#[trigger] totals[j]),
    ensures
        ({
            let r = rises(totals, n);
            &&& forall|k: int|
                0 < k < r.len() ==> (#[trigger] r[k]).0.rank() == r[k - 1].1.rank()
            &&& r.len() == 0 ==> totals[0].rank() == totals[n - 1].rank()
            &&& r.len() > 0 ==> r[0].0.rank() == totals[0].rank() && r.last().1.rank() == totals[n
                - 1].rank()
        }),
    decreases n,
{
    if n > 1 {
        law_rises_add_up(totals, n - 1);
        assert(totals[n - 2].spec_le(totals[n - 1]));
        assert(!totals[n - 1].is_infinite());
    }
}

/// The totals are read from where the service reports them: the usage must be there, the
/// credits count as zero where they are not.
pub proof fn law_credits(text: Seq<char>, body: Doc, data: Doc)
    requires
        json_doc(text) == Some(body),
        body.get("data"@) == Some(data),
    ensures
        credits_in(text) is Some <==> data.number_at("total_usage"@) is Some,
        credits_in(text) matches Some(c) ==> {
            &&& data.number_at("total_usage"@) == Some(c.total_usage)
            &&& data.number_at("total_credits"@) matches Some(x) ==> c.total_credits == x
            &&& data.number_at("total_credits"@) is None ==> c.total_credits.bits == 0
        },
{
}

/// A report without data, or that is not JSON, tells no totals.
pub proof fn law_no_credits(text: Seq<char>)
    requires
        json_doc(text) matches Some(body) ==> body.get("data"@) is None,
    ensures
        credits_in(text) is None,
{
}

/// A rise is recorded as spend of the service at its time, between the two totals, with no
/// model and no tokens, under the digest of service, time and total.
pub proof fn law_rise_record(prev: Real, curr: Real, total: Seq<char>, ts: Timestamp)
    requires
        prev.spec_lt(curr),
    ensures
        delta_of(Some(prev), curr, total, ts) matches Some(e) && {
            &&& e.service == SERVICE_OPENROUTER@
            &&& e.ts == ts
            &&& e.cost == CostView::Rise(prev, curr)
            &&& e.metered_mode == MeteredMode::PayPerToken
            &&& !e.cost_is_estimate
            &&& e.model is None && e.session_id is None && e.project is None
            &&& e.input_tokens == 0 && e.output_tokens == 0 && e.cache_read_tokens == 0
            &&& e.cache_write_tokens == 0 && e.reasoning_tokens == 0
            &&& e.raw_source == Some("https://openrouter.ai/api/v1/credits"@)
            &&& e.event_uid == sha256_hex(
                utf8(SERVICE_OPENROUTER@ + seq!['|'] + rfc3339_text(ts) + seq!['|'] + total),
            )
        },
{
}

/// No record comes of a total that is below the one before it or the same, however large, but
/// for one that stays infinite, which has no difference. Every other total gives one, and so does
/// what is no number.
pub proof fn law_totals_that_give_no_record(prev: Real, curr: Real, total: Seq<char>, ts: Timestamp)
    ensures
        delta_of(Some(prev), curr, total, ts) is None <==> curr.spec_lt(prev) || curr.spec_le(prev)
            && !curr.is_infinite(),
        prev.is_nan() || curr.is_nan() ==> delta_of(Some(prev), curr, total, ts) is Some,
        CREDITS_URL@ == "https://openrouter.ai/api/v1/credits"@,
{
}

} // verus!
