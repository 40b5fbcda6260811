//! What runs in the background, and how often.

use crate::collectors::claude_code::is_log;
use crate::collectors::codex::{is_rollout, is_rollout_of};
use crate::paths::has_ext;
use vstd::prelude::*;

verus! {

/// The least number of seconds between two polls.
pub const MIN_POLL: u64 = 5;

/// Seconds between two broadcasts without a change.
pub const BROADCAST_EVERY: u64 = 5;

/// Seconds between two polls.
pub fn poll_interval(configured: u64) -> (r: u64)
    ensures
        r == if configured < MIN_POLL {
            MIN_POLL
        } else {
            configured
        },
{
    if configured < MIN_POLL {
        MIN_POLL
    } else {
        configured
    }
}

/// Which collectors a file that has changed concerns: that of `claude_code`, and that of Codex.
pub fn concerns(path: &str) -> (r: (bool, bool))
    ensures
        r.0 == has_ext(path@, "jsonl"@),
        r.1 == (has_ext(path@, "jsonl"@) && is_rollout_of(path@)),
{
    let log = is_log(path);
    (log, log && is_rollout(path))
}

/// Polls and broadcasts are at least five seconds apart.
pub proof fn law_shortest_waits()
    ensures
        MIN_POLL == 5,
        BROADCAST_EVERY == 5,
{
}

} // verus!
