//! The time window in which a node with the same title counts as a
//! duplicate.
use vstd::prelude::*;

use crate::graph::lifecycle::{iso_from_secs, iso_text, unix_now_secs};

verus! {

/// `now` minus `hours` whole hours in seconds, clamped at 0.
pub open spec fn window_start_secs(now: int, hours: int) -> nat {
    if now >= hours * 3600 {
        (now - hours * 3600) as nat
    } else {
        0
    }
}

/// ISO 8601 UTC text of `now_secs` minus `window_hours` hours, clamped at
/// the epoch: nodes updated after it are inside the duplicate window.
pub fn window_cutoff_at(now_secs: u64, window_hours: u64) -> (s: String)
    requires
        window_hours <= u64::MAX / 3600,
    ensures
        s@ == iso_text(window_start_secs(now_secs as int, window_hours as int)),
{
    let back = window_hours * 3600;
    let secs = if now_secs >= back {
        now_secs - back
    } else {
        0
    };
    iso_from_secs(secs)
}

/// The duplicate-window cutoff for the current time.
pub fn window_cutoff(window_hours: u64) -> (s: String)
    requires
        window_hours <= u64::MAX / 3600,
    ensures
        exists|now: u64| s@ == iso_text(#[trigger] window_start_secs(now as int, window_hours as int)),
{
    let now = unix_now_secs();
    window_cutoff_at(now, window_hours)
}

/// The statement that finds the most recently updated node with a title
/// (`?1`) updated after a cutoff (`?2`).
pub const FIND_DUPLICATE_SQL: &'static str = "SELECT id FROM nodes WHERE title = ?1 AND updated > ?2 ORDER BY updated DESC LIMIT 1";

} // verus!
