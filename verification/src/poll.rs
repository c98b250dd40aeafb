//! The poll loop's per-cycle decisions: which notifications to display,
//! what to persist, and how long to sleep before the next fetch.

use vstd::prelude::*;

use crate::cache::filter_unseen;
use crate::cache::merge;
use crate::cache::merged_of;
use crate::cache::unseen_of;
use crate::data::Notifications;

verus! {

/// Seconds to sleep when the remote response carries no poll-interval hint.
pub const DEFAULT_POLL_INTERVAL_SECS: u64 = 60;

/// Milliseconds to wait between two display requests within one cycle, so
/// that the presentation mechanism is not saturated with simultaneous
/// requests.
pub const DISPLAY_STAGGER_MILLIS: u64 = 500;

/// The poll-interval and rate-limit hints taken from one API response; a
/// field is `None` where the response omitted the hint.
pub struct PollDirective {
    pub poll_interval: Option<u64>,
    pub rate_limit: Option<u64>,
    pub rate_limit_remaining: Option<u64>,
}

/// The sleep a directive calls for: the server's hint where one was given,
/// the default otherwise.
pub open spec fn sleep_of(poll_interval: Option<u64>) -> u64 {
    match poll_interval {
        Some(secs) => secs,
        None => DEFAULT_POLL_INTERVAL_SECS,
    }
}

/// How long to sleep before the next fetch.
pub fn next_sleep_secs(directive: &PollDirective) -> (r: u64)
    ensures
        r == sleep_of(directive.poll_interval),
{
    match directive.poll_interval {
        Some(secs) => secs,
        None => DEFAULT_POLL_INTERVAL_SECS,
    }
}

/// Everything one poll cycle decides from what was fetched, what was saved,
/// and the response's hints. The caller displays `to_display` one by one,
/// overwrites the cache with `to_persist`, and sleeps `sleep_secs`.
pub struct CyclePlan {
    pub to_display: Notifications,
    pub to_persist: Notifications,
    pub sleep_secs: u64,
}

/// Plan one cycle: display exactly the unseen subset of the fetched batch,
/// persist the merged set, and sleep as the directive says.
pub fn plan_cycle(
    fetched: &Notifications,
    saved: &Notifications,
    directive: &PollDirective,
) -> (r: CyclePlan)
    ensures
        r.to_display@ == unseen_of(fetched@, saved@),
        r.to_persist@ == merged_of(fetched@, saved@),
        r.sleep_secs == sleep_of(directive.poll_interval),
{
    CyclePlan {
        to_display: filter_unseen(fetched, saved),
        to_persist: merge(fetched, saved),
        sleep_secs: next_sleep_secs(directive),
    }
}

} // verus!
