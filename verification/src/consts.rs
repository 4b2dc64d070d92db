//! Settled intervals.
use vstd::prelude::*;

verus! {

/// How long query-log rows are kept: seven days, in seconds.
pub const LOG_RETENTION_SECS: i64 = 604_800;

/// How often lists are refreshed: daily, in seconds.
pub const LIST_UPDATE_SECS: u64 = 86_400;

/// The log is kept for seven days, and lists are refreshed once a day.
pub proof fn law_intervals()
    ensures
        LOG_RETENTION_SECS == 7 * 24 * 60 * 60,
        LIST_UPDATE_SECS == 24 * 60 * 60,
{
}

} // verus!
