//! Calendar features of a Unix timestamp, in UTC.

use vstd::prelude::*;

verus! {

/// The day of the week, Monday as zero: the epoch fell on a Thursday, three
/// days into its week.
pub open spec fn spec_day_of_week(ts: u32) -> int {
    (ts as int / 86400 + 3) % 7
}

/// The hour of the day.
pub open spec fn spec_hour(ts: u32) -> int {
    (ts as int / 3600) % 24
}

/// The day of the week of a Unix timestamp, Monday as zero.
pub fn day_of_week_utc(ts: u32) -> (r: u32)
    ensures
        r == spec_day_of_week(ts),
        r < 7,
{
    (ts / 86400 + 3) % 7
}

/// The hour of the day of a Unix timestamp.
pub fn hour_utc(ts: u32) -> (r: u32)
    ensures
        r == spec_hour(ts),
        r < 24,
{
    (ts / 3600) % 24
}

/// Relies on `chrono::Utc::now`: the current time, as a Unix timestamp.
#[verifier::external_body]
pub(crate) fn now_ts() -> (r: u32)
{
    chrono::Utc::now().timestamp() as u32
}

} // verus!
