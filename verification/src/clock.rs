//! The wall clock.

use vstd::prelude::*;
use crate::models::Timestamp;

verus! {

/// The current time (`chrono::Utc::now`), in seconds and nanoseconds since
/// the Unix epoch.  Of the value only the range of its nanoseconds is
/// stated (`Utc::now` builds it from a `Duration`'s sub-second nanoseconds):
/// the rest is the time.
#[verifier::external_body]
pub(crate) fn current_time() -> (t: Timestamp)
    ensures
        t.nanos < 1_000_000_000,
{
    let now = chrono::Utc::now();
    Timestamp { secs: now.timestamp(), nanos: now.timestamp_subsec_nanos() }
}

} // verus!
