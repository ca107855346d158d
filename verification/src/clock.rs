//! The present time.

use vstd::prelude::*;
use crate::domain::Timestamp;

verus! {

/// `chrono::Utc::now`, as whole seconds and nanoseconds within the second:
/// not before the epoch, and never within a leap second. Nothing else is known
/// of it.
#[verifier::external_body]
pub(crate) fn utc_now() -> (r: Timestamp)
    ensures
        r.seconds >= 0,
        r.nanos < 1_000_000_000,
{
    let now = chrono::Utc::now();
    Timestamp { seconds: now.timestamp(), nanos: now.timestamp_subsec_nanos() }
}

} // verus!
