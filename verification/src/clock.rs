//! The wall clock. Wall-clock readings decorate the debug history and
//! witness records only; no consensus decision reads them.
use vstd::prelude::*;

verus! {

/// Relies on chrono's `Utc::now` and `DateTime::timestamp_millis`: the
/// current wall-clock time, as whole milliseconds since the Unix epoch.
/// `Utc::now` does not return on a system clock set before the epoch, and
/// nothing can be promised about the value, so this has no contract: every
/// function that stores the reading holds for any value of it.
#[verifier::external_body]
pub(crate) fn wall_clock_now_millis() -> i64 {
    chrono::Utc::now().timestamp_millis()
}

} // verus!
