//! Wall-clock access for timestamping commands.

use vstd::prelude::*;

verus! {

/// Relies on chrono's `Utc::now` and `DateTime::timestamp`: the current time
/// as whole seconds since the Unix epoch. The result depends on the system
/// clock, so nothing is promised of it; chrono aborts if the clock reads
/// before the epoch.
#[verifier::external_body]
pub(crate) fn current_unix_seconds() -> i64 {
    chrono::Utc::now().timestamp()
}

} // verus!
