//! The present instant.

use vstd::prelude::*;

verus! {

/// The present instant, in seconds since the Unix epoch.
///
/// Calls `chrono::Utc::now` and takes the `timestamp` of what it gives.
/// Nothing is promised of the number: it is whatever the machine's clock
/// says. The call fails where that clock stands before the epoch.
#[verifier::external_body]
pub(crate) fn unix_now() -> i64 {
    chrono::Utc::now().timestamp()
}

} // verus!
