//! The time of day.

use vstd::prelude::*;

verus! {

/// `chrono::Utc::now`, read by `DateTime::timestamp_millis`: the time that
/// the system clock shows, in milliseconds since the Unix epoch. Nothing is
/// claimed of the value: two calls may give any two times.
#[verifier::external_body]
pub(crate) fn now_millis() -> (ts: i64) {
    chrono::Utc::now().timestamp_millis()
}

} // verus!
