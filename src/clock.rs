//! The wall clock, through `chrono`.
use vstd::prelude::*;

verus! {

/// Relies on `chrono::Utc::now` and `DateTime::timestamp_millis`: the current
/// time in milliseconds since the Unix epoch. Nothing is promised of the value.
#[verifier::external_body]
pub(crate) fn now_millis() -> i64 {
    chrono::Utc::now().timestamp_millis()
}

} // verus!
