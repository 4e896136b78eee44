//! The wall clock, for the timestamps the model records.

use vstd::prelude::*;

verus! {

/// The current time in milliseconds since the Unix epoch, as
/// `chrono::Utc::now().timestamp_millis()` reads it. Nothing is stated of
/// the value: it is the clock's.
#[verifier::external_body]
pub fn now_millis() -> (t: i64) {
    chrono::Utc::now().timestamp_millis()
}

} // verus!
