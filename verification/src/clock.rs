//! The wall clock: milliseconds since the Unix epoch, as chrono reports them.

use vstd::prelude::*;

verus! {

/// Reads the current UTC time from `chrono::Utc::now`, as milliseconds
/// since the Unix epoch (`DateTime::timestamp_millis`). `Utc::now` measures
/// the system time from the epoch, and stops the program when the system
/// clock reads before it, so the value is never negative; nothing more is
/// claimed of it: it depends on the machine's clock.
#[verifier::external_body]
fn utc_now_millis() -> (res: i64)
    ensures
        res >= 0,
{
    chrono::Utc::now().timestamp_millis()
}

/// The current time in milliseconds since the Unix epoch.
pub fn now_millis() -> (res: u64)
    ensures
        res <= i64::MAX,
{
    let t = utc_now_millis();
    t as u64
}

} // verus!
