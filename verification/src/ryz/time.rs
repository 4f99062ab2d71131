use vstd::prelude::*;

verus! {

/// Seconds since the Unix epoch.
pub type Time = u64;

} // verus!

verus! {

/// Relies on std::time::SystemTime::now and duration_since: seconds since
/// the Unix epoch. Nothing can be promised of the clock's value; a clock
/// before the epoch reads as zero.
#[verifier::external_body]
pub fn utc() -> Time {
    match std::time::SystemTime::now().duration_since(std::time::UNIX_EPOCH) {
        Ok(d) => d.as_secs(),
        Err(_) => 0,
    }
}

/// The current time shifted forward by `d` seconds, saturating at the
/// largest representable time.
pub fn delta(d: Time) -> Time {
    let now = utc();
    if now <= u64::MAX - d {
        now + d
    } else {
        u64::MAX
    }
}

} // verus!
