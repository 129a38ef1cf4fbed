use std::time::{Instant, SystemTime, UNIX_EPOCH};
use vstd::prelude::*;

verus! {

/// std's monotonic clock reading, which the queue keeps as its time base.
#[verifier::external_type_specification]
#[verifier::external_body]
pub struct ExInstant(Instant);

/// Reads the monotonic clock with std's `Instant::now`. Nothing is stated of
/// the reading: it depends on the time of the call.
#[verifier::external_body]
pub(crate) fn instant_now() -> Instant {
    Instant::now()
}

/// Nanoseconds elapsed since `base` on the monotonic clock, from std's
/// `Instant::elapsed`, truncated to 64 bits. Nothing is stated of the value:
/// it depends on the time of the call.
#[verifier::external_body]
pub(crate) fn nanos_since(base: &Instant) -> u64 {
    base.elapsed().as_nanos() as u64
}

/// Time since the Unix epoch in nanoseconds, from std's `SystemTime::now`
/// and `duration_since(UNIX_EPOCH)`; `None` when the clock reads before the
/// epoch. Nothing is stated of the value: it depends on the time of the call.
#[verifier::external_body]
pub(crate) fn unix_time_nanos() -> Option<u128> {
    match SystemTime::now().duration_since(UNIX_EPOCH) {
        Ok(d) => Some(d.as_nanos()),
        Err(_) => None,
    }
}

/// Milliseconds of `nanos` since the epoch, truncated to 64 bits; 0 for a
/// clock that reads before the epoch.
pub fn millis_of_epoch_nanos(nanos: Option<u128>) -> (ms: u64)
    ensures
        ms == (match nanos {
            Some(n) => ((n / 1_000_000) % 0x1_0000_0000_0000_0000) as u64,
            None => 0u64,
        }),
{
    match nanos {
        Some(n) => ((n / 1_000_000) % 0x1_0000_0000_0000_0000) as u64,
        None => 0,
    }
}

/// Seconds of `nanos` since the epoch, truncated to 64 bits; 0 for a clock
/// that reads before the epoch.
pub fn secs_of_epoch_nanos(nanos: Option<u128>) -> (s: u64)
    ensures
        s == (match nanos {
            Some(n) => ((n / 1_000_000_000) % 0x1_0000_0000_0000_0000) as u64,
            None => 0u64,
        }),
{
    match nanos {
        Some(n) => ((n / 1_000_000_000) % 0x1_0000_0000_0000_0000) as u64,
        None => 0,
    }
}

/// The signed count of nanoseconds since the epoch that a clock reading
/// stands for: 0 for a clock that reads before the epoch, held at `i128::MAX`.
pub open spec fn epoch_reading_nanos(nanos: Option<u128>) -> int {
    match nanos {
        Some(n) => if n > i128::MAX { i128::MAX as int } else { n as int },
        None => 0,
    }
}

/// Nanoseconds since the epoch of a clock reading, as a signed count.
pub fn signed_epoch_nanos(nanos: Option<u128>) -> (t: i128)
    ensures
        t == epoch_reading_nanos(nanos),
{
    match nanos {
        Some(n) => if n > i128::MAX as u128 { i128::MAX } else { n as i128 },
        None => 0,
    }
}

} // verus!
