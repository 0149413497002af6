//! The timestamps of the bookkeeping: unix seconds in 32 bits.

use std::time::{SystemTime, UNIX_EPOCH};
use vstd::prelude::*;

verus! {

/// The 32-bit timestamp for a count of seconds since the epoch: the count
/// reduced to 32 bits.
pub open spec fn timestamp_of(seconds: u64) -> u32 {
    (seconds % 0x1_0000_0000) as u32
}

/// `SystemTime::now` measured against `UNIX_EPOCH`: the whole seconds that
/// have passed since the epoch, or `None` where the clock stands before it.
/// Nothing is claimed of the value: it is the machine's time.
#[verifier::external_body]
fn seconds_since_epoch() -> (seconds: Option<u64>) {
    match SystemTime::now().duration_since(UNIX_EPOCH) {
        Ok(elapsed) => Some(elapsed.as_secs()),
        Err(_) => None,
    }
}

/// The timestamp for a reading of the clock. A clock that stands before the
/// epoch reads as 0.
pub fn timestamp_from_clock(reading: Option<u64>) -> (timestamp: u32)
    ensures
        timestamp == match reading {
            Some(seconds) => timestamp_of(seconds),
            None => 0u32,
        },
{
    match reading {
        Some(seconds) => (seconds % 0x1_0000_0000) as u32,
        None => 0,
    }
}

/// The current time as a timestamp.
pub fn now_sec() -> u32 {
    timestamp_from_clock(seconds_since_epoch())
}

} // verus!
