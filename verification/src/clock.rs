use vstd::prelude::*;
use std::time::{Duration, SystemTime};

verus! {

/// The system clock's reading, opaque to the library.
#[verifier::external_type_specification]
#[verifier::external_body]
pub struct ExSystemTime(SystemTime);

/// Calls `std::time::SystemTime::now`. Nothing is claimed of the reading:
/// it depends on the machine's clock.
#[verifier::external_body]
fn system_now() -> SystemTime {
    SystemTime::now()
}

/// Calls `std::time::SystemTime::duration_since` with the Unix epoch, and
/// keeps the duration when the reading is not earlier than the epoch. Nothing
/// is claimed of the result, which depends on the opaque reading.
#[verifier::external_body]
fn since_unix_epoch(t: &SystemTime) -> Option<Duration> {
    t.duration_since(std::time::UNIX_EPOCH).ok()
}

/// Calls `std::time::Duration::as_millis`: the whole milliseconds in the
/// duration. Nothing is claimed of it, the duration being opaque.
#[verifier::external_body]
fn whole_millis(d: &Duration) -> u128 {
    d.as_millis()
}

/// The timestamp for a clock reading: the whole milliseconds elapsed since
/// the Unix epoch, truncated to 64 bits, or zero when the reading is earlier
/// than the epoch (`None`).
pub fn timestamp_from_elapsed(elapsed_ms: Option<u128>) -> (t: u64)
    ensures
        t == match elapsed_ms {
            Some(ms) => ms % 0x1_0000_0000_0000_0000,
            None => 0,
        },
{
    match elapsed_ms {
        Some(ms) => {
            let t: u64 = #[verifier::truncate]
            (ms as u64);
            assert(t == ms % 0x1_0000_0000_0000_0000) by (bit_vector)
                requires
                    t == ms as u64,
            ;
            t
        },
        None => 0,
    }
}

/// The current time in milliseconds since the Unix epoch, truncated to 64
/// bits; zero when the clock reads earlier than the epoch. The reading comes
/// from the machine's clock, so any value may come back; what is done with it
/// is `timestamp_from_elapsed`.
pub fn now_ms() -> u64 {
    let now = system_now();
    let elapsed = match since_unix_epoch(&now) {
        Some(d) => Some(whole_millis(&d)),
        None => None,
    };
    timestamp_from_elapsed(elapsed)
}

} // verus!
