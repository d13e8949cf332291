//! The wall clock.

use std::time::SystemTime;
use vstd::prelude::*;

verus! {

/// A moment of the system clock, as std holds it.
#[verifier::external_type_specification]
#[verifier::external_body]
pub struct ExSystemTime(SystemTime);

/// Calls `SystemTime::now`. Nothing is claimed of the moment that the clock shows.
#[verifier::external_body]
fn system_now() -> SystemTime {
    SystemTime::now()
}

/// Calls `SystemTime::duration_since` with the Unix epoch, and takes the duration apart into seconds
/// and nanoseconds; `None` where the moment lies before the epoch. Claimed of it: the nanoseconds
/// make up less than a second. How many seconds there are rests on the clock.
#[verifier::external_body]
fn since_epoch(t: SystemTime) -> (r: Option<(u64, u32)>)
    ensures
        r matches Some((_, nanos)) ==> nanos < 1_000_000_000,
{
    match t.duration_since(std::time::UNIX_EPOCH) {
        Ok(d) => Some((d.as_secs(), d.subsec_nanos())),
        Err(_) => None,
    }
}

/// Whole microseconds in a duration.
pub open spec fn micros_in(secs: u64, nanos: u32) -> int {
    secs * 1_000_000 + nanos / 1_000
}

/// Whole milliseconds in a duration.
pub open spec fn millis_in(secs: u64, nanos: u32) -> int {
    secs * 1_000 + nanos / 1_000_000
}

/// The microseconds of a clock reading, as many as 64 bits hold of them; zero for a clock that is
/// set before the epoch.
pub fn reading_us(read: Option<(u64, u32)>) -> (r: u64)
    ensures
        match read {
            Some((secs, nanos)) => r == micros_in(secs, nanos) % 0x1_0000_0000_0000_0000,
            None => r == 0,
        },
{
    match read {
        Some((secs, nanos)) => {
            let total: u128 = secs as u128 * 1_000_000 + (nanos / 1_000) as u128;
            assert(total as u64 == total % 0x1_0000_0000_0000_0000) by (bit_vector);
            total as u64
        },
        None => 0,
    }
}

/// The milliseconds of a clock reading, as many as 64 bits hold of them; zero for a clock that is
/// set before the epoch.
pub fn reading_millis(read: Option<(u64, u32)>) -> (r: u64)
    ensures
        match read {
            Some((secs, nanos)) => r == millis_in(secs, nanos) % 0x1_0000_0000_0000_0000,
            None => r == 0,
        },
{
    match read {
        Some((secs, nanos)) => {
            let total: u128 = secs as u128 * 1_000 + (nanos / 1_000_000) as u128;
            assert(total as u64 == total % 0x1_0000_0000_0000_0000) by (bit_vector);
            total as u64
        },
        None => 0,
    }
}

/// Microseconds since the Unix epoch. What the number is rests on the clock of the machine.
pub fn now_us() -> u64 {
    reading_us(since_epoch(system_now()))
}

/// Milliseconds since the Unix epoch. What the number is rests on the clock of the machine.
pub fn now_millis() -> u64 {
    reading_millis(since_epoch(system_now()))
}

/// A reading is rounded down to whole microseconds, and to whole milliseconds.
pub proof fn law_readings_are_rounded_down(secs: u64, nanos: u32)
    requires
        nanos < 1_000_000_000,
    ensures
        micros_in(secs, nanos) * 1_000 <= secs * 1_000_000_000 + nanos < (micros_in(secs, nanos) + 1)
            * 1_000,
        millis_in(secs, nanos) * 1_000_000 <= secs * 1_000_000_000 + nanos < (millis_in(secs, nanos)
            + 1) * 1_000_000,
{
}

} // verus!
