//! The wall clock.
use std::time::{Duration, SystemTime, SystemTimeError};
use vstd::prelude::*;

verus! {

/// A point of the system's clock.
#[verifier::external_type_specification]
#[verifier::external_body]
pub struct ExSystemTime(std::time::SystemTime);

/// The error of a clock that stands before the point it is measured from.
#[verifier::external_type_specification]
#[verifier::external_body]
pub struct ExSystemTimeError(std::time::SystemTimeError);

/// `std::time::SystemTime::now`. Nothing is claimed of the time that it gives.
pub assume_specification[ std::time::SystemTime::now ]() -> SystemTime;

/// `std::time::SystemTime::duration_since`. Nothing is claimed of the duration.
pub assume_specification[ std::time::SystemTime::duration_since ](
    time: &SystemTime,
    earlier: SystemTime,
) -> Result<Duration, SystemTimeError>;

/// `std::time::Duration::as_secs`. Nothing is claimed of the number.
pub assume_specification[ std::time::Duration::as_secs ](duration: &Duration) -> u64;

/// Gives the constant `std::time::UNIX_EPOCH`.
#[verifier::external_body]
fn unix_epoch() -> SystemTime {
    std::time::UNIX_EPOCH
}

/// The seconds that have passed, or zero where the clock stands before its starting point.
pub fn seconds_or_zero(elapsed: Option<u64>) -> (seconds: u64)
    ensures
        match elapsed {
            Some(s) => seconds == s,
            None => seconds == 0,
        },
{
    match elapsed {
        Some(s) => s,
        None => 0,
    }
}

/// The seconds since the Unix epoch, or zero where the clock stands before it. The number itself
/// is the clock's.
pub fn now_unix_secs() -> u64 {
    let elapsed = match SystemTime::now().duration_since(unix_epoch()) {
        Ok(duration) => Some(duration.as_secs()),
        Err(_) => None,
    };
    seconds_or_zero(elapsed)
}

} // verus!
