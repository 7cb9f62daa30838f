//! The time of day.
use std::time::{Duration, SystemTime, SystemTimeError, UNIX_EPOCH};
use vstd::prelude::*;

verus! {

/// A moment of the system clock.
#[verifier::external_type_specification]
#[verifier::external_body]
pub struct ExSystemTime(SystemTime);

/// How far a moment lies before the one it was measured from.
#[verifier::external_type_specification]
#[verifier::external_body]
pub struct ExSystemTimeError(SystemTimeError);

/// `SystemTime::now` reads the clock; nothing is claimed of the moment.
pub assume_specification[ SystemTime::now ]() -> SystemTime
;

/// `Duration::as_secs` gives the whole seconds of a span; nothing is claimed
/// of how many there are.
pub assume_specification[ Duration::as_secs ](span: &Duration) -> u64
;

/// Calls `SystemTime::duration_since` with the start of 1970; nothing is
/// claimed of whether the moment lies after it, nor of how long after.
#[verifier::external_body]
fn since_epoch(moment: &SystemTime) -> Result<Duration, SystemTimeError> {
    moment.duration_since(UNIX_EPOCH)
}

/// The seconds that passed since the start of 1970; zero where the clock
/// stands before it.
pub fn seconds_or_zero(elapsed: Option<u64>) -> (r: u64)
    ensures
        r == (match elapsed {
            Some(seconds) => seconds,
            None => 0,
        }),
{
    match elapsed {
        Some(seconds) => seconds,
        None => 0,
    }
}

/// Whether a number of seconds is a reading of the system clock: the whole seconds
/// of the span that `SystemTime::duration_since` measures from the start of 1970 to
/// a moment that `SystemTime::now` gave, or zero where that moment lies before it.
pub closed spec fn reading(seconds: u64) -> bool {
    exists|moment: SystemTime, span: Result<Duration, SystemTimeError>|
        {
            &&& call_ensures(SystemTime::now, (), moment)
            &&& #[trigger] call_ensures(since_epoch, (&moment,), span)
            &&& match span {
                Ok(d) => call_ensures(Duration::as_secs, (&d,), seconds),
                Err(_) => seconds == 0,
            }
        }
}

/// The seconds since the start of 1970 by the system clock; zero where the
/// clock stands before it. Which reading it is depends on the clock alone, so
/// no value is promised.
pub fn now_unix() -> (r: u64)
    ensures
        reading(r),
{
    let elapsed = match since_epoch(&SystemTime::now()) {
        Ok(span) => Some(span.as_secs()),
        Err(_) => None,
    };
    seconds_or_zero(elapsed)
}

} // verus!
