//! The clock: milliseconds since the Unix epoch.
use core::time::Duration;
use std::time::{SystemTime, SystemTimeError, UNIX_EPOCH};
use vstd::prelude::*;

verus! {

/// A moment of the system clock.
#[verifier::external_type_specification]
#[verifier::external_body]
pub struct ExSystemTime(SystemTime);

/// What `SystemTime::duration_since` reports of a moment before the other.
#[verifier::external_type_specification]
#[verifier::external_body]
pub struct ExSystemTimeError(SystemTimeError);

/// How long after the Unix epoch a moment is; `None` of a moment before it.
pub uninterp spec fn since_epoch(moment: SystemTime) -> Option<Duration>;

/// The whole milliseconds of a duration.
pub uninterp spec fn whole_millis(duration: Duration) -> u128;

/// `SystemTime::now`. Nothing is said of the moment it gives.
#[verifier::external_body]
fn now() -> SystemTime {
    SystemTime::now()
}

/// `SystemTime::duration_since`, from the Unix epoch: the time that has passed since
/// then, or an error for a moment before it.
#[verifier::external_body]
fn since_unix_epoch(moment: SystemTime) -> (elapsed: Result<Duration, SystemTimeError>)
    ensures
        match elapsed {
            Ok(duration) => since_epoch(moment) == Some(duration),
            Err(_) => since_epoch(moment) is None,
        },
{
    moment.duration_since(UNIX_EPOCH)
}

/// `Duration::as_millis`: the whole milliseconds of a duration.
#[verifier::external_body]
fn as_millis(duration: &Duration) -> (millis: u128)
    ensures
        millis == whole_millis(*duration),
{
    duration.as_millis()
}

/// The clock reading for a time that has passed since the epoch: its low 64 bits, and 0
/// before the epoch.
pub open spec fn reading(elapsed: Option<u128>) -> u64 {
    match elapsed {
        Some(millis) => (millis % 0x1_0000_0000_0000_0000) as u64,
        None => 0,
    }
}

/// The time that has passed since the epoch, in whole milliseconds.
pub open spec fn elapsed_millis(moment: SystemTime) -> Option<u128> {
    match since_epoch(moment) {
        Some(duration) => Some(whole_millis(duration)),
        None => None,
    }
}

/// Cuts the time that has passed since the epoch down to a clock reading.
pub fn clock_reading(elapsed: Option<u128>) -> (ms: u64)
    ensures
        elapsed matches Some(millis) ==> millis <= u64::MAX ==> ms == millis,
        elapsed is None ==> ms == 0,
        ms == reading(elapsed),
{
    match elapsed {
        Some(millis) => (millis % 0x1_0000_0000_0000_0000) as u64,
        None => 0,
    }
}

/// The clock reading at a moment.
pub fn unix_millis(moment: SystemTime) -> (ms: u64)
    ensures
        since_epoch(moment) matches Some(duration) ==> whole_millis(duration) <= u64::MAX ==> ms
            == whole_millis(duration),
        since_epoch(moment) is None ==> ms == 0,
        ms == reading(elapsed_millis(moment)),
{
    match since_unix_epoch(moment) {
        Ok(duration) => clock_reading(Some(as_millis(&duration))),
        Err(_) => clock_reading(None),
    }
}

/// `ms` is the clock reading at some moment.
pub open spec fn clock_reads(ms: u64) -> bool {
    exists|moment: SystemTime| ms == reading(#[trigger] elapsed_millis(moment))
}

/// Reads the clock: milliseconds since the Unix epoch, 0 if the clock stands before it.
pub fn now_millis() -> (ms: u64)
    ensures
        clock_reads(ms),
{
    unix_millis(now())
}

} // verus!
