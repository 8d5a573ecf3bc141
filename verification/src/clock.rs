//! The wall clock.

use std::time::{Duration, SystemTime, SystemTimeError};
use vstd::prelude::*;

verus! {

#[verifier::external_type_specification]
#[verifier::external_body]
pub struct ExSystemTime(SystemTime);

#[verifier::external_type_specification]
#[verifier::external_body]
pub struct ExSystemTimeError(SystemTimeError);

/// `SystemTime::now` reads the system clock. Nothing is claimed of the time.
pub assume_specification[ SystemTime::now ]() -> (now: SystemTime)
;

/// `SystemTime::duration_since` from the Unix epoch; an error says that the
/// time lies before it. Nothing is claimed of the span.
#[verifier::external_body]
fn since_epoch(time: SystemTime) -> (span: Result<Duration, SystemTimeError>) {
    time.duration_since(SystemTime::UNIX_EPOCH)
}

/// `Duration::as_millis` gives a span in whole milliseconds. Nothing is
/// claimed of the number.
pub assume_specification[ Duration::as_millis ](span: &Duration) -> (millis: u128)
;

/// A count of milliseconds as a timestamp: the low 64 bits, signed.
pub open spec fn timestamp_of(millis: u128) -> int {
    (millis + 0x8000_0000_0000_0000) % 0x1_0000_0000_0000_0000 - 0x8000_0000_0000_0000
}

/// The timestamp of a moment that many milliseconds after the Unix epoch, or
/// 0 for one before it.
pub fn timestamp(millis: Option<u128>) -> (stamp: i64)
    ensures
        match millis {
            Some(m) => stamp == timestamp_of(m) && (m <= i64::MAX ==> stamp == m),
            None => stamp == 0,
        },
{
    match millis {
        Some(m) => {
            let low: u128 = m % 0x1_0000_0000_0000_0000;
            if low < 0x8000_0000_0000_0000 {
                low as i64
            } else {
                (low as i128 - 0x1_0000_0000_0000_0000) as i64
            }
        },
        None => 0,
    }
}

/// `stamp` is the timestamp of a moment that `SystemTime::now` can return: the
/// whole milliseconds of the span that lies between the Unix epoch and it, or 0
/// if it lies before the epoch.
pub closed spec fn is_clock_reading(stamp: i64) -> bool {
    exists|now: SystemTime, span: Result<Duration, SystemTimeError>|
        {
            &&& call_ensures(SystemTime::now, (), now)
            &&& #[trigger] call_ensures(since_epoch, (now,), span)
            &&& match span {
                Ok(span) => exists|millis: u128| #[trigger]
                    call_ensures(Duration::as_millis, (&span,), millis) && stamp == timestamp_of(
                        millis,
                    ),
                Err(_) => stamp == 0,
            }
        }
}

/// Milliseconds since the Unix epoch.
///
/// Millisecond resolution is not cosmetic: at second resolution two entries
/// touched within the same second tie. A clock before 1970 is not worth
/// carrying through the type system, so it saturates at 0.
pub fn now_millis() -> (stamp: i64)
    ensures
        is_clock_reading(stamp),
{
    match since_epoch(SystemTime::now()) {
        Ok(span) => timestamp(Some(span.as_millis())),
        Err(_) => timestamp(None),
    }
}

} // verus!
