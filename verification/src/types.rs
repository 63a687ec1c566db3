use vstd::prelude::*;
use std::time::{Duration, SystemTime, UNIX_EPOCH};

verus! {

/// A point in wall-clock time (`std::time::SystemTime`), carried opaquely.
#[verifier::external_type_specification]
#[verifier::external_body]
pub struct ExSystemTime(SystemTime);

/// Cloning a `SystemTime` (a `Copy` type) gives the same point in time.
pub assume_specification[ <SystemTime as Clone>::clone ](t: &SystemTime) -> (r: SystemTime)
    ensures
        r == *t,
;

/// The current wall-clock time (`SystemTime::now`); nothing is promised of it.
#[verifier::external_body]
pub(crate) fn system_time_now() -> SystemTime {
    SystemTime::now()
}

/// The span from the Unix epoch to a time, as `SystemTime::duration_since`
/// gives it; `None` for a time before the epoch.
pub uninterp spec fn unix_duration_of(t: SystemTime) -> Option<Duration>;

/// The whole seconds of a span (`Duration::as_secs`).
pub uninterp spec fn duration_secs(d: Duration) -> u64;

/// The milliseconds past the whole seconds of a span (`Duration::subsec_millis`).
pub uninterp spec fn duration_subsec_millis(d: Duration) -> u32;

/// The span from the Unix epoch to a time (`time.duration_since(UNIX_EPOCH)`);
/// `None` when the time lies before the epoch. The result is named as a
/// function of the time.
#[verifier::external_body]
pub(crate) fn since_unix_epoch(time: &SystemTime) -> (r: Option<Duration>)
    ensures
        r == unix_duration_of(*time),
{
    time.duration_since(UNIX_EPOCH).ok()
}

/// The whole seconds of a span (`Duration::as_secs`), named.
#[verifier::external_body]
pub(crate) fn secs_of(d: &Duration) -> (r: u64)
    ensures
        r == duration_secs(*d),
{
    d.as_secs()
}

/// The milliseconds past the whole seconds (`Duration::subsec_millis`), named;
/// std documents that they are always below 1000.
#[verifier::external_body]
pub(crate) fn subsec_millis_of(d: &Duration) -> (r: u32)
    ensures
        r == duration_subsec_millis(*d),
        r < 1000,
{
    d.subsec_millis()
}

/// Seconds and milliseconds from the Unix epoch to a time, if it is not before it.
pub open spec fn unix_parts(t: SystemTime) -> Option<(u64, u32)> {
    match unix_duration_of(t) {
        Some(d) => Some((duration_secs(d), duration_subsec_millis(d))),
        None => None,
    }
}

/// A message delivered by the receiver.
#[derive(Debug, Clone)]
pub struct RxMessage {
    pub source_mac: String,
    pub payload: String,
    pub received_at: SystemTime,
}

} // verus!
