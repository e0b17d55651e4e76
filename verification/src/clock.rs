//! Readings of the system clocks.

use std::time::{Duration, Instant, SystemTime, SystemTimeError};
use vstd::prelude::*;

verus! {

/// A reading of the wall clock.
#[verifier::external_type_specification]
#[verifier::external_body]
pub struct ExSystemTime(SystemTime);

/// What `SystemTime::duration_since` gives where the other time is the later one.
#[verifier::external_type_specification]
#[verifier::external_body]
pub struct ExSystemTimeError(SystemTimeError);

/// A reading of the monotonic clock.
#[verifier::external_type_specification]
#[verifier::external_body]
pub struct ExInstant(Instant);

/// What `SystemTime::duration_since` gives for `t` and the UNIX epoch: how far `t` lies
/// after the epoch, or nothing where it lies before.
pub uninterp spec fn since_epoch(t: SystemTime) -> Option<Duration>;

/// The length of `d` in nanoseconds.
pub uninterp spec fn nanos_of(d: Duration) -> nat;

/// What `Instant::saturating_duration_since` gives: how far `later` lies after `earlier`.
pub uninterp spec fn instant_span(later: Instant, earlier: Instant) -> Duration;

/// `SystemTime::now` reads the wall clock; nothing is known of the reading.
pub assume_specification[ SystemTime::now ]() -> SystemTime;

/// `now` is what the monotonic clock can be read to be: any instant. This is shown nowhere
/// outside this module. There only `Instant::now` says of an instant that it was read, so code
/// whose contract asks for a reading cannot do with an instant that it already had.
pub closed spec fn is_read(now: Instant) -> bool {
    true
}

/// `Instant::now` reads the monotonic clock; nothing else is known of the reading.
pub assume_specification[ Instant::now ]() -> (r: Instant)
    ensures
        is_read(r),
;

/// `Duration::as_micros` gives the whole microseconds of the duration.
pub assume_specification[ Duration::as_micros ](d: &Duration) -> (r: u128)
    ensures
        r == nanos_of(*d) / 1_000,
;

/// `Duration::as_secs` gives the whole seconds of the duration.
pub assume_specification[ Duration::as_secs ](d: &Duration) -> (r: u64)
    ensures
        r == nanos_of(*d) / 1_000_000_000,
;

/// `Instant::saturating_duration_since` is a function of the two instants.
pub assume_specification[ Instant::saturating_duration_since ](
    later: &Instant,
    earlier: Instant,
) -> (r: Duration)
    ensures
        r == instant_span(*later, earlier),
;

/// `SystemTime::duration_since`, taken from the UNIX epoch, is a function of the time
/// alone; it fails where that time lies before the epoch.
#[verifier::external_body]
fn duration_since_epoch(t: &SystemTime) -> (r: Result<Duration, SystemTimeError>)
    ensures
        r matches Ok(d) ==> since_epoch(*t) == Some(d),
        r is Err ==> since_epoch(*t) is None,
{
    t.duration_since(std::time::UNIX_EPOCH)
}

/// The whole microseconds from the UNIX epoch to `t`, as the low 64 bits of their number;
/// nothing where `t` lies before the epoch.
pub open spec fn micros_at(t: SystemTime) -> Option<u64> {
    match since_epoch(t) {
        Some(d) => Some(((nanos_of(d) / 1_000) % 0x1_0000_0000_0000_0000) as u64),
        None => None,
    }
}

/// The whole microseconds from the UNIX epoch to `t`, unless `t` lies before the epoch.
pub fn micros_since_epoch(t: SystemTime) -> (r: Option<u64>)
    ensures
        r == micros_at(t),
{
    match duration_since_epoch(&t) {
        Ok(d) => {
            let micros: u128 = d.as_micros();
            assert((micros % 0x1_0000_0000_0000_0000) as u64 == micros as u64) by (bit_vector);
            Some(
                #[verifier::truncate]
                (micros as u64),
            )
        },
        Err(_) => None,
    }
}

/// A reading of the wall clock counts whole microseconds: no fewer, and no more, than have
/// passed since the UNIX epoch.
pub proof fn readings_are_whole_microseconds(t: SystemTime, d: Duration)
    requires
        since_epoch(t) == Some(d),
        nanos_of(d) < 0x1_0000_0000_0000_0000 * 1_000,
    ensures
        micros_at(t) is Some,
        micros_at(t)->0 * 1_000 <= nanos_of(d) < (micros_at(t)->0 + 1) * 1_000,
{
    let micros = nanos_of(d) / 1_000;
    assert(micros % 0x1_0000_0000_0000_0000 == micros);
}

/// A time before the UNIX epoch has no reading, and only such a time has none.
pub proof fn only_times_before_the_epoch_have_no_reading(t: SystemTime)
    ensures
        micros_at(t) is None <==> since_epoch(t) is None,
{
}

/// Of two times, the later one is not read as an earlier one, and a microsecond between them
/// shows in their readings.
pub proof fn readings_follow_the_clock(t1: SystemTime, d1: Duration, t2: SystemTime, d2: Duration)
    requires
        since_epoch(t1) == Some(d1),
        since_epoch(t2) == Some(d2),
        nanos_of(d1) <= nanos_of(d2) < 0x1_0000_0000_0000_0000 * 1_000,
    ensures
        micros_at(t1)->0 <= micros_at(t2)->0,
        nanos_of(d2) - nanos_of(d1) >= 1_000 ==> micros_at(t1)->0 < micros_at(t2)->0,
        micros_at(t2)->0 - micros_at(t1)->0 <= (nanos_of(d2) - nanos_of(d1)) / 1_000 + 1,
{
    readings_are_whole_microseconds(t1, d1);
    readings_are_whole_microseconds(t2, d2);
}

/// A call of `micros_since_epoch` gives the whole microseconds between the UNIX epoch and the
/// time, or nothing for a time before it. Of two calls, the one for the later time does not
/// give less, and gives more where a microsecond lies between the times.
pub proof fn micros_since_epoch_counts_whole_microseconds(
    t1: SystemTime,
    r1: Option<u64>,
    t2: SystemTime,
    r2: Option<u64>,
)
    requires
        call_ensures(micros_since_epoch, (t1,), r1),
        call_ensures(micros_since_epoch, (t2,), r2),
    ensures
        r1 is Some <==> since_epoch(t1) is Some,
        r1 is Some && nanos_of(since_epoch(t1)->0) < 0x1_0000_0000_0000_0000 * 1_000 ==> r1->0
            * 1_000 <= nanos_of(since_epoch(t1)->0) < (r1->0 + 1) * 1_000,
        r1 is Some && r2 is Some && nanos_of(since_epoch(t1)->0) <= nanos_of(since_epoch(t2)->0)
            < 0x1_0000_0000_0000_0000 * 1_000 ==> r1->0 <= r2->0 && (nanos_of(since_epoch(t2)->0)
            - nanos_of(since_epoch(t1)->0) >= 1_000 ==> r1->0 < r2->0),
{
    only_times_before_the_epoch_have_no_reading(t1);
    only_times_before_the_epoch_have_no_reading(t2);
    if let Some(d) = since_epoch(t1) {
        if nanos_of(d) < 0x1_0000_0000_0000_0000 * 1_000 {
            readings_are_whole_microseconds(t1, d);
        }
        if let Some(e) = since_epoch(t2) {
            if nanos_of(d) <= nanos_of(e) < 0x1_0000_0000_0000_0000 * 1_000 {
                readings_follow_the_clock(t1, d, t2, e);
            }
        }
    }
}

/// A reading starts again from 0 after 2^64 microseconds, and counts them on as before.
pub proof fn readings_start_again(t: SystemTime, d: Duration, laps: nat)
    requires
        since_epoch(t) == Some(d),
        laps * 0x1_0000_0000_0000_0000 * 1_000 <= nanos_of(d) < (laps + 1)
            * 0x1_0000_0000_0000_0000 * 1_000,
    ensures
        micros_at(t) is Some,
        (laps * 0x1_0000_0000_0000_0000 + micros_at(t)->0) * 1_000 <= nanos_of(d) < (laps
            * 0x1_0000_0000_0000_0000 + micros_at(t)->0 + 1) * 1_000,
{
    let micros = nanos_of(d) / 1_000;
    assert(laps * 0x1_0000_0000_0000_0000 <= micros < (laps + 1) * 0x1_0000_0000_0000_0000);
    assert(micros % 0x1_0000_0000_0000_0000 == micros - laps * 0x1_0000_0000_0000_0000);
}

} // verus!
