//! Points in time and the distances between them.

use vstd::prelude::*;

verus! {

/// A point in time, in UTC: whole seconds since the start of 1970, and
/// nanoseconds. In a leap second the nanoseconds go on past one second.
#[derive(Debug, Clone, Copy, PartialEq, Eq, Structural)]
pub struct Timestamp {
    pub secs: i64,
    pub nanos: u32,
}

/// The second with which the calendar starts, in the year -262143.
pub const FIRST_SECOND: i64 = -8_334_601_228_800;

/// The second with which the calendar ends, in the year 262142.
pub const LAST_SECOND: i64 = 8_210_266_876_799;

/// The nanoseconds of a second.
pub const SECOND: u32 = 1_000_000_000;

/// Whether the calendar holds a second.
pub open spec fn in_calendar(secs: int) -> bool {
    FIRST_SECOND <= secs <= LAST_SECOND
}

/// Whether a point in time is one: in the calendar, and past the end of its
/// second only where that second is the last of its minute.
pub open spec fn is_time(time: Timestamp) -> bool {
    &&& in_calendar(time.secs as int)
    &&& time.nanos < SECOND || (time.nanos < 2 * SECOND && time.secs as int % 60 == 59)
}

/// The seconds of the point in time that lies `minutes` away from `time`.
pub open spec fn moved_secs(time: Timestamp, minutes: int) -> int {
    if time.nanos >= SECOND && minutes < 0 {
        time.secs + 60 * minutes + 1
    } else {
        time.secs + 60 * minutes
    }
}

/// The nanoseconds of the point in time that lies `minutes` away from `time`:
/// moving leaves a leap second.
pub open spec fn moved_nanos(time: Timestamp, minutes: int) -> int {
    if time.nanos >= SECOND && minutes != 0 {
        time.nanos - SECOND
    } else {
        time.nanos as int
    }
}

/// The point in time that lies `minutes` away from `time`, where the calendar
/// holds it.
pub open spec fn moved(time: Timestamp, minutes: int) -> Option<Timestamp> {
    if is_time(time) && in_calendar(moved_secs(time, minutes)) {
        Some(
            Timestamp {
                secs: moved_secs(time, minutes) as i64,
                nanos: moved_nanos(time, minutes) as u32,
            },
        )
    } else {
        None
    }
}

/// `chrono::DateTime::checked_add_signed` of `chrono::TimeDelta::try_minutes`,
/// on a time by `chrono::DateTime::from_timestamp`: the time that many minutes
/// away, none where the first time, the distance or the result is outside what
/// chrono can hold.
#[verifier::external_body]
fn move_by_minutes(time: Timestamp, minutes: i64) -> (result: Option<Timestamp>)
    ensures
        result == moved(time, minutes as int),
{
    let start = chrono::DateTime::from_timestamp(time.secs, time.nanos)?;
    let distance = chrono::TimeDelta::try_minutes(minutes)?;
    let end = start.checked_add_signed(distance)?;
    Some(Timestamp { secs: end.timestamp(), nanos: end.timestamp_subsec_nanos() })
}

/// A number of minutes read as a signed number of the same width.
pub open spec fn signed_minutes(minutes: u64) -> int {
    if minutes <= i64::MAX {
        minutes as int
    } else {
        minutes - 0x1_0000_0000_0000_0000
    }
}

/// The time an interval after `time`, where the calendar holds it.
pub open spec fn after_interval(time: Timestamp, interval_minutes: u64) -> Option<Timestamp> {
    moved(time, signed_minutes(interval_minutes))
}

/// The time an interval after `time`, where the calendar holds it.
pub fn compute_next_run(time: Timestamp, interval_minutes: u64) -> (next: Option<Timestamp>)
    ensures
        next == after_interval(time, interval_minutes),
{
    let minutes: i64 = if interval_minutes <= i64::MAX as u64 {
        interval_minutes as i64
    } else {
        -((u64::MAX - interval_minutes) as i64) - 1
    };
    move_by_minutes(time, minutes)
}

/// The second of the day in which `time` lies.
pub open spec fn second_of_day(time: Timestamp) -> int {
    time.secs as int % 86_400
}

/// The seconds that lie between two times for the sake of a leap second in one
/// of them.
pub open spec fn leap_between(later: Timestamp, earlier: Timestamp) -> int {
    if second_of_day(later) > second_of_day(earlier) && earlier.nanos >= SECOND {
        1
    } else if second_of_day(later) < second_of_day(earlier) && later.nanos >= SECOND {
        -1
    } else {
        0
    }
}

/// The nanoseconds from `earlier` to `later`.
pub open spec fn nanos_between(later: Timestamp, earlier: Timestamp) -> int {
    (later.secs - earlier.secs + leap_between(later, earlier)) * SECOND + later.nanos
        - earlier.nanos
}

/// `value` divided by `divisor` towards zero.
pub open spec fn quotient(value: int, divisor: int) -> int {
    if value >= 0 {
        value / divisor
    } else {
        -((-value) / divisor)
    }
}

/// `chrono::DateTime::signed_duration_since` and
/// `chrono::TimeDelta::num_milliseconds`, on times by
/// `chrono::DateTime::from_timestamp`: the whole milliseconds from `earlier` to
/// `later`, none where one of the two is no time.
#[verifier::external_body]
fn milliseconds_between(later: Timestamp, earlier: Timestamp) -> (millis: Option<i64>)
    ensures
        match millis {
            Some(millis) => is_time(later) && is_time(earlier) && millis == quotient(
                nanos_between(later, earlier),
                1_000_000,
            ),
            None => !is_time(later) || !is_time(earlier),
        },
{
    let end = chrono::DateTime::from_timestamp(later.secs, later.nanos)?;
    let start = chrono::DateTime::from_timestamp(earlier.secs, earlier.nanos)?;
    Some(end.signed_duration_since(start).num_milliseconds())
}

/// The whole milliseconds from now until `next_run`, none where it has passed.
pub open spec fn wait_millis(next_run: Timestamp, now: Timestamp) -> int {
    if nanos_between(next_run, now) > 0 {
        nanos_between(next_run, now) / 1_000_000
    } else {
        0
    }
}

/// The whole milliseconds to wait for `next_run`.
pub fn duration_until(next_run: Timestamp, now: Timestamp) -> (millis: u64)
    requires
        is_time(next_run),
        is_time(now),
    ensures
        millis == wait_millis(next_run, now),
{
    match milliseconds_between(next_run, now) {
        Some(millis) => {
            if millis <= 0 {
                0
            } else {
                millis as u64
            }
        },
        None => 0,
    }
}

/// Later runs lie later: an interval that stays in the calendar leads to a
/// later time, if it is neither empty nor so long that it wraps around.
pub proof fn law_next_run_is_later(time: Timestamp, interval_minutes: u64)
    requires
        0 < interval_minutes <= i64::MAX,
        after_interval(time, interval_minutes) is Some,
    ensures
        ({
            let next = after_interval(time, interval_minutes)->0;
            &&& is_time(next)
            &&& nanos_between(next, time) > 0
        }),
{
}

/// What has passed is not waited for.
pub proof fn law_no_wait_for_the_past(next_run: Timestamp, now: Timestamp)
    requires
        nanos_between(next_run, now) <= 0,
    ensures
        wait_millis(next_run, now) == 0,
{
}

} // verus!
