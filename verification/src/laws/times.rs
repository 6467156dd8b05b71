//! When updates and checks are due.

use vstd::prelude::*;

use crate::clock;
use crate::clock::Timestamp;
use crate::schedule;
use crate::schedule::{Schedule, ScheduleEvent, SchedulerCommand};

verus! {

/// Whether a time is no leap second.
pub open spec fn is_plain(time: Timestamp) -> bool {
    time.nanos < 1_000_000_000
}

/// An interval after a time is as many minutes later, to the nanosecond, and is
/// missing just where the calendar ends before.
pub proof fn law_interval(time: Timestamp, minutes: u64)
    requires
        is_plain(time),
        clock::in_calendar(time.secs as int),
        minutes <= i64::MAX,
    ensures
        ({
            let next = clock::after_interval(time, minutes);
            &&& next is Some <==> time.secs + 60 * minutes <= clock::LAST_SECOND
            &&& next matches Some(next) ==> next.secs == time.secs + 60 * minutes && next.nanos
                == time.nanos && clock::nanos_between(next, time) == minutes * 60_000_000_000
        }),
{
    if let Some(next) = clock::after_interval(time, minutes) {
        assert((60 * minutes) * 1_000_000_000 == minutes * 60_000_000_000);
    }
}

/// The wait for a run is the whole milliseconds that are left until it, and none
/// where it is due.
pub proof fn law_wait(next_run: Timestamp, now: Timestamp)
    requires
        is_plain(next_run),
        is_plain(now),
    ensures
        ({
            let left = (next_run.secs - now.secs) * 1_000_000_000 + next_run.nanos - now.nanos;
            let wait = clock::wait_millis(next_run, now);
            &&& left <= 0 ==> wait == 0
            &&& left > 0 ==> wait * 1_000_000 <= left < (wait + 1) * 1_000_000
        }),
{
}

/// The first update is due one interval after the last, and at once where there
/// was none.
pub proof fn law_first_update(last: Timestamp, minutes: u64, now: Timestamp)
    ensures
        schedule::first_update(Some(last), minutes, now) == clock::after_interval(last, minutes),
        schedule::first_update(None, minutes, now) == Some(now),
{
}

/// An update starts where it is due or asked for, a check where it is due; being
/// told to stop, or left alone, ends everything, and nothing else starts anything.
pub proof fn law_actions(event: ScheduleEvent)
    ensures
        schedule::action_on(event) is StartUpdate <==> event == ScheduleEvent::UpdateDue || event
            == ScheduleEvent::Told(SchedulerCommand::UpdateNow),
        schedule::action_on(event) is StartHealthCheck <==> event == ScheduleEvent::HealthDue,
        schedule::action_on(event) is Stop <==> event == ScheduleEvent::Abandoned || event
            == ScheduleEvent::Told(SchedulerCommand::Shutdown),
        schedule::action_on(event) is Wait <==> event == ScheduleEvent::Told(
            SchedulerCommand::HealthNow,
        ) || event == ScheduleEvent::Told(SchedulerCommand::ConfigChanged),
{
}

/// The next update moves to one interval from now where an update starts or the
/// settings change; the next check moves to one interval from now where one
/// starts, and to now where one is asked for or the settings change; else both
/// stay.
pub proof fn law_next_runs(
    before: Schedule,
    event: ScheduleEvent,
    now: Timestamp,
    update_minutes: u64,
    health_minutes: u64,
)
    ensures
        ({
            let after = schedule::schedule_on(before, event, now, update_minutes, health_minutes);
            let told_update = event == ScheduleEvent::Told(SchedulerCommand::UpdateNow);
            let told_check = event == ScheduleEvent::Told(SchedulerCommand::HealthNow);
            let told_settings = event == ScheduleEvent::Told(SchedulerCommand::ConfigChanged);
            let is_update = event == ScheduleEvent::UpdateDue || told_update;
            let is_check = event == ScheduleEvent::HealthDue;
            &&& after is None <==> (is_update || told_settings) && clock::after_interval(
                now,
                update_minutes,
            ) is None || is_check && clock::after_interval(now, health_minutes) is None
            &&& after matches Some(after) ==> {
                &&& is_update || told_settings ==> Some(after.next_update) == clock::after_interval(
                    now,
                    update_minutes,
                )
                &&& !is_update && !told_settings ==> after.next_update == before.next_update
                &&& is_check ==> Some(after.next_health) == clock::after_interval(
                    now,
                    health_minutes,
                )
                &&& told_check || told_settings ==> after.next_health == now
                &&& !is_check && !told_check && !told_settings ==> after.next_health
                    == before.next_health
            }
        }),
{
}

/// Minutes beyond what a signed number can hold count backwards from zero, as
/// they do in two's complement.
pub proof fn law_long_interval(time: Timestamp, minutes: u64)
    requires
        is_plain(time),
        clock::in_calendar(time.secs as int),
        minutes > i64::MAX,
    ensures
        ({
            let secs = time.secs + 60 * (minutes - 0x1_0000_0000_0000_0000);
            let next = clock::after_interval(time, minutes);
            &&& next is Some <==> secs >= clock::FIRST_SECOND
            &&& next matches Some(next) ==> next.secs == secs && next.nanos == time.nanos
        }),
{
}

} // verus!
