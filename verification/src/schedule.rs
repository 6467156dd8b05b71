//! When updates and checks of the modems run.

use vstd::prelude::*;

use crate::cache::SubscriptionCache;
use crate::clock;
use crate::clock::Timestamp;

verus! {

/// What the scheduler can be told.
#[derive(Debug, Clone, Copy, PartialEq, Eq, Structural)]
pub enum SchedulerCommand {
    UpdateNow,
    HealthNow,
    ConfigChanged,
    Shutdown,
}

/// What the scheduler waits for.
#[derive(Debug, Clone, Copy, PartialEq, Eq, Structural)]
pub enum ScheduleEvent {
    /// The time of the next update has come.
    UpdateDue,
    /// The time of the next check has come.
    HealthDue,
    /// It was told something.
    Told(SchedulerCommand),
    /// Nobody is left who could tell it something.
    Abandoned,
}

/// What the scheduler does.
#[derive(Debug, Clone, Copy, PartialEq, Eq, Structural)]
pub enum ScheduleAction {
    StartUpdate,
    StartHealthCheck,
    Wait,
    Stop,
}

/// When the next update and the next check run.
#[derive(Debug, Clone, Copy, PartialEq, Eq, Structural)]
pub struct Schedule {
    pub next_update: Timestamp,
    pub next_health: Timestamp,
}

/// The time of the first update: an interval after the last one, or now where
/// there was none.
pub open spec fn first_update(
    last_update: Option<Timestamp>,
    interval_minutes: u64,
    now: Timestamp,
) -> Option<Timestamp> {
    match last_update {
        Some(time) => clock::after_interval(time, interval_minutes),
        None => Some(now),
    }
}

/// The time of the last update, where there was one.
pub open spec fn last_update_of(cache: Option<SubscriptionCache>) -> Option<Timestamp> {
    match cache {
        Some(cache) => Some(cache.last_update),
        None => None,
    }
}

/// The time of the first update; none where the calendar does not hold it.
pub fn initial_next_run(
    cache: &Option<SubscriptionCache>,
    interval_minutes: u64,
    now: Timestamp,
) -> (next: Option<Timestamp>)
    ensures
        next == first_update(last_update_of(*cache), interval_minutes, now),
{
    match cache {
        Some(cache) => clock::compute_next_run(cache.last_update, interval_minutes),
        None => Some(now),
    }
}

/// What the scheduler does when something happens.
pub open spec fn action_on(event: ScheduleEvent) -> ScheduleAction {
    match event {
        ScheduleEvent::UpdateDue => ScheduleAction::StartUpdate,
        ScheduleEvent::HealthDue => ScheduleAction::StartHealthCheck,
        ScheduleEvent::Told(SchedulerCommand::UpdateNow) => ScheduleAction::StartUpdate,
        ScheduleEvent::Told(SchedulerCommand::HealthNow) => ScheduleAction::Wait,
        ScheduleEvent::Told(SchedulerCommand::ConfigChanged) => ScheduleAction::Wait,
        ScheduleEvent::Told(SchedulerCommand::Shutdown) => ScheduleAction::Stop,
        ScheduleEvent::Abandoned => ScheduleAction::Stop,
    }
}

/// The time of the next update after something has happened at `now`.
pub open spec fn next_update_on(
    schedule: Schedule,
    event: ScheduleEvent,
    now: Timestamp,
    interval_minutes: u64,
) -> Option<Timestamp> {
    match event {
        ScheduleEvent::UpdateDue
        | ScheduleEvent::Told(SchedulerCommand::UpdateNow)
        | ScheduleEvent::Told(SchedulerCommand::ConfigChanged) => clock::after_interval(
            now,
            interval_minutes,
        ),
        _ => Some(schedule.next_update),
    }
}

/// The time of the next check after something has happened at `now`.
pub open spec fn next_health_on(
    schedule: Schedule,
    event: ScheduleEvent,
    now: Timestamp,
    interval_minutes: u64,
) -> Option<Timestamp> {
    match event {
        ScheduleEvent::HealthDue => clock::after_interval(now, interval_minutes),
        ScheduleEvent::Told(SchedulerCommand::HealthNow)
        | ScheduleEvent::Told(SchedulerCommand::ConfigChanged) => Some(now),
        _ => Some(schedule.next_health),
    }
}

/// The schedule after something has happened at `now`; none where the calendar
/// does not hold one of its times.
pub open spec fn schedule_on(
    schedule: Schedule,
    event: ScheduleEvent,
    now: Timestamp,
    update_minutes: u64,
    health_minutes: u64,
) -> Option<Schedule> {
    match next_update_on(schedule, event, now, update_minutes) {
        None => None,
        Some(next_update) => match next_health_on(schedule, event, now, health_minutes) {
            None => None,
            Some(next_health) => Some(Schedule { next_update, next_health }),
        },
    }
}

impl Schedule {
    /// What the scheduler does when something happens.
    pub fn action(event: ScheduleEvent) -> (action: ScheduleAction)
        ensures
            action == action_on(event),
    {
        match event {
            ScheduleEvent::UpdateDue => ScheduleAction::StartUpdate,
            ScheduleEvent::HealthDue => ScheduleAction::StartHealthCheck,
            ScheduleEvent::Told(SchedulerCommand::UpdateNow) => ScheduleAction::StartUpdate,
            ScheduleEvent::Told(SchedulerCommand::HealthNow) => ScheduleAction::Wait,
            ScheduleEvent::Told(SchedulerCommand::ConfigChanged) => ScheduleAction::Wait,
            ScheduleEvent::Told(SchedulerCommand::Shutdown) => ScheduleAction::Stop,
            ScheduleEvent::Abandoned => ScheduleAction::Stop,
        }
    }

    /// The schedule after something has happened at `now`.
    pub fn after(
        &self,
        event: ScheduleEvent,
        now: Timestamp,
        update_minutes: u64,
        health_minutes: u64,
    ) -> (next: Option<Schedule>)
        ensures
            next == schedule_on(*self, event, now, update_minutes, health_minutes),
    {
        let next_update = match event {
            ScheduleEvent::UpdateDue
            | ScheduleEvent::Told(SchedulerCommand::UpdateNow)
            | ScheduleEvent::Told(SchedulerCommand::ConfigChanged) => clock::compute_next_run(
                now,
                update_minutes,
            ),
            _ => Some(self.next_update),
        };
        let next_health = match event {
            ScheduleEvent::HealthDue => clock::compute_next_run(now, health_minutes),
            ScheduleEvent::Told(SchedulerCommand::HealthNow)
            | ScheduleEvent::Told(SchedulerCommand::ConfigChanged) => Some(now),
            _ => Some(self.next_health),
        };
        match (next_update, next_health) {
            (Some(next_update), Some(next_health)) => Some(Schedule { next_update, next_health }),
            _ => None,
        }
    }
}

/// The scheduler: at work by a schedule, or at its end.
#[derive(Debug, Clone, Copy, PartialEq, Eq, Structural)]
pub enum Scheduler {
    Running(Schedule),
    Stopped,
}

/// The time of the next update that is shown while the scheduler is in a state:
/// none once it has stopped.
pub open spec fn shown_next_update(scheduler: Scheduler) -> Option<Timestamp> {
    match scheduler {
        Scheduler::Running(schedule) => Some(schedule.next_update),
        Scheduler::Stopped => None,
    }
}

/// Something that happens, when it does, and the intervals of the settings by
/// then.
#[derive(Debug, Clone, Copy, PartialEq, Eq, Structural)]
pub struct Moment {
    pub event: ScheduleEvent,
    pub now: Timestamp,
    pub update_minutes: u64,
    pub health_minutes: u64,
}

/// What the scheduler does at a moment: nothing once it has stopped.
pub open spec fn action_at(scheduler: Scheduler, moment: Moment) -> ScheduleAction {
    match scheduler {
        Scheduler::Running(_) => action_on(moment.event),
        Scheduler::Stopped => ScheduleAction::Stop,
    }
}

/// The scheduler after a moment; none where the calendar does not hold one of
/// its times.
pub open spec fn scheduler_at(scheduler: Scheduler, moment: Moment) -> Option<Scheduler> {
    match scheduler {
        Scheduler::Stopped => Some(Scheduler::Stopped),
        Scheduler::Running(schedule) => if action_on(moment.event) is Stop {
            Some(Scheduler::Stopped)
        } else {
            match schedule_on(
                schedule,
                moment.event,
                moment.now,
                moment.update_minutes,
                moment.health_minutes,
            ) {
                Some(schedule) => Some(Scheduler::Running(schedule)),
                None => None,
            }
        },
    }
}

impl Scheduler {
    /// The time of the next update that is to be shown.
    pub fn next_update(&self) -> (next: Option<Timestamp>)
        ensures
            next == shown_next_update(*self),
    {
        match self {
            Scheduler::Running(schedule) => Some(schedule.next_update),
            Scheduler::Stopped => None,
        }
    }

    /// What the scheduler does at a moment.
    pub fn action(&self, moment: &Moment) -> (action: ScheduleAction)
        ensures
            action == action_at(*self, *moment),
    {
        match self {
            Scheduler::Running(_) => Schedule::action(moment.event),
            Scheduler::Stopped => ScheduleAction::Stop,
        }
    }

    /// The scheduler after a moment.
    pub fn after(&self, moment: &Moment) -> (next: Option<Scheduler>)
        ensures
            next == scheduler_at(*self, *moment),
    {
        match self {
            Scheduler::Stopped => Some(Scheduler::Stopped),
            Scheduler::Running(schedule) => {
                if Schedule::action(moment.event) == ScheduleAction::Stop {
                    return Some(Scheduler::Stopped);
                }
                match schedule.after(
                    moment.event,
                    moment.now,
                    moment.update_minutes,
                    moment.health_minutes,
                ) {
                    Some(schedule) => Some(Scheduler::Running(schedule)),
                    None => None,
                }
            },
        }
    }
}

/// An update that starts puts the next one an interval off; a check that starts
/// does so for the next check; and being told to check, or of new settings,
/// makes a check due at once.
pub proof fn law_schedule_moves_on(
    schedule: Schedule,
    event: ScheduleEvent,
    now: Timestamp,
    update_minutes: u64,
    health_minutes: u64,
)
    requires
        schedule_on(schedule, event, now, update_minutes, health_minutes) is Some,
    ensures
        ({
            let next = schedule_on(schedule, event, now, update_minutes, health_minutes)->0;
            &&& action_on(event) is StartUpdate ==> Some(next.next_update) == clock::after_interval(
                now,
                update_minutes,
            ) && next.next_health == schedule.next_health
            &&& action_on(event) is StartHealthCheck ==> Some(next.next_health)
                == clock::after_interval(now, health_minutes) && next.next_update
                == schedule.next_update
            &&& event == ScheduleEvent::Told(SchedulerCommand::HealthNow) ==> next.next_health
                == now && next.next_update == schedule.next_update
            &&& event == ScheduleEvent::Told(SchedulerCommand::ConfigChanged) ==> next.next_health
                == now
            &&& action_on(event) is Stop ==> next == schedule
        }),
{
}

// ---------------------------------------------------------------------------
// Runs
// ---------------------------------------------------------------------------

/// The scheduler after moments, one behind the other; none where the calendar
/// does not hold one of its times.
pub open spec fn scheduler_after(scheduler: Scheduler, moments: Seq<Moment>) -> Option<Scheduler>
    decreases moments.len(),
{
    if moments.len() == 0 {
        Some(scheduler)
    } else {
        match scheduler_after(scheduler, moments.drop_last()) {
            Some(earlier) => scheduler_at(earlier, moments.last()),
            None => None,
        }
    }
}

/// What the scheduler does in the course of moments.
pub open spec fn actions_in(scheduler: Scheduler, moments: Seq<Moment>) -> Seq<ScheduleAction> {
    Seq::new(
        moments.len(),
        |i: int| action_at(scheduler_after(scheduler, moments.take(i))->0, moments[i]),
    )
}

/// Whether the scheduler is told to stop, or abandoned, at some moment.
pub open spec fn has_stop(moments: Seq<Moment>) -> bool {
    exists|i: int| 0 <= i < moments.len() && action_on((#[trigger] moments[i]).event) is Stop
}

/// The scheduler runs until it is told to stop or abandoned, and from then on it
/// has stopped.
proof fn lemma_runs_until_stop(scheduler: Scheduler, moments: Seq<Moment>)
    requires
        scheduler is Running,
        scheduler_after(scheduler, moments) is Some,
    ensures
        scheduler_after(scheduler, moments)->0 is Stopped <==> has_stop(moments),
    decreases moments.len(),
{
    if moments.len() > 0 {
        let earlier = moments.drop_last();
        lemma_runs_until_stop(scheduler, earlier);
        if has_stop(earlier) {
            let i = choose|i: int|
                0 <= i < earlier.len() && action_on((#[trigger] earlier[i]).event) is Stop;
            assert(moments[i] == earlier[i]);
        } else if has_stop(moments) {
            let i = choose|i: int|
                0 <= i < moments.len() && action_on((#[trigger] moments[i]).event) is Stop;
            if i < earlier.len() {
                assert(earlier[i] == moments[i]);
            }
        } else {
            assert(moments[moments.len() - 1] == moments.last());
        }
    }
}

/// A run that the calendar holds is held from its start.
proof fn lemma_held_before(scheduler: Scheduler, moments: Seq<Moment>, i: int)
    requires
        0 <= i <= moments.len(),
        scheduler_after(scheduler, moments) is Some,
    ensures
        scheduler_after(scheduler, moments.take(i)) is Some,
    decreases moments.len() - i,
{
    if i < moments.len() {
        lemma_held_before(scheduler, moments, i + 1);
        assert(moments.take(i + 1).drop_last() =~= moments.take(i));
    } else {
        assert(moments.take(i) =~= moments);
    }
}

/// Once it has been told to stop, or nobody is left who could tell it something,
/// the scheduler comes to its end: no time of a next update is shown any more,
/// whatever happens.
pub proof fn law_stop_ends_the_run(scheduler: Scheduler, moments: Seq<Moment>)
    requires
        scheduler is Running,
        has_stop(moments),
        scheduler_after(scheduler, moments) is Some,
    ensures
        scheduler_after(scheduler, moments)->0 is Stopped,
        shown_next_update(scheduler_after(scheduler, moments)->0) is None,
{
    lemma_runs_until_stop(scheduler, moments);
}

/// As long as it has not been told to stop, the scheduler starts one update each
/// time that it is told to, and each time that one is due, and at no other time;
/// and then the next one is shown an interval off.
pub proof fn law_each_request_starts_an_update(
    scheduler: Scheduler,
    moments: Seq<Moment>,
    i: int,
)
    requires
        scheduler is Running,
        scheduler_after(scheduler, moments) is Some,
        0 <= i < moments.len(),
        !has_stop(moments.take(i)),
    ensures
        actions_in(scheduler, moments)[i] is StartUpdate <==> moments[i].event
            == ScheduleEvent::Told(SchedulerCommand::UpdateNow) || moments[i].event
            == ScheduleEvent::UpdateDue,
        actions_in(scheduler, moments)[i] is StartUpdate ==> shown_next_update(
            scheduler_after(scheduler, moments.take(i + 1))->0,
        ) == clock::after_interval(moments[i].now, moments[i].update_minutes),
{
    lemma_held_before(scheduler, moments, i);
    lemma_held_before(scheduler, moments, i + 1);
    lemma_runs_until_stop(scheduler, moments.take(i));
    assert(moments.take(i + 1).drop_last() =~= moments.take(i));
    assert(moments.take(i + 1).last() == moments[i]);
}

/// After it has been told to stop, the scheduler does nothing more.
pub proof fn law_nothing_is_done_after_the_end(
    scheduler: Scheduler,
    moments: Seq<Moment>,
    i: int,
)
    requires
        scheduler is Running,
        scheduler_after(scheduler, moments) is Some,
        0 <= i < moments.len(),
        has_stop(moments.take(i)),
    ensures
        actions_in(scheduler, moments)[i] is Stop,
{
    lemma_held_before(scheduler, moments, i);
    lemma_runs_until_stop(scheduler, moments.take(i));
}

/// Stopping asks nothing of the calendar: a run that it holds up to then can
/// always be ended.
pub proof fn law_stop_is_always_heard(
    scheduler: Scheduler,
    moments: Seq<Moment>,
    last: Moment,
)
    requires
        scheduler_after(scheduler, moments) is Some,
        action_on(last.event) is Stop,
    ensures
        scheduler_after(scheduler, moments.push(last)) == Some(Scheduler::Stopped),
{
    assert(moments.push(last).drop_last() =~= moments);
}

} // verus!
