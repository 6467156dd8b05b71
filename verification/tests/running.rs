//! Schedules, progress, checks and updates.

use xray_sub_manager::branch::{finish_branch, Branch, BranchEvent};
use xray_sub_manager::cache::{ModemCacheEntry, SubscriptionCache};
use xray_sub_manager::clock::{compute_next_run, duration_until, Timestamp, FIRST_SECOND, LAST_SECOND};
use xray_sub_manager::config::{AppConfig, ModemConfig};
use xray_sub_manager::events::UpdateEvent;
use xray_sub_manager::health::{
    begin_check, check_gray, check_white, concurrent_checks, curl_args, finish_check,
    initial_health_state, read_curl_end, sync_health, CurlEnd, ModemHealthState, ProbeOutcome,
};
use xray_sub_manager::node::{Node, Protocol};
use xray_sub_manager::progress::{
    initial_modem_progress, ModemProgress, ModemStage, ModemStep, ProgressKind, UpdateProgress,
    UpdateStage,
};
use xray_sub_manager::schedule::{
    initial_next_run, Moment, Schedule, ScheduleAction, ScheduleEvent, Scheduler, SchedulerCommand,
};
use xray_sub_manager::stats::stats_snapshot;
use xray_sub_manager::strmap::StrMap;
use xray_sub_manager::update::{collect_nodes, give_up_message, take_distinct, take_fetched, Retry};

const NOW: Timestamp = Timestamp { secs: 1_700_000_000, nanos: 0 };

fn at(secs: i64, nanos: u32) -> Timestamp {
    Timestamp { secs, nanos }
}

fn modem(tag: &str) -> ModemConfig {
    ModemConfig { modem_tag: tag.to_string(), modem_interface: format!("if-{tag}") }
}

fn config(tags: &[&str]) -> AppConfig {
    let mut config = AppConfig::default_with("a".to_string(), "s".to_string());
    config.modems = tags.iter().map(|tag| modem(tag)).collect();
    config
}

fn node(name: &str) -> Node {
    Node::unprobed(
        Protocol::Trojan,
        name.to_string(),
        1,
        StrMap::new(),
        name.to_string(),
        "u".to_string(),
    )
}

// Time

#[test]
fn runs_lie_an_interval_apart() {
    assert_eq!(compute_next_run(NOW, 60), Some(at(1_700_003_600, 0)));
    assert_eq!(compute_next_run(at(0, 7), 0), Some(at(0, 7)));
    assert_eq!(compute_next_run(at(100, 7), u64::MAX), Some(at(40, 7)));
    assert_eq!(compute_next_run(NOW, u64::MAX / 2), None);
    assert_eq!(compute_next_run(at(LAST_SECOND - 60, 0), 1), Some(at(LAST_SECOND, 0)));
    assert_eq!(compute_next_run(at(LAST_SECOND - 59, 0), 1), None);
    assert_eq!(compute_next_run(at(LAST_SECOND + 1, 0), 0), None);
    assert_eq!(compute_next_run(at(FIRST_SECOND, 0), 0), Some(at(FIRST_SECOND, 0)));
    assert_eq!(compute_next_run(at(FIRST_SECOND - 1, 0), 1), None);
    assert_eq!(compute_next_run(at(0, 1_000_000_000), 1), None);
    assert_eq!(compute_next_run(at(0, 2_000_000_000), 1), None);
}

#[test]
fn leap_seconds_are_left() {
    let leap = at(1_435_708_799, 1_500_000_000);
    assert_eq!(compute_next_run(leap, 0), Some(leap));
    assert_eq!(compute_next_run(leap, 1), Some(at(1_435_708_859, 500_000_000)));
    assert_eq!(compute_next_run(leap, u64::MAX), Some(at(1_435_708_740, 500_000_000)));
    assert_eq!(duration_until(at(1_435_708_800, 0), leap), 0);
    assert_eq!(duration_until(leap, at(1_435_708_799, 0)), 1500);
    assert_eq!(duration_until(at(1_435_708_860, 0), leap), 60_000 - 500 + 0);
}

#[test]
fn waits_are_counted_in_whole_milliseconds() {
    assert_eq!(duration_until(at(10, 0), at(8, 500_000_001)), 1499);
    assert_eq!(duration_until(at(10, 0), at(10, 0)), 0);
    assert_eq!(duration_until(at(10, 999_999), at(10, 0)), 0);
    assert_eq!(duration_until(at(8, 0), at(10, 0)), 0);
    assert_eq!(duration_until(at(LAST_SECOND, 0), at(FIRST_SECOND, 0)), 16_544_868_105_599_000);
}

// The schedule

#[test]
fn the_first_update_follows_the_last_one() {
    let cache = Some(SubscriptionCache::empty(at(1000, 1), 0, 0, 0));
    assert_eq!(initial_next_run(&cache, 2, NOW), Some(at(1120, 1)));
    assert_eq!(initial_next_run(&None, 2, NOW), Some(NOW));
}

#[test]
fn the_schedule_moves_on() {
    let start = Schedule { next_update: at(10, 0), next_health: at(20, 0) };
    let after = |event: ScheduleEvent| start.after(event, NOW, 60, 10).unwrap();
    let told = ScheduleEvent::Told;
    let hour = at(1_700_003_600, 0);
    let ten = at(1_700_000_600, 0);
    assert_eq!(after(ScheduleEvent::UpdateDue), Schedule { next_update: hour, ..start });
    assert_eq!(after(ScheduleEvent::HealthDue), Schedule { next_health: ten, ..start });
    assert_eq!(after(told(SchedulerCommand::UpdateNow)), Schedule { next_update: hour, ..start });
    assert_eq!(after(told(SchedulerCommand::HealthNow)), Schedule { next_health: NOW, ..start });
    assert_eq!(
        after(told(SchedulerCommand::ConfigChanged)),
        Schedule { next_update: hour, next_health: NOW }
    );
    assert_eq!(after(told(SchedulerCommand::Shutdown)), start);
    assert_eq!(Schedule::action(ScheduleEvent::UpdateDue), ScheduleAction::StartUpdate);
    assert_eq!(Schedule::action(ScheduleEvent::HealthDue), ScheduleAction::StartHealthCheck);
    assert_eq!(Schedule::action(told(SchedulerCommand::HealthNow)), ScheduleAction::Wait);
    assert_eq!(Schedule::action(told(SchedulerCommand::ConfigChanged)), ScheduleAction::Wait);
    assert_eq!(Schedule::action(told(SchedulerCommand::Shutdown)), ScheduleAction::Stop);
    assert_eq!(Schedule::action(ScheduleEvent::Abandoned), ScheduleAction::Stop);
    assert_eq!(start.after(ScheduleEvent::UpdateDue, NOW, u64::MAX / 2, 1), None);
}

#[test]
fn the_scheduler_runs_until_it_is_told_to_stop() {
    let told = ScheduleEvent::Told;
    let moment = |event: ScheduleEvent, secs: i64| Moment {
        event,
        now: at(secs, 0),
        update_minutes: 60,
        health_minutes: 10,
    };
    let start = Scheduler::Running(Schedule { next_update: at(10, 0), next_health: at(20, 0) });
    for stop in [told(SchedulerCommand::Shutdown), ScheduleEvent::Abandoned] {
        let mut scheduler = start;
        let mut started = 0;
        for (event, secs) in [
            (told(SchedulerCommand::UpdateNow), 1),
            (told(SchedulerCommand::HealthNow), 2),
            (told(SchedulerCommand::UpdateNow), 3),
        ] {
            if scheduler.action(&moment(event, secs)) == ScheduleAction::StartUpdate {
                started += 1;
            }
            scheduler = scheduler.after(&moment(event, secs)).unwrap();
        }
        assert_eq!(started, 2);
        assert_eq!(scheduler.next_update(), Some(at(3603, 0)));
        assert_eq!(scheduler.action(&moment(stop, 4)), ScheduleAction::Stop);
        let mut last = moment(stop, 4);
        last.update_minutes = u64::MAX;
        scheduler = scheduler.after(&last).unwrap();
        assert_eq!(scheduler, Scheduler::Stopped);
        assert_eq!(scheduler.next_update(), None);
        let late = moment(told(SchedulerCommand::UpdateNow), 5);
        assert_eq!(scheduler.action(&late), ScheduleAction::Stop);
        assert_eq!(scheduler.after(&late), Some(Scheduler::Stopped));
    }
    let mut far = moment(ScheduleEvent::UpdateDue, 1);
    far.update_minutes = u64::MAX / 2;
    assert_eq!(start.after(&far), None);
}

// Progress

#[test]
fn progress_starts_for_every_modem() {
    let config = config(&["a", "b"]);
    let idle = UpdateProgress::idle_for_config(&config);
    assert!(!idle.is_updating && idle.started_at.is_none());
    assert_eq!(idle.stage, UpdateStage::Idle);
    let started = UpdateProgress::started_for_config(&config, NOW);
    assert!(started.is_updating);
    assert_eq!(started.started_at, Some(NOW));
    assert_eq!(started.stage, UpdateStage::Fetch);
    assert_eq!(started.modems.len(), 2);
    let a = started.modems.get("a").unwrap();
    assert_eq!(a.stage, ModemStage::Pending);
    assert_eq!(a.modem_interface, "if-a");
    assert_eq!(initial_modem_progress(&vec![modem("x"), modem("x")]).len(), 1);
}

#[test]
fn an_update_goes_through_its_stages() {
    let mut progress = UpdateProgress::started_for_config(&config(&["a"]), NOW);
    progress.fetched(9);
    assert_eq!((progress.stage, progress.nodes_total), (UpdateStage::Dedup, 9));
    progress.deduplicated(7);
    assert_eq!((progress.stage, progress.nodes_after_dedup), (UpdateStage::Modems, 7));
    progress.finished(true);
    assert!(!progress.is_updating);
    assert_eq!(progress.stage, UpdateStage::Complete);
    progress.finished(false);
    assert_eq!(progress.stage, UpdateStage::Failed);
}

#[test]
fn a_modem_goes_through_its_steps() {
    let mut progress = UpdateProgress::started_for_config(&config(&["a", "b"]), NOW);
    let mut step = |step: ModemStep| {
        progress.update_modem("a", &step);
        progress.update_modem("unknown", &step);
        assert_eq!(progress.modems.get("b").unwrap().stage, ModemStage::Pending);
        assert_eq!(progress.modems.len(), 2);
        progress.modems.get("a").unwrap().clone()
    };
    assert_eq!(step(ModemStep::Skipped("why".to_string())).stage, ModemStage::Skipped);
    let health = step(ModemStep::Health);
    assert_eq!((health.stage, health.last_error), (ModemStage::Health, None));
    let ping = step(ModemStep::PingStarted(5));
    assert_eq!((ping.stage, ping.ping_done, ping.ping_total), (ModemStage::Ping, 0, 5));
    let counted = step(ModemStep::Counted(ProgressKind::Ping, 2, 5));
    assert_eq!((counted.ping_done, counted.ping_total), (2, 5));
    let done = step(ModemStep::PingFinished(5, 4));
    assert_eq!((done.ping_done, done.nodes_after_ping), (5, 4));
    let tunnel = step(ModemStep::TunnelStarted(4));
    assert_eq!((tunnel.stage, tunnel.tunnel_done, tunnel.tunnel_total), (ModemStage::Tunnel, 0, 4));
    let counted = step(ModemStep::Counted(ProgressKind::Tunnel, 3, 4));
    assert_eq!((counted.tunnel_done, counted.tunnel_total), (3, 4));
    let failed = step(ModemStep::Failed("no".to_string()));
    assert_eq!((failed.stage, failed.last_error.as_deref()), (ModemStage::Failed, Some("no")));
    let complete = step(ModemStep::Completed(4, 3));
    assert_eq!(complete.stage, ModemStage::Complete);
    assert_eq!((complete.tunnel_done, complete.nodes_after_tunnel), (4, 3));
    assert_eq!(complete.last_error, None);
}

#[test]
fn progress_keeps_up_with_the_settings() {
    let mut progress = UpdateProgress::started_for_config(&config(&["a", "b"]), NOW);
    progress.update_modem("b", &ModemStep::PingStarted(1));
    let mut moved = modem("b");
    moved.modem_interface = "new".to_string();
    progress.sync_modems(&vec![moved, modem("c")]);
    assert_eq!(progress.modems.len(), 2);
    assert!(progress.modems.get("a").is_none());
    let b = progress.modems.get("b").unwrap();
    assert_eq!((b.stage, b.modem_interface.as_str()), (ModemStage::Ping, "new"));
    assert_eq!(progress.modems.get("c").unwrap().stage, ModemStage::Pending);
}

// Checks

#[test]
fn curl_is_called_with_its_arguments() {
    assert_eq!(
        curl_args("http://u", "wwan0", 3999),
        vec![
            "--silent", "--show-error", "--fail", "--location", "--output", "/dev/null",
            "--connect-timeout", "3", "--max-time", "3", "--interface", "wwan0", "http://u",
        ]
    );
    assert_eq!(curl_args("u", "i", 0)[7], "1");
    assert_eq!(curl_args("u", "i", 1000)[9], "1");
}

#[test]
fn the_end_of_curl_is_read() {
    let reason = |end: CurlEnd| match read_curl_end(&end, "U", "I", 1500) {
        ProbeOutcome::Failed(reason) => reason,
        other => panic!("{other:?}"),
    };
    assert_eq!(reason(CurlEnd::TimedOut), "curl probe timed out after 1500 ms");
    assert_eq!(reason(CurlEnd::NotRun("no curl".to_string())), "failed to execute curl: no curl");
    let exited = |code: Option<i32>| CurlEnd::Exited(code, "exit status: X".to_string(), b" bad \xff\n".to_vec());
    assert_eq!(
        reason(exited(Some(28))),
        "curl exited with status exit status: X while checking U via I: bad \u{fffd}"
    );
    assert!(reason(exited(Some(45))).starts_with("curl exited"));
    assert!(matches!(read_curl_end(&exited(Some(7)), "U", "I", 1), ProbeOutcome::Unreached));
    assert!(matches!(read_curl_end(&exited(None), "U", "I", 1), ProbeOutcome::Unreached));
    assert!(matches!(read_curl_end(&CurlEnd::Succeeded, "U", "I", 1), ProbeOutcome::Reached));
}

#[test]
fn a_check_decides_page_by_page() {
    let (state, more) = check_white(&modem("a"), NOW, &ProbeOutcome::Reached);
    assert!(more);
    assert_eq!((state.white_url_ok, state.modem_online), (Some(true), Some(true)));
    assert_eq!((state.last_check, state.next_check), (Some(NOW), None));
    let open = check_gray(state.clone(), &ProbeOutcome::Reached);
    assert_eq!((open.gray_url_ok, open.whitelist_mode), (Some(true), false));
    let listed = check_gray(state.clone(), &ProbeOutcome::Unreached);
    assert_eq!((listed.gray_url_ok, listed.whitelist_mode, listed.last_error), (Some(false), true, None));
    let failed = check_gray(state, &ProbeOutcome::Failed("x".to_string()));
    assert_eq!((failed.whitelist_mode, failed.last_error.as_deref()), (true, Some("x")));
    let (off, more) = check_white(&modem("a"), NOW, &ProbeOutcome::Unreached);
    assert!(!more);
    assert_eq!((off.white_url_ok, off.gray_url_ok, off.modem_online), (Some(false), None, Some(false)));
    let (bad, more) = check_white(&modem("a"), NOW, &ProbeOutcome::Failed("y".to_string()));
    assert!(!more);
    assert_eq!(bad.last_error.as_deref(), Some("y"));
}

#[test]
fn checks_are_noted() {
    let mut states: StrMap<ModemHealthState> = StrMap::new();
    let begun = begin_check(&mut states, &modem("a"), Some(NOW));
    assert!(begun.check_in_progress && begun.last_check.is_none());
    assert_eq!(begun.next_check, Some(NOW));
    let (state, _) = check_white(&modem("a"), at(5, 0), &ProbeOutcome::Failed("z".to_string()));
    let done = finish_check(&mut states, &modem("a"), state, Some(at(9, 0)));
    assert!(!done.check_in_progress);
    assert_eq!(done.next_check, Some(at(9, 0)));
    assert_eq!(states.get("a").unwrap().last_error.as_deref(), Some("z"));
    let mut moved = modem("a");
    moved.modem_interface = "new".to_string();
    let again = begin_check(&mut states, &moved, None);
    assert_eq!(again.last_error, None);
    assert_eq!(again.white_url_ok, Some(false));
    assert_eq!(again.modem_interface, "new");
    assert_eq!(states.len(), 1);
}

#[test]
fn known_modems_keep_up_with_the_settings() {
    let mut states = initial_health_state(&vec![modem("a"), modem("b")], None);
    assert_eq!(states.len(), 2);
    begin_check(&mut states, &modem("b"), None);
    sync_health(&mut states, &vec![modem("b"), modem("c")], Some(NOW));
    assert!(states.get("a").is_none());
    assert!(states.get("b").unwrap().check_in_progress);
    assert_eq!(states.get("b").unwrap().next_check, Some(NOW));
    assert_eq!(states.get("c").unwrap().modem_online, None);
}

#[test]
fn some_checks_run_at_once() {
    assert_eq!(concurrent_checks(20, 3), 3);
    assert_eq!(concurrent_checks(2, 3), 2);
    assert_eq!(concurrent_checks(0, 3), 1);
    assert_eq!(concurrent_checks(5, 0), 1);
}

// Messages

#[test]
fn messages_have_their_fields() {
    let started = UpdateEvent::update_started();
    assert_eq!(started.event, "update_started");
    assert_eq!(started.stage.as_deref(), Some("fetch"));
    assert_eq!(started.message.as_deref(), Some("Update started"));
    assert!(started.modem_tag.is_none() && started.done.is_none());
    let failed = UpdateEvent::update_failed("why".to_string());
    assert_eq!((failed.stage.as_deref(), failed.message.as_deref()), (Some("failed"), Some("why")));
    let complete = UpdateEvent::update_complete(3, 2, 1);
    assert_eq!(complete.event, "update_complete");
    assert_eq!((complete.nodes_total, complete.nodes_after_dedup, complete.nodes_after_tunnel), (Some(3), Some(2), Some(1)));
    let count = UpdateEvent::probe_counted(&modem("a"), ProgressKind::Tunnel, 1, 2);
    assert_eq!(count.event, "modem_tunnel_progress");
    assert_eq!(count.stage.as_deref(), Some("tunnel"));
    assert_eq!((count.done, count.total), (Some(1), Some(2)));
    assert_eq!(UpdateEvent::probe_counted(&modem("a"), ProgressKind::Ping, 1, 2).event, "modem_ping_progress");
    let mut state = ModemHealthState::pending(&modem("a"), Some(NOW));
    let result = UpdateEvent::health_checked(&state);
    assert_eq!(result.event, "modem_health_result");
    assert_eq!((result.whitelist_mode, result.health_check_in_progress), (Some(false), Some(false)));
    assert_eq!(result.next_check, Some(NOW));
    state.last_error = Some("bad".to_string());
    let failed = UpdateEvent::health_checked(&state);
    assert_eq!((failed.event.as_str(), failed.message.as_deref()), ("modem_health_failed", Some("bad")));
}

// Statistics

#[test]
fn statistics_show_the_cache_at_rest() {
    let config = config(&["a", "b"]);
    let mut cache = SubscriptionCache::empty(NOW, 8, 6, 5);
    cache.by_modem.insert(
        "a".to_string(),
        ModemCacheEntry {
            modem_tag: "a".to_string(),
            modem_interface: "i".to_string(),
            last_update: at(3, 0),
            nodes_after_ping: 5,
            nodes_after_tunnel: 2,
            nodes: vec![node("n")],
        },
    );
    let mut progress = UpdateProgress::idle_for_config(&config);
    progress.update_modem("b", &ModemStep::Failed("down".to_string()));
    let health = initial_health_state(&config.modems, Some(NOW));
    let cache = Some(cache);
    let stats = stats_snapshot(&config, Some(at(9, 9)), false, &progress, &cache, &health).unwrap();
    assert_eq!(stats.stage, UpdateStage::Idle);
    assert_eq!((stats.last_update, stats.next_update), (Some(NOW), Some(at(9, 9))));
    assert_eq!((stats.nodes_total, stats.nodes_after_dedup), (8, 6));
    let a = &stats.modems[0];
    assert_eq!((a.stage, a.last_update), (ModemStage::Complete, Some(at(3, 0))));
    assert_eq!((a.ping_done, a.ping_total, a.tunnel_done, a.cached_nodes), (5, 5, 2, 1));
    assert_eq!(a.network_next_check, Some(NOW));
    let b = &stats.modems[1];
    assert_eq!((b.stage, b.last_error.as_deref()), (ModemStage::Failed, Some("down")));
    assert_eq!((b.nodes_after_ping, b.cached_nodes), (0, 0));

    progress.fetched(4);
    progress.update_modem("a", &ModemStep::PingStarted(4));
    let stats = stats_snapshot(&config, None, true, &progress, &cache, &StrMap::new()).unwrap();
    assert_eq!((stats.stage, stats.nodes_total), (UpdateStage::Dedup, 4));
    assert_eq!((stats.modems[0].stage, stats.modems[0].ping_total), (ModemStage::Ping, 4));
    assert_eq!(stats.modems[0].network_next_check, None);
    assert_eq!(stats.modems[1].stage, ModemStage::Failed);

    let mut broken = config;
    broken.network_check_interval_minutes = 0;
    let refused = stats_snapshot(&broken, None, true, &progress, &None, &StrMap::new());
    assert_eq!(refused.unwrap_err().message(), "invalid update interval state");
}

#[test]
fn a_pending_modem_is_shown_as_such() {
    let config = config(&["a"]);
    let progress = UpdateProgress::idle_for_config(&config);
    let stats = stats_snapshot(&config, None, false, &progress, &None, &StrMap::new()).unwrap();
    assert_eq!(stats.modems[0].stage, ModemStage::Pending);
    assert_eq!(stats.last_update, None);
    assert_eq!(ModemProgress::pending(&modem("a")).ping_total, 0);
}

// Updates

#[test]
fn fetching_is_tried_three_times() {
    let first = Retry::first();
    assert_eq!((first.attempt, first.delay_secs), (1, 1));
    let second = first.after_failure().unwrap();
    assert_eq!((second.attempt, second.delay_secs), (2, 2));
    let third = second.after_failure().unwrap();
    assert_eq!((third.attempt, third.delay_secs), (3, 4));
    assert!(third.after_failure().is_none());
    let long = Retry { attempt: 1, delay_secs: u64::MAX - 1 };
    assert_eq!(long.after_failure().unwrap().delay_secs, u64::MAX);
    assert_eq!(give_up_message("U"), "failed to fetch U after 3 attempts");
}

#[test]
fn fetched_bodies_become_nodes() {
    let one = "trojan://p@one:1#1\ntrojan://q@two:1#2".to_string();
    let bodies = vec![Some(one.clone()), None, Some("rubbish".to_string()), Some(String::new()), Some(one)];
    let (nodes, refused) = collect_nodes(&bodies);
    assert_eq!(nodes.len(), 4);
    assert_eq!(
        refused,
        vec![None, None, Some("no valid nodes found in URI list".to_string()), None, None]
    );
    let mut progress = UpdateProgress::started_for_config(&config(&["a"]), NOW);
    let (nodes, event, reasons) = take_fetched(&mut progress, &bodies);
    assert_eq!(reasons, refused);
    assert_eq!(nodes[2].host, "one");
    assert_eq!((event.event.as_str(), event.nodes_total), ("fetch_complete", Some(4)));
    assert_eq!((progress.stage, progress.nodes_total), (UpdateStage::Dedup, 4));
    let (distinct, event) = take_distinct(&mut progress, nodes);
    assert_eq!(distinct.len(), 2);
    assert_eq!((event.event.as_str(), event.nodes_after_dedup), ("dedup_complete", Some(2)));
    assert_eq!(event.stage.as_deref(), Some("modems"));
    assert_eq!((progress.stage, progress.nodes_after_dedup), (UpdateStage::Modems, 2));
}

fn healthy(whitelist_mode: bool) -> BranchEvent {
    let mut state = ModemHealthState::pending(&modem("a"), None);
    state.white_url_ok = Some(true);
    state.whitelist_mode = whitelist_mode;
    BranchEvent::Checked(state)
}

fn timed(name: &str, millis: u64) -> Node {
    let mut node = node(name);
    node.tunnel_ok = true;
    node.tunnel_ms = Some(millis);
    node
}

#[test]
fn a_healthy_modem_ends_with_an_entry() {
    let modem = modem("a");
    let (branch, step) = Branch::start(vec![node("x"), node("y"), node("z")]);
    assert!(matches!(step, ModemStep::Health));
    let (branch, report) = branch.advance(&modem, healthy(true), NOW);
    assert!(report.steps.is_empty() && report.events.is_empty());
    let (branch, report) = branch.advance(&modem, BranchEvent::Bound, NOW);
    assert!(matches!(report.steps[0], ModemStep::PingStarted(3)));
    let (branch, report) = branch.advance(&modem, BranchEvent::Pinged(vec![node("x"), node("y")]), NOW);
    assert!(matches!(report.steps[0], ModemStep::PingFinished(3, 2)));
    assert!(matches!(report.steps[1], ModemStep::TunnelStarted(2)));
    assert_eq!(report.events[0].event, "modem_ping_complete");
    let (branch, report) = branch.advance(&modem, BranchEvent::Probed(vec![]), NOW);
    assert!(report.steps.is_empty());
    let (branch, report) =
        branch.advance(&modem, BranchEvent::Probed(vec![timed("y", 9), timed("x", 3)]), at(7, 7));
    assert!(matches!(report.steps[0], ModemStep::Completed(2, 2)));
    assert_eq!(report.events[0].event, "modem_complete");
    assert_eq!(report.events[0].nodes_after_ping, Some(2));
    match branch {
        Branch::Done(entry) => {
            assert_eq!(entry.modem_tag, "a");
            assert_eq!(entry.last_update, at(7, 7));
            assert_eq!((entry.nodes_after_ping, entry.nodes_after_tunnel), (2, 2));
            assert_eq!(entry.nodes[0].host, "x");
            assert_eq!(entry.nodes[0].display_name, "\u{1F310} Unknown #1");
            assert_eq!(entry.nodes[1].display_name, "\u{1F310} Unknown #2");
        }
        other => panic!("{other:?}"),
    }
}

#[test]
fn an_open_network_is_probed_once() {
    let modem = modem("a");
    let (branch, _) = Branch::start(vec![node("x")]);
    let (branch, _) = branch.advance(&modem, healthy(false), NOW);
    let (branch, _) = branch.advance(&modem, BranchEvent::Bound, NOW);
    let (branch, _) = branch.advance(&modem, BranchEvent::Pinged(vec![node("x")]), NOW);
    let (branch, _) = branch.advance(&modem, BranchEvent::Probed(vec![]), NOW);
    assert!(matches!(branch, Branch::Done(_)));
}

#[test]
fn an_unhealthy_modem_fails_for_its_reason() {
    let modem = modem("a");
    let (branch, _) = Branch::start(vec![]);
    let state = ModemHealthState::pending(&modem, None);
    let (branch, report) = branch.advance(&modem, BranchEvent::Checked(state), NOW);
    match &branch {
        Branch::Failed(reason) => assert_eq!(reason, "modem_offline"),
        other => panic!("{other:?}"),
    }
    assert!(matches!(&report.steps[0], ModemStep::Skipped(reason) if reason == "modem_offline"));
    assert!(matches!(&report.steps[1], ModemStep::Failed(reason) if reason == "modem_offline"));
    assert_eq!(report.events[0].event, "modem_failed");
    assert_eq!(report.events[0].message.as_deref(), Some("modem_offline"));
    let (branch, report) = branch.advance(&modem, BranchEvent::Bound, NOW);
    assert!(matches!(branch, Branch::Failed(_)) && report.steps.is_empty());

    let (branch, _) = Branch::start(vec![]);
    let (branch, _) = branch.advance(&modem, healthy(false), NOW);
    let (branch, report) = branch.advance(&modem, BranchEvent::NotBound("denied".to_string()), NOW);
    match branch {
        Branch::Failed(reason) => {
            assert_eq!(reason, "failed to bind TCP socket to interface if-a: denied")
        }
        other => panic!("{other:?}"),
    }
    assert_eq!(report.events.len(), 1);
}

#[test]
fn entries_are_in_order() {
    let entry = finish_branch(&modem("a"), 5, vec![timed("slow", 30), timed("quick", 1)], NOW);
    assert_eq!(entry.nodes_after_ping, 5);
    assert_eq!(entry.nodes[0].host, "quick");
    assert_eq!(entry.nodes[1].host, "slow");
    assert_ne!(entry.nodes[0].display_name, entry.nodes[1].display_name);
}

#[test]
fn entries_hold_some_of_the_nodes() {
    let modem = modem("a");
    let nodes = vec![node("x"), node("y"), node("z")];
    let (branch, _) = Branch::start(nodes.clone());
    let (branch, _) = branch.advance(&modem, healthy(false), NOW);
    let (branch, _) = branch.advance(&modem, BranchEvent::Bound, NOW);
    let (branch, _) = branch.advance(&modem, BranchEvent::Pinged(vec![node("z"), node("x")]), NOW);
    let (branch, _) = branch.advance(&modem, BranchEvent::Probed(vec![timed("x", 3)]), NOW);
    match branch {
        Branch::Done(entry) => {
            assert!(entry.nodes_after_tunnel <= entry.nodes_after_ping);
            assert!(entry.nodes_after_ping <= nodes.len());
            assert_eq!(entry.nodes.len(), 1);
            assert_eq!(entry.nodes[0].host, nodes[0].host);
            assert_eq!(entry.nodes[0].original_uri, nodes[0].original_uri);
        }
        other => panic!("{other:?}"),
    }
}
