//! What is shown of modems, and what is told while they are updated.

use vstd::prelude::*;
use vstd::string::*;

use crate::cache::{CacheView, EntryView};
use crate::clock::Timestamp;
use crate::config::{ConfigView, ModemView};
use crate::events;
use crate::events::EventView;
use crate::health::HealthView;
use crate::progress::{ModemProgressView, ProgressKind, ProgressView};
use crate::stats;

verus! {

// ---------------------------------------------------------------------------
// Statistics
// ---------------------------------------------------------------------------

/// A modem is shown by its name and interface, with what is known of its
/// connection, what is kept for it and when that was found, and why its last
/// update failed, whether an update is going on or not.
pub proof fn law_shown_of_modem(
    modem: ModemView,
    is_updating: bool,
    progress: Map<Seq<char>, ModemProgressView>,
    entries: Map<Seq<char>, EntryView>,
    health: Map<Seq<char>, HealthView>,
)
    ensures
        ({
            let tag = modem.modem_tag;
            let shown = stats::stats_of_modem(modem, is_updating, progress, entries, health);
            &&& shown.modem_tag == tag
            &&& shown.modem_interface == modem.modem_interface
            &&& entries.contains_key(tag) ==> shown.last_update == Some(entries[tag].last_update)
                && shown.cached_nodes == entries[tag].nodes.len()
            &&& !entries.contains_key(tag) ==> shown.last_update is None && shown.cached_nodes == 0
            &&& progress.contains_key(tag) ==> shown.last_error == progress[tag].last_error
            &&& !progress.contains_key(tag) ==> shown.last_error is None
            &&& health.contains_key(tag) ==> {
                &&& shown.health_check_in_progress == health[tag].check_in_progress
                &&& shown.white_url_ok == health[tag].white_url_ok
                &&& shown.gray_url_ok == health[tag].gray_url_ok
                &&& shown.whitelist_mode == health[tag].whitelist_mode
                &&& shown.modem_online == health[tag].modem_online
                &&& shown.network_last_check == health[tag].last_check
                &&& shown.network_next_check == health[tag].next_check
                &&& shown.health_last_error == health[tag].last_error
            }
            &&& !health.contains_key(tag) ==> {
                &&& !shown.health_check_in_progress
                &&& shown.white_url_ok is None
                &&& shown.gray_url_ok is None
                &&& !shown.whitelist_mode
                &&& shown.modem_online is None
                &&& shown.network_last_check is None
                &&& shown.network_next_check is None
                &&& shown.health_last_error is None
            }
        }),
{
}

/// While an update goes on, a modem is shown at its stage and with its counts; one
/// of which there is no progress is pending.
pub proof fn law_shown_in_update(
    modem: ModemView,
    progress: Map<Seq<char>, ModemProgressView>,
    entries: Map<Seq<char>, EntryView>,
    health: Map<Seq<char>, HealthView>,
)
    ensures
        ({
            let tag = modem.modem_tag;
            let shown = stats::stats_of_modem(modem, true, progress, entries, health);
            &&& progress.contains_key(tag) ==> {
                &&& shown.stage == progress[tag].stage
                &&& shown.ping_done == progress[tag].ping_done
                &&& shown.ping_total == progress[tag].ping_total
                &&& shown.nodes_after_ping == progress[tag].nodes_after_ping
                &&& shown.tunnel_done == progress[tag].tunnel_done
                &&& shown.tunnel_total == progress[tag].tunnel_total
                &&& shown.nodes_after_tunnel == progress[tag].nodes_after_tunnel
            }
            &&& !progress.contains_key(tag) ==> {
                &&& shown.stage is Pending
                &&& shown.ping_done == 0
                &&& shown.ping_total == 0
                &&& shown.nodes_after_ping == 0
                &&& shown.tunnel_done == 0
                &&& shown.tunnel_total == 0
                &&& shown.nodes_after_tunnel == 0
            }
        }),
{
}

/// At rest, a modem is shown as failed where its last update failed, else as
/// complete where something is kept for it, else as pending; its counts are those
/// of what is kept.
pub proof fn law_shown_at_rest(
    modem: ModemView,
    progress: Map<Seq<char>, ModemProgressView>,
    entries: Map<Seq<char>, EntryView>,
    health: Map<Seq<char>, HealthView>,
)
    ensures
        ({
            let tag = modem.modem_tag;
            let shown = stats::stats_of_modem(modem, false, progress, entries, health);
            let has_failed = progress.contains_key(tag) && progress[tag].last_error is Some;
            let pings = if entries.contains_key(tag) {
                entries[tag].nodes_after_ping
            } else {
                0
            };
            let tunnels = if entries.contains_key(tag) {
                entries[tag].nodes_after_tunnel
            } else {
                0
            };
            &&& shown.stage is Failed <==> has_failed
            &&& shown.stage is Complete <==> !has_failed && entries.contains_key(tag)
            &&& shown.stage is Pending <==> !has_failed && !entries.contains_key(tag)
            &&& shown.ping_done == pings
            &&& shown.ping_total == pings
            &&& shown.nodes_after_ping == pings
            &&& shown.tunnel_done == tunnels
            &&& shown.tunnel_total == tunnels
            &&& shown.nodes_after_tunnel == tunnels
        }),
{
}

/// The statistics say when the last update was and the next will be, and show
/// every modem in its place; the stage and the counts are those of an update that
/// goes on, and else those of the last. They are refused just where an interval is
/// zero.
pub proof fn law_statistics(
    config: ConfigView,
    next_update: Option<Timestamp>,
    is_updating: bool,
    progress: ProgressView,
    cache: Option<CacheView>,
    entries: Map<Seq<char>, EntryView>,
    health: Map<Seq<char>, HealthView>,
)
    ensures
        ({
            let found = stats::snapshot_of(
                config,
                next_update,
                is_updating,
                progress,
                cache,
                entries,
                health,
            );
            &&& found is Err <==> config.update_interval_minutes == 0
                || config.network_check_interval_minutes == 0
            &&& found matches Err(message) ==> message == "invalid update interval state"@
            &&& found matches Ok(shown) ==> {
                &&& shown.next_update == next_update
                &&& shown.is_updating == is_updating
                &&& cache is Some <==> shown.last_update is Some
                &&& cache matches Some(cache) ==> shown.last_update == Some(cache.last_update)
                &&& is_updating ==> shown.stage == progress.stage && shown.nodes_total
                    == progress.nodes_total && shown.nodes_after_dedup == progress.nodes_after_dedup
                &&& !is_updating ==> shown.stage is Idle
                &&& !is_updating && cache is Some ==> shown.nodes_total == cache->0.nodes_total
                    && shown.nodes_after_dedup == cache->0.nodes_after_dedup
                &&& !is_updating && cache is None ==> shown.nodes_total == 0
                    && shown.nodes_after_dedup == 0
                &&& shown.modems.len() == config.modems.len()
                &&& forall|i: int|
                    0 <= i < config.modems.len() ==> #[trigger] shown.modems[i]
                        == stats::stats_of_modem(
                        config.modems[i],
                        is_updating,
                        progress.modems,
                        entries,
                        health,
                    )
            }
        }),
{
}

// ---------------------------------------------------------------------------
// Events
// ---------------------------------------------------------------------------

/// Whether an event says nothing of a modem.
pub open spec fn is_of_no_modem(event: EventView) -> bool {
    &&& event.modem_tag is None
    &&& event.modem_interface is None
}

/// Whether an event says nothing of the connection of a modem.
pub open spec fn tells_no_health(event: EventView) -> bool {
    &&& event.white_url_ok is None
    &&& event.gray_url_ok is None
    &&& event.whitelist_mode is None
    &&& event.modem_online is None
    &&& event.health_check_in_progress is None
    &&& event.last_check is None
    &&& event.next_check is None
}

/// The events of an update as a whole: their names, the stage that comes, and the
/// counts so far; nothing is said of a modem.
pub proof fn law_update_events(nodes_total: usize, nodes_after_dedup: usize, working: usize)
    ensures
        ({
            let fetched = events::event_of_fetch(nodes_total);
            let dedup = events::event_of_dedup(nodes_total, nodes_after_dedup);
            let complete = events::event_of_completion(nodes_total, nodes_after_dedup, working);
            &&& fetched.event == "fetch_complete"@
            &&& fetched.stage == Some("dedup"@)
            &&& fetched.nodes_total == Some(nodes_total)
            &&& fetched.nodes_after_dedup is None
            &&& fetched.nodes_after_tunnel is None
            &&& dedup.event == "dedup_complete"@
            &&& dedup.stage == Some("modems"@)
            &&& dedup.nodes_total == Some(nodes_total)
            &&& dedup.nodes_after_dedup == Some(nodes_after_dedup)
            &&& dedup.nodes_after_tunnel is None
            &&& complete.event == "update_complete"@
            &&& complete.stage == Some("complete"@)
            &&& complete.nodes_total == Some(nodes_total)
            &&& complete.nodes_after_dedup == Some(nodes_after_dedup)
            &&& complete.nodes_after_tunnel == Some(working)
        }),
        forall|event: EventView|
            (event == events::event_of_fetch(nodes_total) || event == events::event_of_dedup(
                nodes_total,
                nodes_after_dedup,
            ) || event == events::event_of_completion(nodes_total, nodes_after_dedup, working)) ==> {
                &&& #[trigger] is_of_no_modem(event)
                &&& tells_no_health(event)
                &&& event.done is None
                &&& event.total is None
                &&& event.nodes_after_ping is None
                &&& event.message is None
            },
{
}

/// The events of the update of a modem: each names the modem and its interface,
/// the stage, and the counts or the reason that it tells.
pub proof fn law_modem_events(
    modem: ModemView,
    message: Seq<char>,
    answered: usize,
    working: usize,
    kind: ProgressKind,
    done: usize,
    total: usize,
)
    ensures
        ({
            let failed = events::event_of_modem_failure(modem, message);
            let pinged = events::event_of_pings(modem, answered);
            let complete = events::event_of_modem_completion(modem, answered, working);
            let counted = events::event_of_count(modem, kind, done, total);
            &&& failed.event == "modem_failed"@
            &&& failed.stage == Some("failed"@)
            &&& failed.message == Some(message)
            &&& failed.nodes_after_ping is None
            &&& failed.nodes_after_tunnel is None
            &&& pinged.event == "modem_ping_complete"@
            &&& pinged.stage == Some("ping"@)
            &&& pinged.nodes_after_ping == Some(answered)
            &&& pinged.nodes_after_tunnel is None
            &&& pinged.message is None
            &&& complete.event == "modem_complete"@
            &&& complete.stage == Some("complete"@)
            &&& complete.nodes_after_ping == Some(answered)
            &&& complete.nodes_after_tunnel == Some(working)
            &&& complete.message is None
            &&& kind is Ping ==> counted.event == "modem_ping_progress"@ && counted.stage == Some(
                "ping"@,
            )
            &&& kind is Tunnel ==> counted.event == "modem_tunnel_progress"@ && counted.stage
                == Some("tunnel"@)
            &&& counted.done == Some(done)
            &&& counted.total == Some(total)
            &&& counted.nodes_after_ping is None
            &&& counted.nodes_after_tunnel is None
            &&& counted.message is None
            &&& failed.done is None && pinged.done is None && complete.done is None
            &&& failed.total is None && pinged.total is None && complete.total is None
        }),
        forall|event: EventView|
            (event == events::event_of_modem_failure(modem, message) || event
                == events::event_of_pings(modem, answered) || event
                == events::event_of_modem_completion(modem, answered, working) || event
                == events::event_of_count(modem, kind, done, total)) ==> {
                &&& event.modem_tag == Some(modem.modem_tag)
                &&& event.modem_interface == Some(modem.modem_interface)
                &&& #[trigger] tells_no_health(event)
                &&& event.nodes_total is None
                &&& event.nodes_after_dedup is None
            },
{
}

/// An event of a check tells everything that is known of the connection, and no
/// count; it is told as a failure just where there is an error.
pub proof fn law_health_events(name: Seq<char>, state: HealthView)
    ensures
        events::event_of_check(state) == events::event_of_health(
            if state.last_error is Some {
                "modem_health_failed"@
            } else {
                "modem_health_result"@
            },
            state,
        ),
        ({
            let event = events::event_of_health(name, state);
            &&& event.event == name
            &&& event.modem_tag == Some(state.modem_tag)
            &&& event.modem_interface == Some(state.modem_interface)
            &&& event.health_check_in_progress == Some(state.check_in_progress)
            &&& event.white_url_ok == state.white_url_ok
            &&& event.gray_url_ok == state.gray_url_ok
            &&& event.whitelist_mode == Some(state.whitelist_mode)
            &&& event.modem_online == state.modem_online
            &&& event.last_check == state.last_check
            &&& event.next_check == state.next_check
            &&& event.message == state.last_error
            &&& event.stage is None
            &&& event.done is None
            &&& event.total is None
            &&& event.nodes_total is None
            &&& event.nodes_after_dedup is None
            &&& event.nodes_after_ping is None
            &&& event.nodes_after_tunnel is None
        }),
{
}

/// An event says its name, and what it is of, and nothing else.
pub proof fn law_plain_events(name: Seq<char>, modem: ModemView)
    ensures
        forall|event: EventView|
            (event == events::bare_event(name) || event == events::event_of_modem(name, modem))
                ==> {
                &&& event.event == name
                &&& #[trigger] tells_no_health(event)
                &&& event.stage is None
                &&& event.done is None
                &&& event.total is None
                &&& event.nodes_total is None
                &&& event.nodes_after_dedup is None
                &&& event.nodes_after_ping is None
                &&& event.nodes_after_tunnel is None
                &&& event.message is None
            },
        is_of_no_modem(events::bare_event(name)),
        events::event_of_modem(name, modem).modem_tag == Some(modem.modem_tag),
        events::event_of_modem(name, modem).modem_interface == Some(modem.modem_interface),
{
}

} // verus!
