//! What the web panel shows of updates and modems.

use vstd::prelude::*;

use crate::cache;
use crate::cache::{CacheView, EntryView, ModemCacheEntry, SubscriptionCache};
use crate::clock::Timestamp;
use crate::config;
use crate::config::{AppConfig, ConfigView, ModemConfig, ModemView};
use crate::failure;
use crate::failure::Failure;
use crate::health;
use crate::health::{HealthView, ModemHealthState};
use crate::items;
use crate::items::Duplicate;
use crate::progress;
use crate::progress::{ModemProgress, ModemProgressView, ModemStage, ProgressView, UpdateProgress, UpdateStage};
use crate::strmap;
use crate::strmap::StrMap;
use crate::text;

verus! {

// ---------------------------------------------------------------------------
// Types
// ---------------------------------------------------------------------------

/// What is shown of a modem.
#[derive(Debug)]
pub struct ModemStats {
    pub modem_tag: String,
    pub modem_interface: String,
    pub stage: ModemStage,
    pub last_update: Option<Timestamp>,
    pub ping_done: usize,
    pub ping_total: usize,
    pub nodes_after_ping: usize,
    pub tunnel_done: usize,
    pub tunnel_total: usize,
    pub nodes_after_tunnel: usize,
    pub cached_nodes: usize,
    pub health_check_in_progress: bool,
    pub white_url_ok: Option<bool>,
    pub gray_url_ok: Option<bool>,
    pub whitelist_mode: bool,
    pub modem_online: Option<bool>,
    pub network_last_check: Option<Timestamp>,
    pub network_next_check: Option<Timestamp>,
    pub health_last_error: Option<String>,
    pub last_error: Option<String>,
}

/// The mathematical form of what is shown of a modem.
pub struct ModemStatsView {
    pub modem_tag: Seq<char>,
    pub modem_interface: Seq<char>,
    pub stage: ModemStage,
    pub last_update: Option<Timestamp>,
    pub ping_done: usize,
    pub ping_total: usize,
    pub nodes_after_ping: usize,
    pub tunnel_done: usize,
    pub tunnel_total: usize,
    pub nodes_after_tunnel: usize,
    pub cached_nodes: nat,
    pub health_check_in_progress: bool,
    pub white_url_ok: Option<bool>,
    pub gray_url_ok: Option<bool>,
    pub whitelist_mode: bool,
    pub modem_online: Option<bool>,
    pub network_last_check: Option<Timestamp>,
    pub network_next_check: Option<Timestamp>,
    pub health_last_error: Option<Seq<char>>,
    pub last_error: Option<Seq<char>>,
}

impl View for ModemStats {
    type V = ModemStatsView;

    open spec fn view(&self) -> ModemStatsView {
        ModemStatsView {
            modem_tag: self.modem_tag@,
            modem_interface: self.modem_interface@,
            stage: self.stage,
            last_update: self.last_update,
            ping_done: self.ping_done,
            ping_total: self.ping_total,
            nodes_after_ping: self.nodes_after_ping,
            tunnel_done: self.tunnel_done,
            tunnel_total: self.tunnel_total,
            nodes_after_tunnel: self.nodes_after_tunnel,
            cached_nodes: self.cached_nodes as nat,
            health_check_in_progress: self.health_check_in_progress,
            white_url_ok: self.white_url_ok,
            gray_url_ok: self.gray_url_ok,
            whitelist_mode: self.whitelist_mode,
            modem_online: self.modem_online,
            network_last_check: self.network_last_check,
            network_next_check: self.network_next_check,
            health_last_error: text::text_view(self.health_last_error),
            last_error: text::text_view(self.last_error),
        }
    }
}

/// What is shown of updates and modems.
#[derive(Debug)]
pub struct StatsSnapshot {
    pub last_update: Option<Timestamp>,
    pub next_update: Option<Timestamp>,
    pub is_updating: bool,
    pub stage: UpdateStage,
    pub nodes_total: usize,
    pub nodes_after_dedup: usize,
    pub modems: Vec<ModemStats>,
}

/// The mathematical form of what is shown of updates and modems.
pub struct StatsView {
    pub last_update: Option<Timestamp>,
    pub next_update: Option<Timestamp>,
    pub is_updating: bool,
    pub stage: UpdateStage,
    pub nodes_total: usize,
    pub nodes_after_dedup: usize,
    pub modems: Seq<ModemStatsView>,
}

impl View for StatsSnapshot {
    type V = StatsView;

    open spec fn view(&self) -> StatsView {
        StatsView {
            last_update: self.last_update,
            next_update: self.next_update,
            is_updating: self.is_updating,
            stage: self.stage,
            nodes_total: self.nodes_total,
            nodes_after_dedup: self.nodes_after_dedup,
            modems: items::views(self.modems@),
        }
    }
}

// ---------------------------------------------------------------------------
// One modem
// ---------------------------------------------------------------------------

/// The time of an entry.
pub open spec fn entry_time(entry: Option<EntryView>) -> Option<Timestamp> {
    match entry {
        Some(entry) => Some(entry.last_update),
        None => None,
    }
}

/// The nodes of an entry.
pub open spec fn entry_nodes(entry: Option<EntryView>) -> nat {
    match entry {
        Some(entry) => entry.nodes.len(),
        None => 0,
    }
}

/// What is shown of a modem while an update runs: how far the update has come.
pub open spec fn stats_in_update(
    modem: ModemView,
    progress: Option<ModemProgressView>,
    entry: Option<EntryView>,
    health: HealthView,
    last_error: Option<Seq<char>>,
) -> ModemStatsView {
    let progress = match progress {
        Some(progress) => progress,
        None => progress::pending_progress(modem),
    };
    ModemStatsView {
        modem_tag: modem.modem_tag,
        modem_interface: modem.modem_interface,
        stage: progress.stage,
        last_update: entry_time(entry),
        ping_done: progress.ping_done,
        ping_total: progress.ping_total,
        nodes_after_ping: progress.nodes_after_ping,
        tunnel_done: progress.tunnel_done,
        tunnel_total: progress.tunnel_total,
        nodes_after_tunnel: progress.nodes_after_tunnel,
        cached_nodes: entry_nodes(entry),
        health_check_in_progress: health.check_in_progress,
        white_url_ok: health.white_url_ok,
        gray_url_ok: health.gray_url_ok,
        whitelist_mode: health.whitelist_mode,
        modem_online: health.modem_online,
        network_last_check: health.last_check,
        network_next_check: health.next_check,
        health_last_error: health.last_error,
        last_error,
    }
}

/// What is shown of a modem while no update runs: what the last one found.
pub open spec fn stats_at_rest(
    modem: ModemView,
    entry: Option<EntryView>,
    health: HealthView,
    last_error: Option<Seq<char>>,
) -> ModemStatsView {
    let pings = match entry {
        Some(entry) => entry.nodes_after_ping,
        None => 0,
    };
    let tunnels = match entry {
        Some(entry) => entry.nodes_after_tunnel,
        None => 0,
    };
    ModemStatsView {
        modem_tag: modem.modem_tag,
        modem_interface: modem.modem_interface,
        stage: if last_error is Some {
            ModemStage::Failed
        } else if entry is Some {
            ModemStage::Complete
        } else {
            ModemStage::Pending
        },
        last_update: entry_time(entry),
        ping_done: pings,
        ping_total: pings,
        nodes_after_ping: pings,
        tunnel_done: tunnels,
        tunnel_total: tunnels,
        nodes_after_tunnel: tunnels,
        cached_nodes: entry_nodes(entry),
        health_check_in_progress: health.check_in_progress,
        white_url_ok: health.white_url_ok,
        gray_url_ok: health.gray_url_ok,
        whitelist_mode: health.whitelist_mode,
        modem_online: health.modem_online,
        network_last_check: health.last_check,
        network_next_check: health.next_check,
        health_last_error: health.last_error,
        last_error,
    }
}

/// The view of an optional entry.
pub open spec fn entry_view(entry: Option<&ModemCacheEntry>) -> Option<EntryView> {
    match entry {
        Some(entry) => Some(entry@),
        None => None,
    }
}

/// The view of an optional progress.
pub open spec fn progress_view(progress: Option<&ModemProgress>) -> Option<ModemProgressView> {
    match progress {
        Some(progress) => Some(progress@),
        None => None,
    }
}

/// What is shown of a modem while an update runs.
pub fn modem_stats_from_progress(
    modem: &ModemConfig,
    progress: Option<&ModemProgress>,
    cache: Option<&ModemCacheEntry>,
    health: &ModemHealthState,
    last_error: Option<String>,
) -> (stats: ModemStats)
    ensures
        stats@ == stats_in_update(
            modem@,
            progress_view(progress),
            entry_view(cache),
            health@,
            text::text_view(last_error),
        ),
{
    let fallback = ModemProgress::pending(modem);
    let progress = match progress {
        Some(progress) => progress,
        None => &fallback,
    };
    let (last_update, cached_nodes) = match cache {
        Some(entry) => (Some(entry.last_update), entry.nodes.len()),
        None => (None, 0),
    };
    ModemStats {
        modem_tag: modem.modem_tag.clone(),
        modem_interface: modem.modem_interface.clone(),
        stage: progress.stage,
        last_update,
        ping_done: progress.ping_done,
        ping_total: progress.ping_total,
        nodes_after_ping: progress.nodes_after_ping,
        tunnel_done: progress.tunnel_done,
        tunnel_total: progress.tunnel_total,
        nodes_after_tunnel: progress.nodes_after_tunnel,
        cached_nodes,
        health_check_in_progress: health.check_in_progress,
        white_url_ok: health.white_url_ok,
        gray_url_ok: health.gray_url_ok,
        whitelist_mode: health.whitelist_mode,
        modem_online: health.modem_online,
        network_last_check: health.last_check,
        network_next_check: health.next_check,
        health_last_error: text::copy_text(&health.last_error),
        last_error,
    }
}

/// What is shown of a modem while no update runs.
pub fn modem_stats_from_cache(
    modem: &ModemConfig,
    cache: Option<&ModemCacheEntry>,
    health: &ModemHealthState,
    last_error: Option<String>,
) -> (stats: ModemStats)
    ensures
        stats@ == stats_at_rest(
            modem@,
            entry_view(cache),
            health@,
            text::text_view(last_error),
        ),
{
    let stage = if last_error.is_some() {
        ModemStage::Failed
    } else if cache.is_some() {
        ModemStage::Complete
    } else {
        ModemStage::Pending
    };
    let (last_update, cached_nodes) = match cache {
        Some(entry) => (Some(entry.last_update), entry.nodes.len()),
        None => (None, 0),
    };
    let (nodes_after_ping, nodes_after_tunnel) = match cache {
        Some(entry) => (entry.nodes_after_ping, entry.nodes_after_tunnel),
        None => (0, 0),
    };
    ModemStats {
        modem_tag: modem.modem_tag.clone(),
        modem_interface: modem.modem_interface.clone(),
        stage,
        last_update,
        ping_done: nodes_after_ping,
        ping_total: nodes_after_ping,
        nodes_after_ping,
        tunnel_done: nodes_after_tunnel,
        tunnel_total: nodes_after_tunnel,
        nodes_after_tunnel,
        cached_nodes,
        health_check_in_progress: health.check_in_progress,
        white_url_ok: health.white_url_ok,
        gray_url_ok: health.gray_url_ok,
        whitelist_mode: health.whitelist_mode,
        modem_online: health.modem_online,
        network_last_check: health.last_check,
        network_next_check: health.next_check,
        health_last_error: text::copy_text(&health.last_error),
        last_error,
    }
}

// ---------------------------------------------------------------------------
// All modems
// ---------------------------------------------------------------------------

/// What is shown of a modem.
pub open spec fn stats_of_modem(
    modem: ModemView,
    is_updating: bool,
    progress: Map<Seq<char>, ModemProgressView>,
    entries: Map<Seq<char>, EntryView>,
    health: Map<Seq<char>, HealthView>,
) -> ModemStatsView {
    let known = match strmap::value_of(health, modem.modem_tag) {
        Some(state) => state,
        None => health::unchecked(modem, None),
    };
    let entry = strmap::value_of(entries, modem.modem_tag);
    let step = strmap::value_of(progress, modem.modem_tag);
    let last_error = match step {
        Some(step) => step.last_error,
        None => None,
    };
    if is_updating {
        stats_in_update(modem, step, entry, known, last_error)
    } else {
        stats_at_rest(modem, entry, known, last_error)
    }
}

/// What is shown of updates and modems.
pub open spec fn snapshot_of(
    config: ConfigView,
    next_update: Option<Timestamp>,
    is_updating: bool,
    progress: ProgressView,
    cache: Option<CacheView>,
    entries: Map<Seq<char>, EntryView>,
    health: Map<Seq<char>, HealthView>,
) -> Result<StatsView, Seq<char>> {
    if config.update_interval_minutes == 0 || config.network_check_interval_minutes == 0 {
        Err("invalid update interval state"@)
    } else {
        Ok(
            StatsView {
                last_update: match cache {
                    Some(cache) => Some(cache.last_update),
                    None => None,
                },
                next_update,
                is_updating,
                stage: if is_updating {
                    progress.stage
                } else {
                    UpdateStage::Idle
                },
                nodes_total: if is_updating {
                    progress.nodes_total
                } else {
                    match cache {
                        Some(cache) => cache.nodes_total,
                        None => 0,
                    }
                },
                nodes_after_dedup: if is_updating {
                    progress.nodes_after_dedup
                } else {
                    match cache {
                        Some(cache) => cache.nodes_after_dedup,
                        None => 0,
                    }
                },
                modems: config.modems.map_values(
                    |modem: ModemView|
                        stats_of_modem(modem, is_updating, progress.modems, entries, health),
                ),
            },
        )
    }
}

/// What is shown of a modem.
fn modem_stats(
    modem: &ModemConfig,
    is_updating: bool,
    progress: &StrMap<ModemProgress>,
    cache: &Option<SubscriptionCache>,
    health: &StrMap<ModemHealthState>,
) -> (stats: ModemStats)
    ensures
        stats@ == stats_of_modem(
            modem@,
            is_updating,
            progress@,
            cache::cached_entries(*cache),
            health@,
        ),
{
    let tag = modem.modem_tag.as_str();
    let step = progress.get(tag);
    let entry = match cache {
        Some(cache) => cache.by_modem.get(tag),
        None => None,
    };
    let known = match health.get(tag) {
        Some(state) => state.duplicate(),
        None => ModemHealthState::pending(modem, None),
    };
    let last_error = match step {
        Some(step) => text::copy_text(&step.last_error),
        None => None,
    };
    if is_updating {
        modem_stats_from_progress(modem, step, entry, &known, last_error)
    } else {
        modem_stats_from_cache(modem, entry, &known, last_error)
    }
}

/// What is shown of updates and modems.
pub fn stats_snapshot(
    config: &AppConfig,
    next_update: Option<Timestamp>,
    is_updating: bool,
    progress: &UpdateProgress,
    cache: &Option<SubscriptionCache>,
    health: &StrMap<ModemHealthState>,
) -> (result: Result<StatsSnapshot, Failure>)
    ensures
        failure::outcome(result) == snapshot_of(
            config@,
            next_update,
            is_updating,
            progress@,
            cache::cache_view(*cache),
            cache::cached_entries(*cache),
            health@,
        ),
{
    if config.update_interval_minutes == 0 || config.network_check_interval_minutes == 0 {
        return Err(Failure::of("invalid update interval state"));
    }
    let (last_update, cached_total, cached_dedup) = match cache {
        Some(cache) => (Some(cache.last_update), cache.nodes_total, cache.nodes_after_dedup),
        None => (None, 0, 0),
    };
    let mut modems: Vec<ModemStats> = Vec::new();
    let mut i: usize = 0;
    while i < config.modems.len()
        invariant
            i <= config.modems@.len(),
            modems@.len() == i,
            forall|j: int|
                0 <= j < i ==> (#[trigger] modems@[j])@ == stats_of_modem(
                    config.modems@[j]@,
                    is_updating,
                    progress@.modems,
                    cache::cached_entries(*cache),
                    health@,
                ),
        decreases config.modems@.len() - i,
    {
        modems.push(modem_stats(&config.modems[i], is_updating, &progress.modems, cache, health));
        i = i + 1;
    }
    assert(items::views(modems@) =~= config@.modems.map_values(
        |modem: ModemView|
            stats_of_modem(
                modem,
                is_updating,
                progress@.modems,
                cache::cached_entries(*cache),
                health@,
            ),
    ));
    Ok(
        StatsSnapshot {
            last_update,
            next_update,
            is_updating,
            stage: if is_updating {
                progress.stage
            } else {
                UpdateStage::Idle
            },
            nodes_total: if is_updating {
                progress.nodes_total
            } else {
                cached_total
            },
            nodes_after_dedup: if is_updating {
                progress.nodes_after_dedup
            } else {
                cached_dedup
            },
            modems,
        },
    )
}

/// Where the settings are valid there is something to show: a line for each
/// modem, in the order of the settings, and no update's stage while none runs.
pub proof fn law_valid_settings_have_stats(
    config: ConfigView,
    next_update: Option<Timestamp>,
    is_updating: bool,
    progress: ProgressView,
    cache: Option<CacheView>,
    entries: Map<Seq<char>, EntryView>,
    health: Map<Seq<char>, HealthView>,
)
    requires
        config::numbers_verdict(config) is Ok,
    ensures
        snapshot_of(config, next_update, is_updating, progress, cache, entries, health) matches Ok(
            stats,
        ) && stats.modems.len() == config.modems.len() && (!is_updating ==> stats.stage
            == UpdateStage::Idle) && forall|i: int|
            0 <= i < config.modems.len() ==> (#[trigger] stats.modems[i]).modem_tag
                == config.modems[i].modem_tag,
{
}

} // verus!
