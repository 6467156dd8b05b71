//! What the web panel is told while an update runs.

use vstd::prelude::*;

use crate::clock::Timestamp;
use crate::config::{ModemConfig, ModemView};
use crate::health::{HealthView, ModemHealthState};
use crate::progress::ProgressKind;
use crate::text;

verus! {

/// A message to the web panel.
#[derive(Debug)]
pub struct UpdateEvent {
    pub event: String,
    pub stage: Option<String>,
    pub modem_tag: Option<String>,
    pub modem_interface: Option<String>,
    pub done: Option<usize>,
    pub total: Option<usize>,
    pub nodes_total: Option<usize>,
    pub nodes_after_dedup: Option<usize>,
    pub nodes_after_ping: Option<usize>,
    pub nodes_after_tunnel: Option<usize>,
    pub white_url_ok: Option<bool>,
    pub gray_url_ok: Option<bool>,
    pub whitelist_mode: Option<bool>,
    pub modem_online: Option<bool>,
    pub health_check_in_progress: Option<bool>,
    pub last_check: Option<Timestamp>,
    pub next_check: Option<Timestamp>,
    pub message: Option<String>,
}

/// The mathematical form of a message to the web panel.
pub struct EventView {
    pub event: Seq<char>,
    pub stage: Option<Seq<char>>,
    pub modem_tag: Option<Seq<char>>,
    pub modem_interface: Option<Seq<char>>,
    pub done: Option<usize>,
    pub total: Option<usize>,
    pub nodes_total: Option<usize>,
    pub nodes_after_dedup: Option<usize>,
    pub nodes_after_ping: Option<usize>,
    pub nodes_after_tunnel: Option<usize>,
    pub white_url_ok: Option<bool>,
    pub gray_url_ok: Option<bool>,
    pub whitelist_mode: Option<bool>,
    pub modem_online: Option<bool>,
    pub health_check_in_progress: Option<bool>,
    pub last_check: Option<Timestamp>,
    pub next_check: Option<Timestamp>,
    pub message: Option<Seq<char>>,
}

impl View for UpdateEvent {
    type V = EventView;

    open spec fn view(&self) -> EventView {
        EventView {
            event: self.event@,
            stage: text::text_view(self.stage),
            modem_tag: text::text_view(self.modem_tag),
            modem_interface: text::text_view(self.modem_interface),
            done: self.done,
            total: self.total,
            nodes_total: self.nodes_total,
            nodes_after_dedup: self.nodes_after_dedup,
            nodes_after_ping: self.nodes_after_ping,
            nodes_after_tunnel: self.nodes_after_tunnel,
            white_url_ok: self.white_url_ok,
            gray_url_ok: self.gray_url_ok,
            whitelist_mode: self.whitelist_mode,
            modem_online: self.modem_online,
            health_check_in_progress: self.health_check_in_progress,
            last_check: self.last_check,
            next_check: self.next_check,
            message: text::text_view(self.message),
        }
    }
}

/// A message with nothing but its name.
pub open spec fn bare_event(name: Seq<char>) -> EventView {
    EventView {
        event: name,
        stage: None,
        modem_tag: None,
        modem_interface: None,
        done: None,
        total: None,
        nodes_total: None,
        nodes_after_dedup: None,
        nodes_after_ping: None,
        nodes_after_tunnel: None,
        white_url_ok: None,
        gray_url_ok: None,
        whitelist_mode: None,
        modem_online: None,
        health_check_in_progress: None,
        last_check: None,
        next_check: None,
        message: None,
    }
}

/// A message about a modem.
pub open spec fn event_of_modem(name: Seq<char>, modem: ModemView) -> EventView {
    EventView {
        modem_tag: Some(modem.modem_tag),
        modem_interface: Some(modem.modem_interface),
        ..bare_event(name)
    }
}

/// A message about the connection of a modem.
pub open spec fn event_of_health(name: Seq<char>, state: HealthView) -> EventView {
    EventView {
        modem_tag: Some(state.modem_tag),
        modem_interface: Some(state.modem_interface),
        health_check_in_progress: Some(state.check_in_progress),
        white_url_ok: state.white_url_ok,
        gray_url_ok: state.gray_url_ok,
        whitelist_mode: Some(state.whitelist_mode),
        modem_online: state.modem_online,
        last_check: state.last_check,
        next_check: state.next_check,
        message: state.last_error,
        ..bare_event(name)
    }
}

/// The message when a check of a modem is over.
pub open spec fn event_of_check(state: HealthView) -> EventView {
    event_of_health(
        if state.last_error is Some {
            "modem_health_failed"@
        } else {
            "modem_health_result"@
        },
        state,
    )
}

/// The message when subscriptions have been fetched.
pub open spec fn event_of_fetch(nodes_total: usize) -> EventView {
    EventView {
        stage: Some("dedup"@),
        nodes_total: Some(nodes_total),
        ..bare_event("fetch_complete"@)
    }
}

/// The message when duplicates have been removed.
pub open spec fn event_of_dedup(nodes_total: usize, nodes_after_dedup: usize) -> EventView {
    EventView {
        stage: Some("modems"@),
        nodes_total: Some(nodes_total),
        nodes_after_dedup: Some(nodes_after_dedup),
        ..bare_event("dedup_complete"@)
    }
}

/// The message when an update is over.
pub open spec fn event_of_completion(
    nodes_total: usize,
    nodes_after_dedup: usize,
    nodes_after_tunnel: usize,
) -> EventView {
    EventView {
        stage: Some("complete"@),
        nodes_total: Some(nodes_total),
        nodes_after_dedup: Some(nodes_after_dedup),
        nodes_after_tunnel: Some(nodes_after_tunnel),
        ..bare_event("update_complete"@)
    }
}

/// The message when the update has failed for a modem.
pub open spec fn event_of_modem_failure(modem: ModemView, message: Seq<char>) -> EventView {
    EventView {
        stage: Some("failed"@),
        message: Some(message),
        ..event_of_modem("modem_failed"@, modem)
    }
}

/// The message when the nodes have been pinged for a modem.
pub open spec fn event_of_pings(modem: ModemView, nodes_after_ping: usize) -> EventView {
    EventView {
        stage: Some("ping"@),
        nodes_after_ping: Some(nodes_after_ping),
        ..event_of_modem("modem_ping_complete"@, modem)
    }
}

/// The message when all is done for a modem.
pub open spec fn event_of_modem_completion(
    modem: ModemView,
    nodes_after_ping: usize,
    nodes_after_tunnel: usize,
) -> EventView {
    EventView {
        stage: Some("complete"@),
        nodes_after_ping: Some(nodes_after_ping),
        nodes_after_tunnel: Some(nodes_after_tunnel),
        ..event_of_modem("modem_complete"@, modem)
    }
}

/// The message when one more probe is done for a modem.
pub open spec fn event_of_count(
    modem: ModemView,
    kind: ProgressKind,
    done: usize,
    total: usize,
) -> EventView {
    match kind {
        ProgressKind::Ping => EventView {
            stage: Some("ping"@),
            done: Some(done),
            total: Some(total),
            ..event_of_modem("modem_ping_progress"@, modem)
        },
        ProgressKind::Tunnel => EventView {
            stage: Some("tunnel"@),
            done: Some(done),
            total: Some(total),
            ..event_of_modem("modem_tunnel_progress"@, modem)
        },
    }
}

impl UpdateEvent {
    /// A message with nothing but its name.
    pub fn new(event: &str) -> (result: Self)
        ensures
            result@ == bare_event(event@),
    {
        UpdateEvent {
            event: event.to_string(),
            stage: None,
            modem_tag: None,
            modem_interface: None,
            done: None,
            total: None,
            nodes_total: None,
            nodes_after_dedup: None,
            nodes_after_ping: None,
            nodes_after_tunnel: None,
            white_url_ok: None,
            gray_url_ok: None,
            whitelist_mode: None,
            modem_online: None,
            health_check_in_progress: None,
            last_check: None,
            next_check: None,
            message: None,
        }
    }

    /// The message when an update starts.
    pub fn update_started() -> (event: Self)
        ensures
            event@ == (EventView {
                stage: Some("fetch"@),
                message: Some("Update started"@),
                ..bare_event("update_started"@)
            }),
    {
        let mut event = UpdateEvent::new("update_started");
        event.stage = Some("fetch".to_string());
        event.message = Some("Update started".to_string());
        event
    }

    /// The message when an update fails.
    pub fn update_failed(message: String) -> (event: Self)
        ensures
            event@ == (EventView {
                stage: Some("failed"@),
                message: Some(message@),
                ..bare_event("update_failed"@)
            }),
    {
        let mut event = UpdateEvent::new("update_failed");
        event.stage = Some("failed".to_string());
        event.message = Some(message);
        event
    }

    /// A message about a modem.
    pub fn modem_event(event_name: &str, modem: &ModemConfig) -> (event: Self)
        ensures
            event@ == event_of_modem(event_name@, modem@),
    {
        let mut event = UpdateEvent::new(event_name);
        event.modem_tag = Some(modem.modem_tag.clone());
        event.modem_interface = Some(modem.modem_interface.clone());
        event
    }

    /// A message about the connection of a modem.
    pub fn health_event(event_name: &str, state: &ModemHealthState) -> (event: Self)
        ensures
            event@ == event_of_health(event_name@, state@),
    {
        let mut event = UpdateEvent::new(event_name);
        event.modem_tag = Some(state.modem_tag.clone());
        event.modem_interface = Some(state.modem_interface.clone());
        event.health_check_in_progress = Some(state.check_in_progress);
        event.white_url_ok = state.white_url_ok;
        event.gray_url_ok = state.gray_url_ok;
        event.whitelist_mode = Some(state.whitelist_mode);
        event.modem_online = state.modem_online;
        event.last_check = state.last_check;
        event.next_check = state.next_check;
        event.message = text::copy_text(&state.last_error);
        event
    }

    /// The message when a check of a modem is over.
    pub fn health_checked(state: &ModemHealthState) -> (event: Self)
        ensures
            event@ == event_of_check(state@),
    {
        if state.last_error.is_some() {
            UpdateEvent::health_event("modem_health_failed", state)
        } else {
            UpdateEvent::health_event("modem_health_result", state)
        }
    }

    /// The message when subscriptions have been fetched.
    pub fn fetch_complete(nodes_total: usize) -> (event: Self)
        ensures
            event@ == event_of_fetch(nodes_total),
    {
        let mut event = UpdateEvent::new("fetch_complete");
        event.stage = Some("dedup".to_string());
        event.nodes_total = Some(nodes_total);
        event
    }

    /// The message when duplicates have been removed.
    pub fn dedup_complete(nodes_total: usize, nodes_after_dedup: usize) -> (event: Self)
        ensures
            event@ == event_of_dedup(nodes_total, nodes_after_dedup),
    {
        let mut event = UpdateEvent::new("dedup_complete");
        event.stage = Some("modems".to_string());
        event.nodes_total = Some(nodes_total);
        event.nodes_after_dedup = Some(nodes_after_dedup);
        event
    }

    /// The message when an update is over.
    pub fn update_complete(
        nodes_total: usize,
        nodes_after_dedup: usize,
        nodes_after_tunnel: usize,
    ) -> (event: Self)
        ensures
            event@ == event_of_completion(nodes_total, nodes_after_dedup, nodes_after_tunnel),
    {
        let mut event = UpdateEvent::new("update_complete");
        event.stage = Some("complete".to_string());
        event.nodes_total = Some(nodes_total);
        event.nodes_after_dedup = Some(nodes_after_dedup);
        event.nodes_after_tunnel = Some(nodes_after_tunnel);
        event
    }

    /// The message when the update has failed for a modem.
    pub fn modem_failed(modem: &ModemConfig, message: &str) -> (event: Self)
        ensures
            event@ == event_of_modem_failure(modem@, message@),
    {
        let mut event = UpdateEvent::modem_event("modem_failed", modem);
        event.stage = Some("failed".to_string());
        event.message = Some(message.to_string());
        event
    }

    /// The message when the nodes have been pinged for a modem.
    pub fn modem_ping_complete(modem: &ModemConfig, nodes_after_ping: usize) -> (event: Self)
        ensures
            event@ == event_of_pings(modem@, nodes_after_ping),
    {
        let mut event = UpdateEvent::modem_event("modem_ping_complete", modem);
        event.stage = Some("ping".to_string());
        event.nodes_after_ping = Some(nodes_after_ping);
        event
    }

    /// The message when all is done for a modem.
    pub fn modem_complete(
        modem: &ModemConfig,
        nodes_after_ping: usize,
        nodes_after_tunnel: usize,
    ) -> (event: Self)
        ensures
            event@ == event_of_modem_completion(modem@, nodes_after_ping, nodes_after_tunnel),
    {
        let mut event = UpdateEvent::modem_event("modem_complete", modem);
        event.stage = Some("complete".to_string());
        event.nodes_after_ping = Some(nodes_after_ping);
        event.nodes_after_tunnel = Some(nodes_after_tunnel);
        event
    }

    /// The message when one more probe is done for a modem.
    pub fn probe_counted(modem: &ModemConfig, kind: ProgressKind, done: usize, total: usize) -> (event:
        Self)
        ensures
            event@ == event_of_count(modem@, kind, done, total),
    {
        let (name, stage) = match kind {
            ProgressKind::Ping => ("modem_ping_progress", "ping"),
            ProgressKind::Tunnel => ("modem_tunnel_progress", "tunnel"),
        };
        let mut event = UpdateEvent::modem_event(name, modem);
        event.done = Some(done);
        event.total = Some(total);
        event.stage = Some(stage.to_string());
        event
    }
}

} // verus!
