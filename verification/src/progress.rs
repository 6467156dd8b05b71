//! How far an update has come, overall and for each modem.

use vstd::prelude::*;

use crate::cache;
use crate::clock::Timestamp;
use crate::config;
use crate::config::{AppConfig, ModemConfig, ModemView};
use crate::items;
use crate::items::Duplicate;
use crate::strmap::StrMap;
use crate::text;

verus! {

// ---------------------------------------------------------------------------
// Types
// ---------------------------------------------------------------------------

/// The stages of an update.
#[derive(Debug, Clone, Copy, PartialEq, Eq, Structural)]
pub enum UpdateStage {
    Idle,
    Fetch,
    Dedup,
    Modems,
    Complete,
    Failed,
}

/// The stages of an update for one modem.
#[derive(Debug, Clone, Copy, PartialEq, Eq, Structural)]
pub enum ModemStage {
    Pending,
    Health,
    Ping,
    Tunnel,
    Complete,
    Failed,
    Skipped,
}

/// How far an update has come for one modem.
#[derive(Debug)]
pub struct ModemProgress {
    pub modem_tag: String,
    pub modem_interface: String,
    pub stage: ModemStage,
    pub ping_done: usize,
    pub ping_total: usize,
    pub nodes_after_ping: usize,
    pub tunnel_done: usize,
    pub tunnel_total: usize,
    pub nodes_after_tunnel: usize,
    pub last_error: Option<String>,
}

/// The mathematical form of how far an update has come for one modem.
pub struct ModemProgressView {
    pub modem_tag: Seq<char>,
    pub modem_interface: Seq<char>,
    pub stage: ModemStage,
    pub ping_done: usize,
    pub ping_total: usize,
    pub nodes_after_ping: usize,
    pub tunnel_done: usize,
    pub tunnel_total: usize,
    pub nodes_after_tunnel: usize,
    pub last_error: Option<Seq<char>>,
}

impl View for ModemProgress {
    type V = ModemProgressView;

    open spec fn view(&self) -> ModemProgressView {
        ModemProgressView {
            modem_tag: self.modem_tag@,
            modem_interface: self.modem_interface@,
            stage: self.stage,
            ping_done: self.ping_done,
            ping_total: self.ping_total,
            nodes_after_ping: self.nodes_after_ping,
            tunnel_done: self.tunnel_done,
            tunnel_total: self.tunnel_total,
            nodes_after_tunnel: self.nodes_after_tunnel,
            last_error: text::text_view(self.last_error),
        }
    }
}

impl Duplicate for ModemProgress {
    fn duplicate(&self) -> (copy: Self) {
        ModemProgress {
            modem_tag: self.modem_tag.clone(),
            modem_interface: self.modem_interface.clone(),
            stage: self.stage,
            ping_done: self.ping_done,
            ping_total: self.ping_total,
            nodes_after_ping: self.nodes_after_ping,
            tunnel_done: self.tunnel_done,
            tunnel_total: self.tunnel_total,
            nodes_after_tunnel: self.nodes_after_tunnel,
            last_error: text::copy_text(&self.last_error),
        }
    }
}

impl Clone for ModemProgress {
    fn clone(&self) -> (copy: Self)
        ensures
            copy@ == self@,
    {
        self.duplicate()
    }
}

/// How far an update has come.
#[derive(Debug)]
pub struct UpdateProgress {
    pub is_updating: bool,
    pub started_at: Option<Timestamp>,
    pub stage: UpdateStage,
    pub nodes_total: usize,
    pub nodes_after_dedup: usize,
    pub modems: StrMap<ModemProgress>,
}

/// The mathematical form of how far an update has come.
pub struct ProgressView {
    pub is_updating: bool,
    pub started_at: Option<Timestamp>,
    pub stage: UpdateStage,
    pub nodes_total: usize,
    pub nodes_after_dedup: usize,
    pub modems: Map<Seq<char>, ModemProgressView>,
}

impl View for UpdateProgress {
    type V = ProgressView;

    open spec fn view(&self) -> ProgressView {
        ProgressView {
            is_updating: self.is_updating,
            started_at: self.started_at,
            stage: self.stage,
            nodes_total: self.nodes_total,
            nodes_after_dedup: self.nodes_after_dedup,
            modems: self.modems@,
        }
    }
}

impl Duplicate for UpdateProgress {
    fn duplicate(&self) -> (copy: Self) {
        UpdateProgress {
            is_updating: self.is_updating,
            started_at: self.started_at,
            stage: self.stage,
            nodes_total: self.nodes_total,
            nodes_after_dedup: self.nodes_after_dedup,
            modems: self.modems.duplicate(),
        }
    }
}

impl Clone for UpdateProgress {
    fn clone(&self) -> (copy: Self)
        ensures
            copy@ == self@,
    {
        self.duplicate()
    }
}

// ---------------------------------------------------------------------------
// Starting
// ---------------------------------------------------------------------------

/// A modem for which nothing has been done.
pub open spec fn pending_progress(modem: ModemView) -> ModemProgressView {
    ModemProgressView {
        modem_tag: modem.modem_tag,
        modem_interface: modem.modem_interface,
        stage: ModemStage::Pending,
        ping_done: 0,
        ping_total: 0,
        nodes_after_ping: 0,
        tunnel_done: 0,
        tunnel_total: 0,
        nodes_after_tunnel: 0,
        last_error: None,
    }
}

impl ModemProgress {
    /// A modem for which nothing has been done.
    pub fn pending(modem: &ModemConfig) -> (progress: Self)
        ensures
            progress@ == pending_progress(modem@),
    {
        ModemProgress {
            modem_tag: modem.modem_tag.clone(),
            modem_interface: modem.modem_interface.clone(),
            stage: ModemStage::Pending,
            ping_done: 0,
            ping_total: 0,
            nodes_after_ping: 0,
            tunnel_done: 0,
            tunnel_total: 0,
            nodes_after_tunnel: 0,
            last_error: None,
        }
    }
}

/// Modems for which nothing has been done, by their tags.
pub open spec fn pending_modems(modems: Seq<ModemView>) -> Map<Seq<char>, ModemProgressView>
    decreases modems.len(),
{
    if modems.len() == 0 {
        Map::empty()
    } else {
        pending_modems(modems.drop_last()).insert(
            modems.last().modem_tag,
            pending_progress(modems.last()),
        )
    }
}

/// Modems for which nothing has been done, by their tags.
pub fn initial_modem_progress(modems: &Vec<ModemConfig>) -> (progress: StrMap<ModemProgress>)
    ensures
        progress@ == pending_modems(items::views(modems@)),
{
    let ghost all = items::views(modems@);
    let mut progress: StrMap<ModemProgress> = StrMap::new();
    let mut i: usize = 0;
    assert(all.take(0) =~= Seq::empty());
    while i < modems.len()
        invariant
            i <= modems@.len(),
            all == items::views(modems@),
            progress@ == pending_modems(all.take(i as int)),
        decreases modems@.len() - i,
    {
        assert(all.take(i + 1).drop_last() =~= all.take(i as int));
        assert(all.take(i + 1).last() == modems@[i as int]@);
        progress.insert(modems[i].modem_tag.clone(), ModemProgress::pending(&modems[i]));
        i = i + 1;
    }
    assert(all.take(i as int) =~= all);
    progress
}

/// No update is running.
pub open spec fn idle_progress(modems: Seq<ModemView>) -> ProgressView {
    ProgressView {
        is_updating: false,
        started_at: None,
        stage: UpdateStage::Idle,
        nodes_total: 0,
        nodes_after_dedup: 0,
        modems: pending_modems(modems),
    }
}

/// An update has started.
pub open spec fn started_progress(modems: Seq<ModemView>, now: Timestamp) -> ProgressView {
    ProgressView {
        is_updating: true,
        started_at: Some(now),
        stage: UpdateStage::Fetch,
        nodes_total: 0,
        nodes_after_dedup: 0,
        modems: pending_modems(modems),
    }
}

impl UpdateProgress {
    /// No update is running.
    pub fn idle_for_config(config: &AppConfig) -> (progress: Self)
        ensures
            progress@ == idle_progress(config@.modems),
    {
        UpdateProgress {
            is_updating: false,
            started_at: None,
            stage: UpdateStage::Idle,
            nodes_total: 0,
            nodes_after_dedup: 0,
            modems: initial_modem_progress(&config.modems),
        }
    }

    /// An update has started.
    pub fn started_for_config(config: &AppConfig, now: Timestamp) -> (progress: Self)
        ensures
            progress@ == started_progress(config@.modems, now),
    {
        UpdateProgress {
            is_updating: true,
            started_at: Some(now),
            stage: UpdateStage::Fetch,
            nodes_total: 0,
            nodes_after_dedup: 0,
            modems: initial_modem_progress(&config.modems),
        }
    }

    /// The subscriptions have been fetched and hold `nodes_total` nodes.
    pub fn fetched(&mut self, nodes_total: usize)
        ensures
            final(self)@ == (ProgressView {
                nodes_total,
                stage: UpdateStage::Dedup,
                ..old(self)@
            }),
    {
        self.nodes_total = nodes_total;
        self.stage = UpdateStage::Dedup;
    }

    /// `nodes_after_dedup` nodes are left without duplicates.
    pub fn deduplicated(&mut self, nodes_after_dedup: usize)
        ensures
            final(self)@ == (ProgressView {
                nodes_after_dedup,
                stage: UpdateStage::Modems,
                ..old(self)@
            }),
    {
        self.nodes_after_dedup = nodes_after_dedup;
        self.stage = UpdateStage::Modems;
    }

    /// The update is over, well or badly.
    pub fn finished(&mut self, succeeded: bool)
        ensures
            final(self)@ == (ProgressView {
                is_updating: false,
                stage: if succeeded {
                    UpdateStage::Complete
                } else {
                    UpdateStage::Failed
                },
                ..old(self)@
            }),
    {
        self.is_updating = false;
        self.stage = if succeeded {
            UpdateStage::Complete
        } else {
            UpdateStage::Failed
        };
    }
}

// ---------------------------------------------------------------------------
// Steps of a modem
// ---------------------------------------------------------------------------

/// The two kinds of probes.
#[derive(Debug, Clone, Copy, PartialEq, Eq, Structural)]
pub enum ProgressKind {
    Ping,
    Tunnel,
}

/// What happens to a modem in an update.
#[derive(Debug)]
pub enum ModemStep {
    /// Its health is being checked.
    Health,
    /// It is left out, for a reason.
    Skipped(String),
    /// So many nodes are being pinged.
    PingStarted(usize),
    /// So many nodes have been pinged, and so many of them were online.
    PingFinished(usize, usize),
    /// The tunnels of so many nodes are being probed.
    TunnelStarted(usize),
    /// The tunnels of so many nodes have been probed, and so many worked.
    Completed(usize, usize),
    /// The update has failed for it, for a reason.
    Failed(String),
    /// So many of so many probes are done.
    Counted(ProgressKind, usize, usize),
}

/// The mathematical form of what happens to a modem.
pub enum StepView {
    Health,
    Skipped(Seq<char>),
    PingStarted(usize),
    PingFinished(usize, usize),
    TunnelStarted(usize),
    Completed(usize, usize),
    Failed(Seq<char>),
    Counted(ProgressKind, usize, usize),
}

impl View for ModemStep {
    type V = StepView;

    open spec fn view(&self) -> StepView {
        match *self {
            ModemStep::Health => StepView::Health,
            ModemStep::Skipped(reason) => StepView::Skipped(reason@),
            ModemStep::PingStarted(total) => StepView::PingStarted(total),
            ModemStep::PingFinished(total, passed) => StepView::PingFinished(total, passed),
            ModemStep::TunnelStarted(total) => StepView::TunnelStarted(total),
            ModemStep::Completed(total, passed) => StepView::Completed(total, passed),
            ModemStep::Failed(reason) => StepView::Failed(reason@),
            ModemStep::Counted(kind, done, total) => StepView::Counted(kind, done, total),
        }
    }
}

/// How far an update has come for a modem after a step.
pub open spec fn after_step(progress: ModemProgressView, step: StepView) -> ModemProgressView {
    match step {
        StepView::Health => ModemProgressView {
            stage: ModemStage::Health,
            last_error: None,
            ..progress
        },
        StepView::Skipped(reason) => ModemProgressView {
            stage: ModemStage::Skipped,
            last_error: Some(reason),
            ..progress
        },
        StepView::PingStarted(total) => ModemProgressView {
            stage: ModemStage::Ping,
            ping_done: 0,
            ping_total: total,
            nodes_after_ping: 0,
            ..progress
        },
        StepView::PingFinished(total, passed) => ModemProgressView {
            ping_done: total,
            ping_total: total,
            nodes_after_ping: passed,
            ..progress
        },
        StepView::TunnelStarted(total) => ModemProgressView {
            stage: ModemStage::Tunnel,
            tunnel_done: 0,
            tunnel_total: total,
            nodes_after_tunnel: 0,
            ..progress
        },
        StepView::Completed(total, passed) => ModemProgressView {
            stage: ModemStage::Complete,
            tunnel_done: total,
            tunnel_total: total,
            nodes_after_tunnel: passed,
            last_error: None,
            ..progress
        },
        StepView::Failed(reason) => ModemProgressView {
            stage: ModemStage::Failed,
            last_error: Some(reason),
            ..progress
        },
        StepView::Counted(ProgressKind::Ping, done, total) => ModemProgressView {
            ping_done: done,
            ping_total: total,
            ..progress
        },
        StepView::Counted(ProgressKind::Tunnel, done, total) => ModemProgressView {
            tunnel_done: done,
            tunnel_total: total,
            ..progress
        },
    }
}

impl ModemProgress {
    /// Takes a step.
    pub fn advance(&mut self, step: &ModemStep)
        ensures
            final(self)@ == after_step(old(self)@, step@),
    {
        match step {
            ModemStep::Health => {
                self.stage = ModemStage::Health;
                self.last_error = None;
            },
            ModemStep::Skipped(reason) => {
                self.stage = ModemStage::Skipped;
                self.last_error = Some(reason.clone());
            },
            ModemStep::PingStarted(total) => {
                self.stage = ModemStage::Ping;
                self.ping_done = 0;
                self.ping_total = *total;
                self.nodes_after_ping = 0;
            },
            ModemStep::PingFinished(total, passed) => {
                self.ping_done = *total;
                self.ping_total = *total;
                self.nodes_after_ping = *passed;
            },
            ModemStep::TunnelStarted(total) => {
                self.stage = ModemStage::Tunnel;
                self.tunnel_done = 0;
                self.tunnel_total = *total;
                self.nodes_after_tunnel = 0;
            },
            ModemStep::Completed(total, passed) => {
                self.stage = ModemStage::Complete;
                self.tunnel_done = *total;
                self.tunnel_total = *total;
                self.nodes_after_tunnel = *passed;
                self.last_error = None;
            },
            ModemStep::Failed(reason) => {
                self.stage = ModemStage::Failed;
                self.last_error = Some(reason.clone());
            },
            ModemStep::Counted(ProgressKind::Ping, done, total) => {
                self.ping_done = *done;
                self.ping_total = *total;
            },
            ModemStep::Counted(ProgressKind::Tunnel, done, total) => {
                self.tunnel_done = *done;
                self.tunnel_total = *total;
            },
        }
    }
}

/// The modems after a step of the one with a tag, if there is one.
pub open spec fn modems_after_step(
    modems: Map<Seq<char>, ModemProgressView>,
    tag: Seq<char>,
    step: StepView,
) -> Map<Seq<char>, ModemProgressView> {
    if modems.contains_key(tag) {
        modems.insert(tag, after_step(modems[tag], step))
    } else {
        modems
    }
}

impl UpdateProgress {
    /// Takes a step of the modem with a tag, if there is one.
    pub fn update_modem(&mut self, modem_tag: &str, step: &ModemStep)
        ensures
            final(self)@ == (ProgressView {
                modems: modems_after_step(old(self)@.modems, modem_tag@, step@),
                ..old(self)@
            }),
    {
        match self.modems.remove(modem_tag) {
            Some(progress) => {
                let mut progress = progress;
                progress.advance(step);
                self.modems.insert(modem_tag.to_string(), progress);
                assert(self.modems@ =~= modems_after_step(old(self)@.modems, modem_tag@, step@));
            },
            None => {
                assert(self.modems@ =~= old(self)@.modems);
            },
        }
    }
}

// ---------------------------------------------------------------------------
// Keeping up with the settings
// ---------------------------------------------------------------------------

/// A modem's progress under the interface that the modem has now.
pub open spec fn kept_progress(
    map: Map<Seq<char>, ModemProgressView>,
    modem: ModemView,
) -> ModemProgressView {
    if map.contains_key(modem.modem_tag) {
        ModemProgressView { modem_interface: modem.modem_interface, ..map[modem.modem_tag] }
    } else {
        pending_progress(modem)
    }
}

/// A map with an entry for each modem.
pub open spec fn with_modems(
    map: Map<Seq<char>, ModemProgressView>,
    modems: Seq<ModemView>,
) -> Map<Seq<char>, ModemProgressView>
    decreases modems.len(),
{
    if modems.len() == 0 {
        map
    } else {
        let earlier = with_modems(map, modems.drop_last());
        earlier.insert(modems.last().modem_tag, kept_progress(earlier, modems.last()))
    }
}

/// The progress of the modems that are configured.
pub open spec fn synced_progress(
    map: Map<Seq<char>, ModemProgressView>,
    modems: Seq<ModemView>,
) -> Map<Seq<char>, ModemProgressView> {
    with_modems(cache::configured_entries(map, modems), modems)
}

impl UpdateProgress {
    /// Forgets the modems that are not configured and adds those that are new.
    pub fn sync_modems(&mut self, modems: &Vec<ModemConfig>)
        ensures
            final(self)@ == (ProgressView {
                modems: synced_progress(old(self)@.modems, items::views(modems@)),
                ..old(self)@
            }),
    {
        let ghost all = items::views(modems@);
        cache::retain_configured(&mut self.modems, modems);
        let ghost start = self.modems@;
        let mut i: usize = 0;
        assert(all.take(0) =~= Seq::empty());
        while i < modems.len()
            invariant
                i <= modems@.len(),
                all == items::views(modems@),
                self@ == (ProgressView {
                    modems: with_modems(start, all.take(i as int)),
                    ..old(self)@
                }),
            decreases modems@.len() - i,
        {
            let ghost before = self.modems@;
            assert(all.take(i + 1).drop_last() =~= all.take(i as int));
            assert(all.take(i + 1).last() == modems@[i as int]@);
            let progress = match self.modems.remove(modems[i].modem_tag.as_str()) {
                Some(progress) => {
                    let mut progress = progress;
                    progress.modem_interface = modems[i].modem_interface.clone();
                    progress
                },
                None => ModemProgress::pending(&modems[i]),
            };
            self.modems.insert(modems[i].modem_tag.clone(), progress);
            assert(self.modems@ =~= before.insert(
                modems@[i as int]@.modem_tag,
                kept_progress(before, modems@[i as int]@),
            ));
            i = i + 1;
        }
        assert(all.take(i as int) =~= all);
    }
}

// ---------------------------------------------------------------------------
// Laws
// ---------------------------------------------------------------------------

/// No step changes which modem it is, and a step of one modem leaves the others
/// as they are.
pub proof fn law_steps_stay_with_their_modem(
    modems: Map<Seq<char>, ModemProgressView>,
    tag: Seq<char>,
    other: Seq<char>,
    step: StepView,
)
    requires
        modems.contains_key(other),
    ensures
        modems_after_step(modems, tag, step).dom() == modems.dom(),
        modems_after_step(modems, tag, step)[other].modem_tag == modems[other].modem_tag,
        modems_after_step(modems, tag, step)[other].modem_interface
            == modems[other].modem_interface,
        other != tag ==> modems_after_step(modems, tag, step)[other] == modems[other],
{
    assert(modems_after_step(modems, tag, step).dom() =~= modems.dom());
}

/// After keeping up with the settings there is progress for the configured
/// modems alone.
pub proof fn law_synced_are_configured(
    map: Map<Seq<char>, ModemProgressView>,
    modems: Seq<ModemView>,
    tag: Seq<char>,
)
    ensures
        synced_progress(map, modems).contains_key(tag) <==> config::has_tag(modems, tag),
{
    lemma_with_modems(cache::configured_entries(map, modems), modems, tag);
}

/// The entries of a map with an entry for each modem.
proof fn lemma_with_modems(
    map: Map<Seq<char>, ModemProgressView>,
    modems: Seq<ModemView>,
    tag: Seq<char>,
)
    ensures
        with_modems(map, modems).contains_key(tag) <==> map.contains_key(tag)
            || config::has_tag(modems, tag),
    decreases modems.len(),
{
    if modems.len() > 0 {
        let earlier = modems.drop_last();
        lemma_with_modems(map, earlier, tag);
        if config::has_tag(modems, tag) && tag != modems.last().modem_tag {
            let i = choose|i: int| 0 <= i < modems.len() && (#[trigger] modems[i]).modem_tag == tag;
            assert(earlier[i] == modems[i]);
        }
        if config::has_tag(earlier, tag) {
            let i = choose|i: int|
                0 <= i < earlier.len() && (#[trigger] earlier[i]).modem_tag == tag;
            assert(modems[i] == earlier[i]);
        }
        if tag == modems.last().modem_tag {
            assert(modems[modems.len() - 1].modem_tag == tag);
        }
    }
}

} // verus!
