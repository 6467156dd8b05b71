//! An update for one modem: check its connection, ping the nodes through it,
//! probe their tunnels, and order and name those that work.

use vstd::prelude::*;
use vstd::string::*;

use crate::cache::{EntryView, ModemCacheEntry};
use crate::clock::Timestamp;
use crate::config::{ModemConfig, ModemView};
use crate::events;
use crate::events::{EventView, UpdateEvent};
use crate::health::{HealthView, ModemHealthState};
use crate::items;
use crate::items::Duplicate;
use crate::node::{Node, NodeView};
use crate::probe;
use crate::progress::{ModemStep, StepView};
use crate::renamer;

verus! {

// ---------------------------------------------------------------------------
// The order of nodes
// ---------------------------------------------------------------------------

/// The delay by which nodes are ordered: that of the tunnel, the longest where
/// it is not known.
pub open spec fn delay(node: NodeView) -> u64 {
    match node.tunnel_ms {
        Some(millis) => millis,
        None => u64::MAX,
    }
}

/// `nodes` with one more, behind those that are no slower.
pub open spec fn placed(nodes: Seq<NodeView>, node: NodeView) -> Seq<NodeView>
    decreases nodes.len(),
{
    if nodes.len() == 0 || delay(nodes.last()) <= delay(node) {
        nodes.push(node)
    } else {
        placed(nodes.drop_last(), node).push(nodes.last())
    }
}

/// Nodes by their delays; those with one delay stay in their order.
pub open spec fn by_delay(nodes: Seq<NodeView>) -> Seq<NodeView>
    decreases nodes.len(),
{
    if nodes.len() == 0 {
        Seq::empty()
    } else {
        placed(by_delay(nodes.drop_last()), nodes.last())
    }
}

/// The delay by which a node is ordered.
fn delay_of(node: &Node) -> (millis: u64)
    ensures
        millis == delay(node@),
{
    match node.tunnel_ms {
        Some(millis) => millis,
        None => u64::MAX,
    }
}

/// The place of a node: behind the `count` first nodes that are no slower.
proof fn lemma_placed(nodes: Seq<NodeView>, node: NodeView, count: int)
    requires
        0 <= count <= nodes.len(),
        count > 0 ==> delay(nodes[count - 1]) <= delay(node),
        forall|i: int| count <= i < nodes.len() ==> delay(#[trigger] nodes[i]) > delay(node),
    ensures
        placed(nodes, node) == nodes.insert(count, node),
    decreases nodes.len(),
{
    if count == nodes.len() {
        assert(nodes.insert(count, node) =~= nodes.push(node));
    } else {
        let earlier = nodes.drop_last();
        assert(delay(nodes[nodes.len() - 1]) > delay(node));
        assert forall|i: int| count <= i < earlier.len() implies delay(#[trigger] earlier[i])
            > delay(node) by {
            assert(earlier[i] == nodes[i]);
        }
        lemma_placed(earlier, node, count);
        assert(earlier.insert(count, node).push(nodes.last()) =~= nodes.insert(count, node));
    }
}

/// Puts a node behind those that are no slower.
fn place(nodes: &mut Vec<Node>, node: Node)
    ensures
        items::views(final(nodes)@) == placed(items::views(old(nodes)@), node@),
{
    let ghost before = items::views(nodes@);
    let millis = delay_of(&node);
    let mut count = nodes.len();
    while count > 0 && delay_of(&nodes[count - 1]) > millis
        invariant
            count <= nodes@.len(),
            before == items::views(nodes@),
            millis == delay(node@),
            forall|i: int| count <= i < before.len() ==> delay(#[trigger] before[i]) > millis,
        decreases count,
    {
        assert(before[count - 1] == nodes@[count - 1]@);
        count = count - 1;
    }
    proof {
        if count > 0 {
            assert(before[count - 1] == nodes@[count - 1]@);
        }
        lemma_placed(before, node@, count as int);
    }
    let ghost view = node@;
    nodes.insert(count, node);
    assert(items::views(nodes@) =~= before.insert(count as int, view));
}

/// Nodes by their delays.
pub fn sort_by_delay(nodes: Vec<Node>) -> (sorted: Vec<Node>)
    ensures
        items::views(sorted@) == by_delay(items::views(nodes@)),
{
    let ghost all = items::views(nodes@);
    let mut sorted: Vec<Node> = Vec::new();
    assert(items::views(sorted@) =~= by_delay(all.take(0)));
    for node in it: nodes
        invariant
            it.seq() == nodes@,
            all == items::views(nodes@),
            items::views(sorted@) == by_delay(all.take(it.index() as int)),
    {
        let ghost next = all.take(it.index() + 1);
        assert(next.drop_last() =~= all.take(it.index() as int));
        assert(next.last() == node@);
        place(&mut sorted, node);
    }
    assert(all.take(nodes@.len() as int) =~= all);
    sorted
}

// ---------------------------------------------------------------------------
// The states of an update for one modem
// ---------------------------------------------------------------------------

/// Where the update for one modem stands.
#[derive(Debug)]
pub enum Branch {
    /// The connection is to be checked, for the nodes.
    Health(Vec<Node>),
    /// The interface is to be bound; then come the nodes, twice where only some
    /// pages pass.
    Bind(Vec<Node>, bool),
    /// The nodes are to be pinged.
    Ping(Vec<Node>, bool),
    /// The tunnels of the nodes are to be probed, and once more where so said.
    Tunnel(Vec<Node>, bool),
    /// It is over, with an entry for the cache.
    Done(ModemCacheEntry),
    /// It is over, for a reason.
    Failed(String),
}

/// The mathematical form of where the update for one modem stands.
pub enum BranchView {
    Health(Seq<NodeView>),
    Bind(Seq<NodeView>, bool),
    Ping(Seq<NodeView>, bool),
    Tunnel(Seq<NodeView>, bool),
    Done(EntryView),
    Failed(Seq<char>),
}

impl View for Branch {
    type V = BranchView;

    open spec fn view(&self) -> BranchView {
        match *self {
            Branch::Health(nodes) => BranchView::Health(items::views(nodes@)),
            Branch::Bind(nodes, twice) => BranchView::Bind(items::views(nodes@), twice),
            Branch::Ping(nodes, twice) => BranchView::Ping(items::views(nodes@), twice),
            Branch::Tunnel(nodes, again) => BranchView::Tunnel(items::views(nodes@), again),
            Branch::Done(entry) => BranchView::Done(entry@),
            Branch::Failed(reason) => BranchView::Failed(reason@),
        }
    }
}

/// What comes back from the work that an update for one modem asks for.
#[derive(Debug)]
pub enum BranchEvent {
    /// The connection has been checked.
    Checked(ModemHealthState),
    /// The interface was bound.
    Bound,
    /// The interface could not be bound, for a reason.
    NotBound(String),
    /// The nodes that were online.
    Pinged(Vec<Node>),
    /// The nodes whose tunnels work.
    Probed(Vec<Node>),
}

/// The mathematical form of what comes back.
pub enum BranchEventView {
    Checked(HealthView),
    Bound,
    NotBound(Seq<char>),
    Pinged(Seq<NodeView>),
    Probed(Seq<NodeView>),
}

impl View for BranchEvent {
    type V = BranchEventView;

    open spec fn view(&self) -> BranchEventView {
        match *self {
            BranchEvent::Checked(health) => BranchEventView::Checked(health@),
            BranchEvent::Bound => BranchEventView::Bound,
            BranchEvent::NotBound(reason) => BranchEventView::NotBound(reason@),
            BranchEvent::Pinged(nodes) => BranchEventView::Pinged(items::views(nodes@)),
            BranchEvent::Probed(nodes) => BranchEventView::Probed(items::views(nodes@)),
        }
    }
}

/// What an update for one modem tells while it goes on.
#[derive(Debug)]
pub struct BranchReport {
    pub steps: Vec<ModemStep>,
    pub events: Vec<UpdateEvent>,
}

/// The mathematical form of what an update for one modem tells.
pub struct ReportView {
    pub steps: Seq<StepView>,
    pub events: Seq<EventView>,
}

impl View for BranchReport {
    type V = ReportView;

    open spec fn view(&self) -> ReportView {
        ReportView { steps: items::views(self.steps@), events: items::views(self.events@) }
    }
}

/// Why a modem is left out: what its check says, or that it is offline.
pub open spec fn offline_reason(health: HealthView) -> Seq<char> {
    match health.last_error {
        Some(reason) => reason,
        None => "modem_offline"@,
    }
}

/// Why an interface could not be bound.
pub open spec fn bind_reason(modem: ModemView, reason: Seq<char>) -> Seq<char> {
    "failed to bind TCP socket to interface "@ + modem.modem_interface + ": "@ + reason
}

/// The entry for the nodes whose tunnels work: by their delays, under display
/// names.
pub open spec fn branch_entry(
    modem: ModemView,
    pinged: nat,
    nodes: Seq<NodeView>,
    now: Timestamp,
) -> EntryView {
    EntryView {
        modem_tag: modem.modem_tag,
        modem_interface: modem.modem_interface,
        last_update: now,
        nodes_after_ping: pinged as usize,
        nodes_after_tunnel: nodes.len() as usize,
        nodes: renamer::renamed(by_delay(nodes)),
    }
}

/// Where the update stands after something has come back. What does not belong
/// to where it stands changes nothing.
pub open spec fn branch_after(
    branch: BranchView,
    modem: ModemView,
    event: BranchEventView,
    now: Timestamp,
) -> BranchView {
    match (branch, event) {
        (BranchView::Health(nodes), BranchEventView::Checked(health)) => if health.white_url_ok
            == Some(true) {
            BranchView::Bind(nodes, health.whitelist_mode)
        } else {
            BranchView::Failed(offline_reason(health))
        },
        (BranchView::Bind(nodes, twice), BranchEventView::Bound) => BranchView::Ping(nodes, twice),
        (BranchView::Bind(_, _), BranchEventView::NotBound(reason)) => BranchView::Failed(
            bind_reason(modem, reason),
        ),
        (BranchView::Ping(_, twice), BranchEventView::Pinged(online)) => BranchView::Tunnel(
            online,
            twice,
        ),
        (BranchView::Tunnel(nodes, again), BranchEventView::Probed(working)) => if again {
            BranchView::Tunnel(nodes, false)
        } else {
            BranchView::Done(branch_entry(modem, nodes.len(), working, now))
        },
        _ => branch,
    }
}

/// What the update tells when something has come back.
pub open spec fn branch_report(
    branch: BranchView,
    modem: ModemView,
    event: BranchEventView,
) -> ReportView {
    match (branch, event) {
        (BranchView::Health(_), BranchEventView::Checked(health)) => if health.white_url_ok == Some(
            true,
        ) {
            ReportView { steps: Seq::empty(), events: Seq::empty() }
        } else {
            ReportView {
                steps: seq![
                    StepView::Skipped(offline_reason(health)),
                    StepView::Failed(offline_reason(health)),
                ],
                events: seq![events::event_of_modem_failure(modem, offline_reason(health))],
            }
        },
        (BranchView::Bind(nodes, _), BranchEventView::Bound) => ReportView {
            steps: seq![StepView::PingStarted(nodes.len() as usize)],
            events: Seq::empty(),
        },
        (BranchView::Bind(_, _), BranchEventView::NotBound(reason)) => ReportView {
            steps: seq![StepView::Failed(bind_reason(modem, reason))],
            events: seq![events::event_of_modem_failure(modem, bind_reason(modem, reason))],
        },
        (BranchView::Ping(nodes, _), BranchEventView::Pinged(online)) => ReportView {
            steps: seq![
                StepView::PingFinished(nodes.len() as usize, online.len() as usize),
                StepView::TunnelStarted(online.len() as usize),
            ],
            events: seq![events::event_of_pings(modem, online.len() as usize)],
        },
        (BranchView::Tunnel(nodes, again), BranchEventView::Probed(working)) => if again {
            ReportView { steps: Seq::empty(), events: Seq::empty() }
        } else {
            ReportView {
                steps: seq![StepView::Completed(nodes.len() as usize, working.len() as usize)],
                events: seq![
                    events::event_of_modem_completion(
                        modem,
                        nodes.len() as usize,
                        working.len() as usize,
                    ),
                ],
            }
        },
        _ => ReportView { steps: Seq::empty(), events: Seq::empty() },
    }
}

/// A report that tells nothing.
fn silence() -> (report: BranchReport)
    ensures
        report@ == (ReportView { steps: Seq::empty(), events: Seq::empty() }),
{
    let report = BranchReport { steps: Vec::new(), events: Vec::new() };
    assert(items::views(report.steps@) =~= Seq::empty());
    assert(items::views(report.events@) =~= Seq::empty());
    report
}

/// Names and orders the nodes whose tunnels work, and makes an entry of them.
pub fn finish_branch(modem: &ModemConfig, pinged: usize, nodes: Vec<Node>, now: Timestamp) -> (entry:
    ModemCacheEntry)
    ensures
        entry@ == branch_entry(modem@, pinged as nat, items::views(nodes@), now),
{
    let ghost views = items::views(nodes@);
    let working = nodes.len();
    let mut sorted = sort_by_delay(nodes);
    renamer::rename_nodes(&mut sorted);
    ModemCacheEntry {
        modem_tag: modem.modem_tag.clone(),
        modem_interface: modem.modem_interface.clone(),
        last_update: now,
        nodes_after_ping: pinged,
        nodes_after_tunnel: working,
        nodes: sorted,
    }
}

impl Branch {
    /// An update for one modem, and the step with which it starts.
    pub fn start(nodes: Vec<Node>) -> (result: (Branch, ModemStep))
        ensures
            result.0@ == BranchView::Health(items::views(nodes@)),
            result.1@ == StepView::Health,
    {
        (Branch::Health(nodes), ModemStep::Health)
    }

    /// The update after its connection was checked.
    fn after_check(nodes: Vec<Node>, modem: &ModemConfig, health: ModemHealthState) -> (result: (
        Branch,
        BranchReport,
    ))
        ensures
            result.0@ == if health@.white_url_ok == Some(true) {
                BranchView::Bind(items::views(nodes@), health@.whitelist_mode)
            } else {
                BranchView::Failed(offline_reason(health@))
            },
            result.1@ == branch_report(
                BranchView::Health(items::views(nodes@)),
                modem@,
                BranchEventView::Checked(health@),
            ),
    {
        match health.white_url_ok {
            Some(true) => {
                return (Branch::Bind(nodes, health.whitelist_mode), silence());
            },
            _ => {},
        }
        let reason = match &health.last_error {
            Some(reason) => reason.clone(),
            None => "modem_offline".to_string(),
        };
        let steps = vec![ModemStep::Skipped(reason.clone()), ModemStep::Failed(reason.clone())];
        let events = vec![UpdateEvent::modem_failed(modem, reason.as_str())];
        assert(items::views(steps@) =~= seq![
            StepView::Skipped(reason@),
            StepView::Failed(reason@),
        ]);
        assert(items::views(events@) =~= seq![
            events::event_of_modem_failure(modem@, reason@),
        ]);
        (Branch::Failed(reason), BranchReport { steps, events })
    }

    /// The update after its interface could not be bound.
    fn after_refusal(modem: &ModemConfig, reason: &str) -> (result: (Branch, BranchReport))
        ensures
            result.0@ == BranchView::Failed(bind_reason(modem@, reason@)),
            result.1@ == (ReportView {
                steps: seq![StepView::Failed(bind_reason(modem@, reason@))],
                events: seq![events::event_of_modem_failure(modem@, bind_reason(modem@, reason@))],
            }),
    {
        let mut message = "failed to bind TCP socket to interface ".to_string();
        message.append(modem.modem_interface.as_str());
        message.append(": ");
        message.append(reason);
        let steps = vec![ModemStep::Failed(message.clone())];
        let events = vec![UpdateEvent::modem_failed(modem, message.as_str())];
        assert(items::views(steps@) =~= seq![StepView::Failed(message@)]);
        assert(items::views(events@) =~= seq![
            events::event_of_modem_failure(modem@, message@),
        ]);
        (Branch::Failed(message), BranchReport { steps, events })
    }

    /// The update after its nodes were pinged.
    fn after_pings(pinged: usize, twice: bool, online: Vec<Node>, modem: &ModemConfig) -> (result: (
        Branch,
        BranchReport,
    ))
        ensures
            result.0@ == BranchView::Tunnel(items::views(online@), twice),
            result.1@ == (ReportView {
                steps: seq![
                    StepView::PingFinished(pinged, online@.len() as usize),
                    StepView::TunnelStarted(online@.len() as usize),
                ],
                events: seq![events::event_of_pings(modem@, online@.len() as usize)],
            }),
    {
        let count = online.len();
        let steps = vec![ModemStep::PingFinished(pinged, count), ModemStep::TunnelStarted(count)];
        let events = vec![UpdateEvent::modem_ping_complete(modem, count)];
        assert(items::views(steps@) =~= seq![
            StepView::PingFinished(pinged, count),
            StepView::TunnelStarted(count),
        ]);
        assert(items::views(events@) =~= seq![events::event_of_pings(modem@, count)]);
        (Branch::Tunnel(online, twice), BranchReport { steps, events })
    }

    /// The update after the tunnels were probed for the last time.
    fn after_tunnels(pinged: usize, working: Vec<Node>, modem: &ModemConfig, now: Timestamp) -> (result:
        (Branch, BranchReport))
        ensures
            result.0@ == BranchView::Done(
                branch_entry(modem@, pinged as nat, items::views(working@), now),
            ),
            result.1@ == (ReportView {
                steps: seq![StepView::Completed(pinged, working@.len() as usize)],
                events: seq![
                    events::event_of_modem_completion(modem@, pinged, working@.len() as usize),
                ],
            }),
    {
        let count = working.len();
        let steps = vec![ModemStep::Completed(pinged, count)];
        let events = vec![UpdateEvent::modem_complete(modem, pinged, count)];
        assert(items::views(steps@) =~= seq![StepView::Completed(pinged, count)]);
        assert(items::views(events@) =~= seq![
            events::event_of_modem_completion(modem@, pinged, count),
        ]);
        let entry = finish_branch(modem, pinged, working, now);
        (Branch::Done(entry), BranchReport { steps, events })
    }

    /// Where the update stands after something has come back, and what it
    /// tells.
    pub fn advance(self, modem: &ModemConfig, event: BranchEvent, now: Timestamp) -> (result: (
        Branch,
        BranchReport,
    ))
        ensures
            result.0@ == branch_after(self@, modem@, event@, now),
            result.1@ == branch_report(self@, modem@, event@),
    {
        match (self, event) {
            (Branch::Health(nodes), BranchEvent::Checked(health)) => {
                Branch::after_check(nodes, modem, health)
            },
            (Branch::Bind(nodes, twice), BranchEvent::Bound) => {
                let steps = vec![ModemStep::PingStarted(nodes.len())];
                let events: Vec<UpdateEvent> = Vec::new();
                assert(items::views(steps@) =~= seq![
                    StepView::PingStarted(nodes@.len() as usize),
                ]);
                assert(items::views(events@) =~= Seq::empty());
                (Branch::Ping(nodes, twice), BranchReport { steps, events })
            },
            (Branch::Bind(_, _), BranchEvent::NotBound(reason)) => {
                Branch::after_refusal(modem, reason.as_str())
            },
            (Branch::Ping(nodes, twice), BranchEvent::Pinged(online)) => {
                Branch::after_pings(nodes.len(), twice, online, modem)
            },
            (Branch::Tunnel(nodes, again), BranchEvent::Probed(working)) => {
                if again {
                    (Branch::Tunnel(nodes, false), silence())
                } else {
                    Branch::after_tunnels(nodes.len(), working, modem, now)
                }
            },
            (branch, _) => (branch, silence()),
        }
    }
}

// ---------------------------------------------------------------------------
// Laws
// ---------------------------------------------------------------------------

/// Ordering nodes by delay puts no node before a quicker one.
pub proof fn law_sorted_by_delay(nodes: Seq<NodeView>)
    ensures
        forall|i: int, j: int|
            0 <= i < j < by_delay(nodes).len() ==> delay(#[trigger] by_delay(nodes)[i]) <= delay(
                #[trigger] by_delay(nodes)[j],
            ),
    decreases nodes.len(),
{
    if nodes.len() > 0 {
        law_sorted_by_delay(nodes.drop_last());
        lemma_placed_sorted(by_delay(nodes.drop_last()), nodes.last());
    }
}

/// One more node keeps the order.
proof fn lemma_placed_sorted(nodes: Seq<NodeView>, node: NodeView)
    requires
        forall|i: int, j: int|
            0 <= i < j < nodes.len() ==> delay(#[trigger] nodes[i]) <= delay(#[trigger] nodes[j]),
    ensures
        forall|i: int, j: int|
            0 <= i < j < placed(nodes, node).len() ==> delay(#[trigger] placed(nodes, node)[i])
                <= delay(#[trigger] placed(nodes, node)[j]),
        forall|i: int|
            0 <= i < placed(nodes, node).len() ==> #[trigger] placed(nodes, node)[i] == node
                || nodes.contains(placed(nodes, node)[i]),
    decreases nodes.len(),
{
    let result = placed(nodes, node);
    if nodes.len() == 0 || delay(nodes.last()) <= delay(node) {
        assert forall|i: int, j: int| 0 <= i < j < result.len() implies delay(
            #[trigger] result[i],
        ) <= delay(#[trigger] result[j]) by {
            if j == nodes.len() {
                assert(delay(nodes[i]) <= delay(nodes[nodes.len() - 1]));
            }
        }
        assert forall|i: int| 0 <= i < result.len() implies #[trigger] result[i] == node
            || nodes.contains(result[i]) by {
            if i < nodes.len() {
                assert(nodes[i] == result[i]);
            }
        }
    } else {
        let earlier = nodes.drop_last();
        assert forall|i: int, j: int| 0 <= i < j < earlier.len() implies delay(
            #[trigger] earlier[i],
        ) <= delay(#[trigger] earlier[j]) by {
            assert(earlier[i] == nodes[i] && earlier[j] == nodes[j]);
        }
        lemma_placed_sorted(earlier, node);
        let most = placed(earlier, node);
        assert forall|i: int, j: int| 0 <= i < j < result.len() implies delay(
            #[trigger] result[i],
        ) <= delay(#[trigger] result[j]) by {
            assert(result[i] == most[i]);
            if j < most.len() {
                assert(result[j] == most[j]);
            } else if most[i] != node {
                assert(earlier.contains(most[i]));
                let k = choose|k: int| 0 <= k < earlier.len() && earlier[k] == most[i];
                assert(nodes[k] == most[i]);
                assert(delay(nodes[k]) <= delay(nodes[nodes.len() - 1]));
            }
        }
        assert forall|i: int| 0 <= i < result.len() implies #[trigger] result[i] == node
            || nodes.contains(result[i]) by {
            if i < most.len() {
                assert(result[i] == most[i]);
                if most[i] != node {
                    let k = choose|k: int| 0 <= k < earlier.len() && earlier[k] == most[i];
                    assert(nodes[k] == most[i]);
                }
            } else {
                assert(nodes[nodes.len() - 1] == result[i]);
            }
        }
    }
}

/// Ordering nodes by delay loses none and adds none.
pub proof fn law_sorting_keeps_nodes(nodes: Seq<NodeView>)
    ensures
        by_delay(nodes).to_multiset() == nodes.to_multiset(),
        by_delay(nodes).len() == nodes.len(),
    decreases nodes.len(),
{
    broadcast use vstd::seq_lib::group_to_multiset_ensures;

    if nodes.len() > 0 {
        law_sorting_keeps_nodes(nodes.drop_last());
        lemma_placed_keeps(by_delay(nodes.drop_last()), nodes.last());
        assert(nodes.drop_last().push(nodes.last()) =~= nodes);
    }
}

/// One more node is one node more.
proof fn lemma_placed_keeps(nodes: Seq<NodeView>, node: NodeView)
    ensures
        placed(nodes, node).to_multiset() == nodes.to_multiset().insert(node),
        placed(nodes, node).len() == nodes.len() + 1,
    decreases nodes.len(),
{
    broadcast use vstd::seq_lib::group_to_multiset_ensures;

    if nodes.len() > 0 && delay(nodes.last()) > delay(node) {
        lemma_placed_keeps(nodes.drop_last(), node);
        assert(nodes.drop_last().push(nodes.last()) =~= nodes);
        assert(placed(nodes, node).to_multiset() =~= nodes.to_multiset().insert(node));
    }
}

/// The entry that an update ends with is that of its modem: as many nodes as
/// had a tunnel that works, the quickest first, no two under one display name.
pub proof fn law_entry_is_in_order(
    modem: ModemView,
    pinged: nat,
    nodes: Seq<NodeView>,
    now: Timestamp,
    i: int,
    j: int,
)
    requires
        0 <= i < j < nodes.len(),
    ensures
        branch_entry(modem, pinged, nodes, now).nodes.len() == nodes.len(),
        delay(branch_entry(modem, pinged, nodes, now).nodes[i]) <= delay(
            branch_entry(modem, pinged, nodes, now).nodes[j],
        ),
        branch_entry(modem, pinged, nodes, now).nodes[i].display_name != branch_entry(
            modem,
            pinged,
            nodes,
            now,
        ).nodes[j].display_name,
{
    let sorted = by_delay(nodes);
    law_sorting_keeps_nodes(nodes);
    law_sorted_by_delay(nodes);
    renamer::law_display_names_distinct(sorted, i, j);
    assert(delay(sorted[i]) <= delay(sorted[j]));
}

/// An update ends with an entry only by way of a connection that works: from
/// any state a single answer leads to an entry only where tunnels were probed,
/// to pings only where the interface was bound, and past the check only where
/// the first page was reached.
pub proof fn law_no_entry_without_health(
    branch: BranchView,
    modem: ModemView,
    event: BranchEventView,
    now: Timestamp,
)
    ensures
        branch_after(branch, modem, event, now) is Done && !(branch is Done) ==> branch is Tunnel
            && event is Probed,
        branch_after(branch, modem, event, now) is Tunnel && !(branch is Tunnel) ==> branch is Ping
            && event is Pinged,
        branch_after(branch, modem, event, now) is Ping && !(branch is Ping) ==> branch is Bind
            && event is Bound,
        branch_after(branch, modem, event, now) is Bind && !(branch is Bind) ==> branch is Health
            && (event matches BranchEventView::Checked(health) && health.white_url_ok == Some(
            true,
        )),
{
}

/// Where only some pages pass, the tunnels of the same nodes are probed twice,
/// and the second result counts.
pub proof fn law_second_probe_counts(
    nodes: Seq<NodeView>,
    first: Seq<NodeView>,
    second: Seq<NodeView>,
    modem: ModemView,
    now: Timestamp,
)
    ensures
        branch_after(
            branch_after(
                BranchView::Tunnel(nodes, true),
                modem,
                BranchEventView::Probed(first),
                now,
            ),
            modem,
            BranchEventView::Probed(second),
            now,
        ) == BranchView::Done(branch_entry(modem, nodes.len(), second, now)),
{
}

/// Whether two nodes differ in their display names and probe results alone.
pub open spec fn same_origin(a: NodeView, b: NodeView) -> bool {
    a == (NodeView {
        display_name: a.display_name,
        ping_ok: a.ping_ok,
        ping_ms: a.ping_ms,
        tunnel_ok: a.tunnel_ok,
        tunnel_ms: a.tunnel_ms,
        ..b
    })
}

/// Whether a node has its origin among others.
pub open spec fn has_origin(node: NodeView, source: Seq<NodeView>) -> bool {
    exists|j: int| 0 <= j < source.len() && same_origin(node, #[trigger] source[j])
}

/// Whether nodes are some of others, whatever their display names and probe
/// results: no more of them, and each with its origin among the others.
pub open spec fn drawn_from(nodes: Seq<NodeView>, source: Seq<NodeView>) -> bool {
    &&& nodes.len() <= source.len()
    &&& forall|i: int| 0 <= i < nodes.len() ==> has_origin(#[trigger] nodes[i], source)
}

/// Noting what a probe gave changes nothing about what a node is, and the nodes
/// that are kept are some of those that were probed.
pub proof fn law_probes_keep_origin(
    node: NodeView,
    millis: Option<u64>,
    nodes: Seq<NodeView>,
)
    ensures
        same_origin(probe::pinged(node, millis), node),
        same_origin(probe::probed(node, millis), node),
        drawn_from(probe::online(nodes), nodes),
        drawn_from(probe::working(nodes), nodes),
{
    lemma_filter_draws(nodes, |node: NodeView| node.ping_ok);
    lemma_filter_draws(nodes, |node: NodeView| node.tunnel_ok);
}

/// A part of nodes is drawn from them.
proof fn lemma_filter_draws(nodes: Seq<NodeView>, test: spec_fn(NodeView) -> bool)
    ensures
        drawn_from(nodes.filter(test), nodes),
{
    let kept = nodes.filter(test);
    nodes.lemma_filter_len(test);
    assert forall|i: int| 0 <= i < kept.len() implies has_origin(
        #[trigger] kept[i],
        nodes,
    ) by {
        assert(kept.contains(kept[i]));
        nodes.lemma_filter_contains_rev(test, kept[i]);
        let j = choose|j: int| 0 <= j < nodes.len() && nodes[j] == kept[i];
        assert(same_origin(kept[i], nodes[j]));
    }
}

/// What is drawn from a part of nodes is drawn from the nodes.
proof fn lemma_drawn_again(last: Seq<NodeView>, part: Seq<NodeView>, source: Seq<NodeView>)
    requires
        drawn_from(last, part),
        drawn_from(part, source),
    ensures
        drawn_from(last, source),
{
    assert forall|i: int| 0 <= i < last.len() implies has_origin(
        #[trigger] last[i],
        source,
    ) by {
        assert(has_origin(last[i], part));
        let k = choose|k: int| 0 <= k < part.len() && same_origin(last[i], #[trigger] part[k]);
        assert(has_origin(part[k], source));
        let j = choose|j: int| 0 <= j < source.len() && same_origin(part[k], #[trigger] source[j]);
        assert(same_origin(last[i], source[j]));
    }
}

/// Ordering and naming nodes changes nothing about what they are.
proof fn lemma_entry_draws(nodes: Seq<NodeView>)
    ensures
        drawn_from(renamer::renamed(by_delay(nodes)), nodes),
{
    let sorted = by_delay(nodes);
    let named = renamer::renamed(sorted);
    law_sorting_keeps_nodes(nodes);
    sorted.to_multiset_ensures();
    nodes.to_multiset_ensures();
    assert forall|i: int| 0 <= i < named.len() implies has_origin(
        #[trigger] named[i],
        nodes,
    ) by {
        assert(sorted.contains(sorted[i]));
        assert(sorted.to_multiset().count(sorted[i]) > 0);
        assert(nodes.to_multiset().count(sorted[i]) > 0);
        let j = choose|j: int| 0 <= j < nodes.len() && nodes[j] == sorted[i];
        assert(same_origin(named[i], nodes[j]));
    }
}

/// The nodes of the entry that an update ends with come from the nodes that it
/// was started with: where pings give some of these, and tunnels some of the
/// nodes that were pinged, no more nodes have a tunnel than were pinged, no more
/// were pinged than there are, and each node of the entry has its origin among
/// them.
pub proof fn law_entry_is_drawn(
    nodes: Seq<NodeView>,
    online: Seq<NodeView>,
    first: Seq<NodeView>,
    second: Seq<NodeView>,
    twice: bool,
    modem: ModemView,
    now: Timestamp,
)
    requires
        nodes.len() <= usize::MAX,
        drawn_from(online, nodes),
        drawn_from(first, online),
        drawn_from(second, online),
    ensures
        ({
            let pinged = branch_after(
                BranchView::Ping(nodes, twice),
                modem,
                BranchEventView::Pinged(online),
                now,
            );
            let once = branch_after(pinged, modem, BranchEventView::Probed(first), now);
            let over = if twice {
                branch_after(once, modem, BranchEventView::Probed(second), now)
            } else {
                once
            };
            over matches BranchView::Done(entry) && entry.nodes_after_tunnel
                <= entry.nodes_after_ping && entry.nodes_after_ping <= nodes.len()
                && entry.nodes.len() == entry.nodes_after_tunnel && drawn_from(entry.nodes, nodes)
        }),
{
    let working = if twice {
        second
    } else {
        first
    };
    lemma_entry_draws(working);
    law_sorting_keeps_nodes(working);
    lemma_drawn_again(working, online, nodes);
    lemma_drawn_again(renamer::renamed(by_delay(working)), working, nodes);
}

} // verus!
