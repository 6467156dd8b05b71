//! An update: its attempts, its steps, and what it finds for a modem.

use vstd::prelude::*;
use vstd::string::*;

use crate::branch;
use crate::branch::{BranchEventView, BranchView};
use crate::cache::EntryView;
use crate::clock::Timestamp;
use crate::config;
use crate::config::ModemView;
use crate::events;
use crate::health::HealthView;
use crate::link;
use crate::node::NodeView;
use crate::probe;
use crate::probe::{Lookup, PingView, Socks};
use crate::progress;
use crate::progress::{ModemProgressView, ModemStage, StepView};
use crate::renamer;
use crate::text;
use crate::update;
use crate::update::Retry;

verus! {

// ---------------------------------------------------------------------------
// Attempts
// ---------------------------------------------------------------------------

/// A subscription is asked for three times, and each pause is twice the last.
pub proof fn law_attempts(retry: Retry)
    requires
        1 <= retry.attempt <= 3,
        retry.delay_secs <= 0x7fff_ffff_ffff_ffff,
    ensures
        retry.attempt == 3 <==> update::next_attempt(retry) is None,
        update::next_attempt(retry) matches Some(next) ==> next.attempt == retry.attempt + 1
            && next.delay_secs == retry.delay_secs + retry.delay_secs,
{
}

/// Giving up names the subscription and the three attempts.
pub proof fn law_give_up(url: Seq<char>)
    ensures
        update::give_up_reason(url) == "failed to fetch "@ + url + " after "@ + seq!['3']
            + " attempts"@,
{
    assert(text::decimal(3) =~= seq!['3']);
}

// ---------------------------------------------------------------------------
// Steps
// ---------------------------------------------------------------------------

/// Which stage a step leads to, if to another.
pub open spec fn leads_to(step: StepView, stage: ModemStage) -> bool {
    match stage {
        ModemStage::Pending => false,
        ModemStage::Health => step is Health,
        ModemStage::Ping => step is PingStarted,
        ModemStage::Tunnel => step is TunnelStarted,
        ModemStage::Complete => step is Completed,
        ModemStage::Failed => step is Failed,
        ModemStage::Skipped => step is Skipped,
    }
}

/// Starting and ending probes, failing and being left out change the stage, and
/// counting does not; a reason comes with failing and being left out, and goes
/// with a check and at the end.
pub proof fn law_step_stage(before: ModemProgressView, step: StepView, stage: ModemStage)
    ensures
        ({
            let after = progress::after_step(before, step);
            &&& leads_to(step, stage) ==> after.stage == stage
            &&& step is PingFinished || step is Counted ==> after.stage == before.stage
            &&& after.modem_tag == before.modem_tag
            &&& after.modem_interface == before.modem_interface
            &&& step is Health || step is Completed ==> after.last_error is None
            &&& step matches StepView::Failed(reason) ==> after.last_error == Some(reason)
            &&& step matches StepView::Skipped(reason) ==> after.last_error == Some(reason)
            &&& step is PingStarted || step is PingFinished || step is TunnelStarted
                || step is Counted ==> after.last_error == before.last_error
        }),
{
}

/// The counts of the pings change with the steps of the pings alone: to none of
/// all at the start, to so many of so many while they are counted, and to all of
/// all at the end.
pub proof fn law_ping_counts(before: ModemProgressView, step: StepView)
    ensures
        ({
            let after = progress::after_step(before, step);
            let is_ping_step = step is PingStarted || step is PingFinished || (step matches
                StepView::Counted(kind, _, _) && kind is Ping);
            &&& step matches StepView::PingStarted(total) ==> after.ping_done == 0
                && after.ping_total == total && after.nodes_after_ping == 0
            &&& step matches StepView::PingFinished(total, passed) ==> after.ping_done == total
                && after.ping_total == total && after.nodes_after_ping == passed
            &&& step matches StepView::Counted(kind, done, total) ==> kind is Ping
                ==> after.ping_done == done && after.ping_total == total && after.nodes_after_ping
                == before.nodes_after_ping
            &&& !is_ping_step ==> after.ping_done == before.ping_done && after.ping_total
                == before.ping_total && after.nodes_after_ping == before.nodes_after_ping
        }),
{
}

/// The counts of the tunnels change with the steps of the tunnels alone, as those
/// of the pings do.
pub proof fn law_tunnel_counts(before: ModemProgressView, step: StepView)
    ensures
        ({
            let after = progress::after_step(before, step);
            let is_tunnel_step = step is TunnelStarted || step is Completed || (step matches
                StepView::Counted(kind, _, _) && kind is Tunnel);
            &&& step matches StepView::TunnelStarted(total) ==> after.tunnel_done == 0
                && after.tunnel_total == total && after.nodes_after_tunnel == 0
            &&& step matches StepView::Completed(total, passed) ==> after.tunnel_done == total
                && after.tunnel_total == total && after.nodes_after_tunnel == passed
            &&& step matches StepView::Counted(kind, done, total) ==> kind is Tunnel
                ==> after.tunnel_done == done && after.tunnel_total == total
                && after.nodes_after_tunnel == before.nodes_after_tunnel
            &&& !is_tunnel_step ==> after.tunnel_done == before.tunnel_done && after.tunnel_total
                == before.tunnel_total && after.nodes_after_tunnel == before.nodes_after_tunnel
        }),
{
}

/// A step changes the progress of its modem, where there is one, as it changes
/// that of any.
pub proof fn law_step_of_modem(
    modems: Map<Seq<char>, ModemProgressView>,
    tag: Seq<char>,
    step: StepView,
)
    ensures
        modems.contains_key(tag) ==> progress::modems_after_step(modems, tag, step)[tag]
            == progress::after_step(modems[tag], step),
        !modems.contains_key(tag) ==> progress::modems_after_step(modems, tag, step) == modems,
{
}

/// Whether nothing has been done for a modem.
pub open spec fn is_untouched(found: ModemProgressView, modem: ModemView) -> bool {
    &&& found.modem_tag == modem.modem_tag
    &&& found.modem_interface == modem.modem_interface
    &&& found.stage is Pending
    &&& found.ping_done == 0
    &&& found.ping_total == 0
    &&& found.nodes_after_ping == 0
    &&& found.tunnel_done == 0
    &&& found.tunnel_total == 0
    &&& found.nodes_after_tunnel == 0
    &&& found.last_error is None
}

/// Whether modems have tags of their own.
pub open spec fn are_told_apart(modems: Seq<ModemView>) -> bool {
    forall|i: int, j: int|
        0 <= i < j < modems.len() ==> (#[trigger] modems[i]).modem_tag != (
        #[trigger] modems[j]).modem_tag
}

/// An update starts with nothing done, at the given time, and fetches first; at
/// rest nothing is done either. Every modem is there, untouched.
pub proof fn law_new_progress(modems: Seq<ModemView>, now: Timestamp, i: int)
    requires
        are_told_apart(modems),
        0 <= i < modems.len(),
    ensures
        ({
            let started = progress::started_progress(modems, now);
            let idle = progress::idle_progress(modems);
            let tag = modems[i].modem_tag;
            &&& started.is_updating
            &&& started.started_at == Some(now)
            &&& started.stage is Fetch
            &&& started.nodes_total == 0
            &&& started.nodes_after_dedup == 0
            &&& started.modems == idle.modems
            &&& !idle.is_updating
            &&& idle.started_at is None
            &&& idle.stage is Idle
            &&& idle.nodes_total == 0
            &&& idle.nodes_after_dedup == 0
            &&& idle.modems.contains_key(tag)
            &&& is_untouched(idle.modems[tag], modems[i])
        }),
    decreases modems.len(),
{
    let less = modems.drop_last();
    assert(modems.last() == modems[modems.len() - 1]);
    if i < less.len() {
        assert(modems[i].modem_tag != modems[modems.len() - 1].modem_tag);
        assert forall|a: int, b: int| 0 <= a < b < less.len() implies (
        #[trigger] less[a]).modem_tag != (#[trigger] less[b]).modem_tag by {
            assert(modems[a].modem_tag != modems[b].modem_tag);
        }
        law_new_progress(less, now, i);
        assert(less[i] == modems[i]);
    }
}

/// Progress stays as it was for a tag that no modem has.
proof fn lemma_other_progress(
    map: Map<Seq<char>, ModemProgressView>,
    modems: Seq<ModemView>,
    tag: Seq<char>,
)
    requires
        forall|j: int| 0 <= j < modems.len() ==> (#[trigger] modems[j]).modem_tag != tag,
    ensures
        progress::with_modems(map, modems).contains_key(tag) == map.contains_key(tag),
        progress::with_modems(map, modems)[tag] == map[tag],
    decreases modems.len(),
{
    if modems.len() > 0 {
        let less = modems.drop_last();
        assert(modems[modems.len() - 1].modem_tag != tag);
        assert forall|j: int| 0 <= j < less.len() implies (#[trigger] less[j]).modem_tag
            != tag by {
            assert(modems[j].modem_tag != tag);
        }
        lemma_other_progress(map, less, tag);
    }
}

/// The progress of a modem that is known stays as it was but for its interface,
/// when the settings change; a new modem is untouched.
pub proof fn law_synced_progress(
    map: Map<Seq<char>, ModemProgressView>,
    modems: Seq<ModemView>,
    i: int,
)
    requires
        are_told_apart(modems),
        0 <= i < modems.len(),
    ensures
        ({
            let tag = modems[i].modem_tag;
            let synced = progress::synced_progress(map, modems);
            &&& synced.contains_key(tag)
            &&& !map.contains_key(tag) ==> is_untouched(synced[tag], modems[i])
            &&& map.contains_key(tag) ==> synced[tag].modem_interface == modems[i].modem_interface
                && synced[tag] == (ModemProgressView {
                modem_interface: synced[tag].modem_interface,
                ..map[tag]
            })
        }),
{
    let kept = crate::cache::configured_entries(map, modems);
    assert(config::has_tag(modems, modems[i].modem_tag));
    lemma_with_modems(kept, modems, i);
}

/// What becomes of the progress of one modem.
proof fn lemma_with_modems(
    map: Map<Seq<char>, ModemProgressView>,
    modems: Seq<ModemView>,
    i: int,
)
    requires
        are_told_apart(modems),
        0 <= i < modems.len(),
    ensures
        progress::with_modems(map, modems).contains_key(modems[i].modem_tag),
        progress::with_modems(map, modems)[modems[i].modem_tag] == progress::kept_progress(
            map,
            modems[i],
        ),
    decreases modems.len(),
{
    let less = modems.drop_last();
    let last = modems.len() - 1;
    assert(modems.last() == modems[last]);
    if i < last {
        assert(modems[i].modem_tag != modems[last].modem_tag);
        assert forall|a: int, b: int| 0 <= a < b < less.len() implies (
        #[trigger] less[a]).modem_tag != (#[trigger] less[b]).modem_tag by {
            assert(modems[a].modem_tag != modems[b].modem_tag);
        }
        lemma_with_modems(map, less, i);
        assert(less[i] == modems[i]);
    } else {
        assert forall|j: int| 0 <= j < less.len() implies (#[trigger] less[j]).modem_tag
            != modems[last].modem_tag by {
            assert(modems[j].modem_tag != modems[last].modem_tag);
        }
        lemma_other_progress(map, less, modems[last].modem_tag);
    }
}

// ---------------------------------------------------------------------------
// Probes
// ---------------------------------------------------------------------------

/// A node that answers a ping is online, with the time it took; one that does not
/// stays as it was.
pub proof fn law_pinged(node: NodeView, millis: u64)
    ensures
        probe::pinged(node, Some(millis)) == (NodeView {
            ping_ok: true,
            ping_ms: Some(millis),
            ..node
        }),
        probe::pinged(node, None) == node,
{
}

/// A node whose tunnel passes works, with the time it took, and one whose tunnel
/// does not works no more, and has no time.
pub proof fn law_probed(node: NodeView, millis: u64)
    ensures
        probe::probed(node, Some(millis)) == (NodeView {
            tunnel_ok: true,
            tunnel_ms: Some(millis),
            ..node
        }),
        probe::probed(node, None) == (NodeView { tunnel_ok: false, tunnel_ms: None, ..node }),
{
}

/// Those that are online, and those that work, are the ones so marked, in their
/// order.
pub proof fn law_passed(first: Seq<NodeView>, second: Seq<NodeView>, node: NodeView)
    ensures
        probe::online(first + second) == probe::online(first) + probe::online(second),
        probe::working(first + second) == probe::working(first) + probe::working(second),
        probe::online(seq![node]) == if node.ping_ok {
            seq![node]
        } else {
            Seq::empty()
        },
        probe::working(seq![node]) == if node.tunnel_ok {
            seq![node]
        } else {
            Seq::empty()
        },
{
    let online = |node: NodeView| node.ping_ok;
    let working = |node: NodeView| node.tunnel_ok;
    Seq::filter_distributes_over_add(first, second, online);
    Seq::filter_distributes_over_add(first, second, working);
    reveal_with_fuel(Seq::filter, 2);
    assert(seq![node].drop_last() =~= Seq::empty());
    assert(Seq::empty().push(node) =~= seq![node]);
}

/// The addresses of a host are tried from the first on, as many as there are, and
/// there is nothing to try where there is none or none was found.
pub proof fn law_lookup(host: Seq<char>, port: u16, count: usize, lookup: Lookup)
    ensures
        ({
            let server = link::server_text(host, port);
            &&& count > 0 ==> probe::ping_after_lookup(host, port, Lookup::Found(count))
                == PingView::Trying(0, count)
            &&& probe::ping_after_lookup(host, port, Lookup::Found(0)) == PingView::Offline(
                "DNS lookup returned no addresses for "@ + server,
            )
            &&& probe::ping_after_lookup(host, port, Lookup::TimedOut) == PingView::Offline(
                "DNS lookup timed out for "@ + server,
            )
            &&& lookup matches Lookup::Failed(reason) ==> probe::ping_after_lookup(
                host,
                port,
                lookup,
            ) == PingView::Offline(reason@)
        }),
{
}

/// The pings of a host so far, after some tries that failed, the last for a
/// reason.
pub open spec fn after_tries(ping: PingView, reasons: Seq<Seq<char>>) -> PingView
    decreases reasons.len(),
{
    if reasons.len() == 0 {
        ping
    } else {
        probe::ping_after_try(after_tries(ping, reasons.drop_last()), Some(reasons.last()))
    }
}

/// A host is offline after as many failed tries as it has addresses, for the
/// reason of the last, and no sooner; until then a try that succeeds finds it
/// online.
pub proof fn law_tries(count: usize, reasons: Seq<Seq<char>>)
    requires
        0 < count,
        reasons.len() <= count,
    ensures
        after_tries(PingView::Trying(0, count), reasons) == if reasons.len() < count {
            PingView::Trying(reasons.len() as usize, count)
        } else {
            PingView::Offline(reasons.last())
        },
        reasons.len() < count ==> probe::ping_after_try(
            after_tries(PingView::Trying(0, count), reasons),
            None,
        ) == PingView::Online,
    decreases reasons.len(),
{
    if reasons.len() > 0 {
        law_tries(count, reasons.drop_last());
    }
}

/// A proxy is greeted with one method, none, and asked for a connection to port
/// 443 of 1.1.1.1.
pub proof fn law_proxy_request()
    ensures
        probe::greeting() == seq![5u8, 1u8, 0u8],
        probe::connect_request() == seq![5u8, 1u8, 0u8, 1u8, 1u8, 1u8, 1u8, 1u8, 1u8, 187u8],
{
    assert(443u16 / 256 == 1 && 443u16 % 256 == 187);
}

/// A proxy that picks the method, says that the connection is there, and gives an
/// address of its kind, is connected after just as many bytes as the kind needs:
/// six for four numbers, eighteen for sixteen, and a name by its length.
pub proof fn law_proxy_reply(
    method: Seq<u8>,
    reply: Seq<u8>,
    length: Seq<u8>,
    address: Seq<u8>,
    count: usize,
)
    requires
        method.len() == 2,
        reply.len() == 4,
        length.len() == 1,
    ensures
        probe::needed(Socks::Method) == 2,
        probe::needed(Socks::Reply) == 4,
        probe::needed(Socks::NameLength) == 1,
        probe::socks_after(Socks::Method, method) is Ok <==> method[0] == 5 && method[1] == 0,
        probe::socks_after(Socks::Method, method) matches Ok(next) ==> next == Socks::Reply,
        probe::socks_after(Socks::Reply, reply) is Ok <==> reply[0] == 5 && reply[1] == 0 && (
        reply[3] == 1 || reply[3] == 3 || reply[3] == 4),
        probe::socks_after(Socks::Reply, reply) matches Ok(next) ==> {
            &&& reply[3] == 1 ==> probe::needed(next) == 4 + 2
            &&& reply[3] == 4 ==> probe::needed(next) == 16 + 2
            &&& reply[3] == 3 ==> next == Socks::NameLength
            &&& reply[3] != 3 ==> next is Address
        },
        probe::socks_after(Socks::NameLength, length) matches Ok(next) && next is Address
            && probe::needed(next) == length[0] + 2,
        probe::socks_after(Socks::Address(count), address) == Ok::<Socks, Seq<char>>(
            Socks::Connected,
        ),
        probe::needed(Socks::Connected) == 0,
{
}

// ---------------------------------------------------------------------------
// What is found for a modem
// ---------------------------------------------------------------------------

/// Whether one node comes before another by the time that its tunnel took; one
/// without a time is the slowest.
pub open spec fn is_no_slower(first: NodeView, second: NodeView) -> bool {
    match (first.tunnel_ms, second.tunnel_ms) {
        (Some(a), Some(b)) => a <= b,
        (Some(_), None) => true,
        (None, Some(b)) => b == u64::MAX,
        (None, None) => true,
    }
}

/// Nodes are sorted by the time that their tunnels took, the fastest first.
pub proof fn law_fastest_first(nodes: Seq<NodeView>, i: int, j: int)
    requires
        0 <= i < j < nodes.len(),
    ensures
        branch::by_delay(nodes).len() == nodes.len(),
        is_no_slower(branch::by_delay(nodes)[i], branch::by_delay(nodes)[j]),
{
    branch::law_sorting_keeps_nodes(nodes);
    branch::law_sorted_by_delay(nodes);
    assert(branch::delay(branch::by_delay(nodes)[i]) <= branch::delay(branch::by_delay(nodes)[j]));
}

/// The nodes whose tunnels took a time, in their order.
pub open spec fn that_took(nodes: Seq<NodeView>, millis: u64) -> Seq<NodeView> {
    nodes.filter(|node: NodeView| node.tunnel_ms == Some(millis))
}

/// Those that took a time, of a list with one more.
proof fn lemma_one_more(nodes: Seq<NodeView>, node: NodeView, millis: u64)
    ensures
        that_took(nodes.push(node), millis) == if node.tunnel_ms == Some(millis) {
            that_took(nodes, millis).push(node)
        } else {
            that_took(nodes, millis)
        },
{
    reveal(Seq::filter);
    assert(nodes.push(node).drop_last() =~= nodes);
}

/// Nodes that are equally fast stay in their order.
pub proof fn law_equal_stay_in_order(nodes: Seq<NodeView>, millis: u64)
    ensures
        that_took(branch::by_delay(nodes), millis) == that_took(nodes, millis),
    decreases nodes.len(),
{
    if nodes.len() == 0 {
        assert(branch::by_delay(nodes) =~= nodes);
    } else {
        let less = nodes.drop_last();
        law_equal_stay_in_order(less, millis);
        lemma_placed(branch::by_delay(less), nodes.last(), millis);
        lemma_one_more(branch::by_delay(less), nodes.last(), millis);
        lemma_one_more(less, nodes.last(), millis);
        assert(less.push(nodes.last()) =~= nodes);
    }
}

/// A node comes behind those that are as fast.
proof fn lemma_placed(nodes: Seq<NodeView>, node: NodeView, millis: u64)
    ensures
        that_took(branch::placed(nodes, node), millis) == that_took(nodes.push(node), millis),
    decreases nodes.len(),
{
    if nodes.len() == 0 || branch::delay(nodes.last()) <= branch::delay(node) {
    } else {
        let less = nodes.drop_last();
        let last = nodes.last();
        lemma_placed(less, node, millis);
        lemma_one_more(branch::placed(less, node), last, millis);
        lemma_one_more(nodes, node, millis);
        lemma_one_more(less, node, millis);
        lemma_one_more(less, last, millis);
        assert(less.push(last) =~= nodes);
    }
}

/// What is kept for a modem: its name and interface, when it was, how many
/// answered, how many work, and those that work, the fastest first, under the
/// names they are shown by.
pub open spec fn is_entry(
    entry: EntryView,
    modem: ModemView,
    answered: nat,
    working: Seq<NodeView>,
    now: Timestamp,
) -> bool {
    &&& entry.modem_tag == modem.modem_tag
    &&& entry.modem_interface == modem.modem_interface
    &&& entry.last_update == now
    &&& entry.nodes_after_ping == answered
    &&& entry.nodes_after_tunnel == working.len()
    &&& entry.nodes == renamer::renamed(branch::by_delay(working))
}

/// Where the first page answers and the interface can be bound, the nodes are
/// pinged, the tunnels of those that answer are probed, and those that work are
/// kept. Where only some pages pass, the tunnels are probed twice, and the second
/// time counts.
pub proof fn law_modem_is_updated(
    modem: ModemView,
    nodes: Seq<NodeView>,
    health: HealthView,
    online: Seq<NodeView>,
    first: Seq<NodeView>,
    second: Seq<NodeView>,
    now: Timestamp,
)
    requires
        health.white_url_ok == Some(true),
        online.len() <= usize::MAX,
        first.len() <= usize::MAX,
        second.len() <= usize::MAX,
    ensures
        ({
            let checked = branch::branch_after(
                BranchView::Health(nodes),
                modem,
                BranchEventView::Checked(health),
                now,
            );
            let bound = branch::branch_after(checked, modem, BranchEventView::Bound, now);
            let pinged = branch::branch_after(bound, modem, BranchEventView::Pinged(online), now);
            let once = branch::branch_after(pinged, modem, BranchEventView::Probed(first), now);
            let twice = branch::branch_after(once, modem, BranchEventView::Probed(second), now);
            &&& checked matches BranchView::Bind(to_ping, _) && to_ping == nodes
            &&& bound matches BranchView::Ping(to_ping, _) && to_ping == nodes
            &&& pinged matches BranchView::Tunnel(to_probe, _) && to_probe == online
            &&& !health.whitelist_mode ==> (once matches BranchView::Done(entry) && is_entry(
                entry,
                modem,
                online.len(),
                first,
                now,
            ))
            &&& health.whitelist_mode ==> (once matches BranchView::Tunnel(to_probe, _)
                && to_probe == online) && (twice matches BranchView::Done(entry) && is_entry(
                entry,
                modem,
                online.len(),
                second,
                now,
            ))
        }),
{
}

/// Where the first page does not answer, the modem is left out, for the reason of
/// the check or as offline; where the interface cannot be bound, it fails, and
/// the interface is named.
pub proof fn law_modem_fails(
    modem: ModemView,
    nodes: Seq<NodeView>,
    health: HealthView,
    twice: bool,
    reason: Seq<char>,
    now: Timestamp,
)
    requires
        health.white_url_ok != Some(true),
    ensures
        branch::branch_after(
            BranchView::Health(nodes),
            modem,
            BranchEventView::Checked(health),
            now,
        ) == BranchView::Failed(
            if health.last_error is Some {
                health.last_error->0
            } else {
                "modem_offline"@
            },
        ),
        branch::branch_after(
            BranchView::Bind(nodes, twice),
            modem,
            BranchEventView::NotBound(reason),
            now,
        ) == BranchView::Failed(
            "failed to bind TCP socket to interface "@ + modem.modem_interface + ": "@ + reason,
        ),
{
}

/// The branch of a modem that is over stays so.
pub proof fn law_branch_ends(
    over: BranchView,
    modem: ModemView,
    event: BranchEventView,
    now: Timestamp,
)
    requires
        over is Done || over is Failed,
    ensures
        branch::branch_after(over, modem, event, now) == over,
        branch::branch_report(over, modem, event).steps.len() == 0,
        branch::branch_report(over, modem, event).events.len() == 0,
{
}

/// What is reported where a modem fails is the reason that it fails for.
pub proof fn law_failure_is_reported(
    before: BranchView,
    modem: ModemView,
    event: BranchEventView,
    now: Timestamp,
)
    requires
        !(before is Failed),
    ensures
        branch::branch_after(before, modem, event, now) matches BranchView::Failed(reason) ==> {
            let report = branch::branch_report(before, modem, event);
            &&& report.steps.len() > 0
            &&& report.steps.last() == StepView::Failed(reason)
            &&& before is Health ==> report.steps == seq![
                StepView::Skipped(reason),
                StepView::Failed(reason),
            ]
            &&& before is Bind ==> report.steps.len() == 1
            &&& report.events == seq![events::event_of_modem_failure(modem, reason)]
        },
{
}

/// The progress of a modem after some steps.
pub open spec fn after_steps(before: ModemProgressView, steps: Seq<StepView>) -> ModemProgressView
    decreases steps.len(),
{
    if steps.len() == 0 {
        before
    } else {
        progress::after_step(after_steps(before, steps.drop_last()), steps.last())
    }
}

/// While a modem is updated, its progress shows how many nodes are pinged, then
/// how many answered and that their tunnels are probed, and in the end how many
/// work; each end is told once.
pub proof fn law_progress_is_reported(
    modem: ModemView,
    nodes: Seq<NodeView>,
    online: Seq<NodeView>,
    working: Seq<NodeView>,
    twice: bool,
    before: ModemProgressView,
)
    requires
        nodes.len() <= usize::MAX,
        online.len() <= usize::MAX,
        working.len() <= usize::MAX,
    ensures
        ({
            let bound = branch::branch_report(
                BranchView::Bind(nodes, twice),
                modem,
                BranchEventView::Bound,
            );
            let pinged = branch::branch_report(
                BranchView::Ping(nodes, twice),
                modem,
                BranchEventView::Pinged(online),
            );
            let probed = branch::branch_report(
                BranchView::Tunnel(online, false),
                modem,
                BranchEventView::Probed(working),
            );
            let again = branch::branch_report(
                BranchView::Tunnel(online, true),
                modem,
                BranchEventView::Probed(working),
            );
            let pinging = after_steps(before, bound.steps);
            let probing = after_steps(pinging, pinged.steps);
            let over = after_steps(probing, probed.steps);
            &&& pinging.stage is Ping
            &&& pinging.ping_done == 0
            &&& pinging.ping_total == nodes.len()
            &&& bound.events.len() == 0
            &&& probing.stage is Tunnel
            &&& probing.ping_done == nodes.len()
            &&& probing.ping_total == nodes.len()
            &&& probing.nodes_after_ping == online.len()
            &&& probing.tunnel_done == 0
            &&& probing.tunnel_total == online.len()
            &&& pinged.events == seq![events::event_of_pings(modem, online.len() as usize)]
            &&& over.stage is Complete
            &&& over.ping_done == nodes.len()
            &&& over.nodes_after_ping == online.len()
            &&& over.tunnel_done == online.len()
            &&& over.tunnel_total == online.len()
            &&& over.nodes_after_tunnel == working.len()
            &&& over.last_error is None
            &&& probed.events == seq![
                events::event_of_modem_completion(
                    modem,
                    online.len() as usize,
                    working.len() as usize,
                ),
            ]
            &&& again.steps.len() == 0
            &&& again.events.len() == 0
        }),
{
    reveal_with_fuel(after_steps, 3);
}

/// A proxy that does not do as it was asked is told by what it did.
pub proof fn law_proxy_refused(method: Seq<u8>, reply: Seq<u8>)
    requires
        method.len() == 2,
        reply.len() == 4,
    ensures
        probe::socks_after(Socks::Method, method) matches Err(message) ==> message
            == "SOCKS5 proxy rejected no-auth method"@,
        probe::socks_after(Socks::Reply, reply) matches Err(message) ==> {
            &&& reply[0] != 5 ==> message == "invalid SOCKS5 version in connect response"@
            &&& reply[0] == 5 && reply[1] != 0 ==> message
                == "SOCKS5 connect failed with reply code "@ + text::decimal(reply[1] as nat)
            &&& reply[0] == 5 && reply[1] == 0 ==> message == "unsupported SOCKS5 address type "@
                + text::decimal(reply[3] as nat)
        },
{
}

} // verus!
