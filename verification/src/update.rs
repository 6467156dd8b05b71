//! An update as a whole: how subscriptions are asked for, and what becomes of
//! what they hold.

use vstd::prelude::*;
use vstd::string::*;

use crate::dedup;
use crate::events;
use crate::events::UpdateEvent;
use crate::items;
use crate::node::{Node, NodeView};
use crate::parser;
use crate::progress::{ProgressView, UpdateProgress, UpdateStage};
use crate::text;

verus! {

// ---------------------------------------------------------------------------
// Asking for subscriptions
// ---------------------------------------------------------------------------

/// How often a subscription is asked for before it is given up.
pub const MAX_ATTEMPTS: u32 = 3;

/// Where the attempts to fetch a subscription stand: the number of the present
/// one, and the seconds to wait if it fails.
#[derive(Debug, Clone, Copy, PartialEq, Eq, Structural)]
pub struct Retry {
    pub attempt: u32,
    pub delay_secs: u64,
}

/// Twice as many seconds, as far as they can be counted.
pub open spec fn doubled(secs: u64) -> u64 {
    if 2 * secs <= u64::MAX {
        (2 * secs) as u64
    } else {
        u64::MAX
    }
}

/// Where the attempts stand after the present one has failed: nowhere if it was
/// the last.
pub open spec fn next_attempt(retry: Retry) -> Option<Retry> {
    if retry.attempt >= MAX_ATTEMPTS {
        None
    } else {
        Some(Retry { attempt: (retry.attempt + 1) as u32, delay_secs: doubled(retry.delay_secs) })
    }
}

impl Retry {
    /// The first attempt.
    pub fn first() -> (retry: Self)
        ensures
            retry == (Retry { attempt: 1, delay_secs: 1 }),
    {
        Retry { attempt: 1, delay_secs: 1 }
    }

    /// The next attempt, to be made after `delay_secs` seconds of this one.
    pub fn after_failure(&self) -> (next: Option<Retry>)
        ensures
            next == next_attempt(*self),
    {
        if self.attempt >= MAX_ATTEMPTS {
            return None;
        }
        let delay_secs = if self.delay_secs <= u64::MAX / 2 {
            self.delay_secs * 2
        } else {
            u64::MAX
        };
        Some(Retry { attempt: self.attempt + 1, delay_secs })
    }
}

/// Why a subscription was given up.
pub open spec fn give_up_reason(url: Seq<char>) -> Seq<char> {
    "failed to fetch "@ + url + " after "@ + text::decimal(MAX_ATTEMPTS as nat) + " attempts"@
}

/// Why a subscription was given up.
pub fn give_up_message(url: &str) -> (message: String)
    ensures
        message@ == give_up_reason(url@),
{
    let mut message = "failed to fetch ".to_string();
    message.append(url);
    message.append(" after ");
    message.append(text::decimal_text(MAX_ATTEMPTS as u64).as_str());
    message.append(" attempts");
    message
}

/// Attempts come to an end: each is one more than the last, none is more than
/// the most, and the wait never grows shorter.
pub proof fn law_attempts_end(retry: Retry)
    ensures
        next_attempt(retry) is None <==> retry.attempt >= MAX_ATTEMPTS,
        next_attempt(retry) matches Some(next) ==> next.attempt == retry.attempt + 1
            && next.attempt <= MAX_ATTEMPTS && next.delay_secs >= retry.delay_secs,
{
}

// ---------------------------------------------------------------------------
// What subscriptions hold
// ---------------------------------------------------------------------------

/// The nodes of all subscriptions that were fetched and can be read, in their
/// order.
pub open spec fn fetched_nodes(bodies: Seq<Option<Seq<char>>>) -> Seq<NodeView>
    decreases bodies.len(),
{
    if bodies.len() == 0 {
        Seq::empty()
    } else {
        let earlier = fetched_nodes(bodies.drop_last());
        match bodies.last() {
            Some(body) => match parser::subscription(body) {
                Ok(nodes) => earlier + nodes,
                Err(_) => earlier,
            },
            None => earlier,
        }
    }
}

/// Why each subscription that was fetched cannot be read: nothing where it can,
/// or was not fetched.
pub open spec fn refusals(bodies: Seq<Option<Seq<char>>>) -> Seq<Option<Seq<char>>> {
    bodies.map_values(
        |body: Option<Seq<char>>|
            match body {
                Some(body) => match parser::subscription(body) {
                    Ok(_) => None,
                    Err(message) => Some(message),
                },
                None => None,
            },
    )
}

/// The views of what was fetched.
pub open spec fn body_views(bodies: Seq<Option<String>>) -> Seq<Option<Seq<char>>> {
    bodies.map_values(|body: Option<String>| text::text_view(body))
}

/// The nodes of all subscriptions that were fetched and can be read, and why the
/// others cannot be read.
pub fn collect_nodes(bodies: &Vec<Option<String>>) -> (result: (Vec<Node>, Vec<Option<String>>))
    ensures
        items::views(result.0@) == fetched_nodes(body_views(bodies@)),
        body_views(result.1@) == refusals(body_views(bodies@)),
{
    let ghost all = body_views(bodies@);
    let mut nodes: Vec<Node> = Vec::new();
    let mut refused: Vec<Option<String>> = Vec::new();
    let mut i: usize = 0;
    assert(items::views(nodes@) =~= fetched_nodes(all.take(0)));
    while i < bodies.len()
        invariant
            i <= bodies@.len(),
            all == body_views(bodies@),
            items::views(nodes@) == fetched_nodes(all.take(i as int)),
            refused@.len() == i,
            forall|j: int|
                0 <= j < i ==> text::text_view(#[trigger] refused@[j]) == refusals(all)[j],
        decreases bodies@.len() - i,
    {
        let ghost before = nodes@;
        assert(all.take(i + 1).drop_last() =~= all.take(i as int));
        assert(all.take(i + 1).last() == text::text_view(bodies@[i as int]));
        let refusal = match &bodies[i] {
            Some(body) => match parser::parse_subscription(body.as_str()) {
                Ok(more) => {
                    let mut more = more;
                    let ghost added = more@;
                    nodes.append(&mut more);
                    assert(items::views(nodes@) =~= items::views(before) + items::views(added));
                    None
                },
                Err(failure) => Some(failure.message().to_string()),
            },
            None => None,
        };
        refused.push(refusal);
        i = i + 1;
    }
    assert(all.take(i as int) =~= all);
    assert(body_views(refused@) =~= refusals(all));
    (nodes, refused)
}

/// Reads what was fetched, and notes how many nodes it holds; says why the
/// subscriptions cannot be read that cannot.
pub fn take_fetched(progress: &mut UpdateProgress, bodies: &Vec<Option<String>>) -> (result: (
    Vec<Node>,
    UpdateEvent,
    Vec<Option<String>>,
))
    ensures
        body_views(result.2@) == refusals(body_views(bodies@)),
        items::views(result.0@) == fetched_nodes(body_views(bodies@)),
        result.1@ == events::event_of_fetch(result.0@.len() as usize),
        final(progress)@ == (ProgressView {
            nodes_total: result.0@.len() as usize,
            stage: UpdateStage::Dedup,
            ..old(progress)@
        }),
{
    let (nodes, refused) = collect_nodes(bodies);
    progress.fetched(nodes.len());
    let event = UpdateEvent::fetch_complete(nodes.len());
    (nodes, event, refused)
}

/// Removes duplicates, and notes how many nodes are left.
pub fn take_distinct(progress: &mut UpdateProgress, nodes: Vec<Node>) -> (result: (
    Vec<Node>,
    UpdateEvent,
))
    ensures
        items::views(result.0@) == dedup::first_of_each(items::views(nodes@)),
        result.1@ == events::event_of_dedup(nodes@.len() as usize, result.0@.len() as usize),
        final(progress)@ == (ProgressView {
            nodes_after_dedup: result.0@.len() as usize,
            stage: UpdateStage::Modems,
            ..old(progress)@
        }),
{
    let total = nodes.len();
    let distinct = dedup::dedup_nodes(nodes);
    progress.deduplicated(distinct.len());
    let event = UpdateEvent::dedup_complete(total, distinct.len());
    (distinct, event)
}

} // verus!
