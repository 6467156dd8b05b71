//! Probes of nodes: what is said to a SOCKS5 proxy, which addresses are tried,
//! and what is noted of a node.

use vstd::prelude::*;
use vstd::string::*;

use crate::failure::Failure;
use crate::items;
use crate::link;
use crate::node::{Node, NodeView};
use crate::text;

verus! {

// ---------------------------------------------------------------------------
// What is noted of a node
// ---------------------------------------------------------------------------

/// A node after a ping: online with its delay, or as it was.
pub open spec fn pinged(node: NodeView, millis: Option<u64>) -> NodeView {
    match millis {
        Some(_) => NodeView { ping_ok: true, ping_ms: millis, ..node },
        None => node,
    }
}

/// Notes the delay of a ping, where it got through.
pub fn record_ping(node: Node, millis: Option<u64>) -> (result: Node)
    ensures
        result@ == pinged(node@, millis),
{
    let mut node = node;
    if millis.is_some() {
        node.ping_ok = true;
        node.ping_ms = millis;
    }
    node
}

/// A node after its tunnel was probed.
pub open spec fn probed(node: NodeView, millis: Option<u64>) -> NodeView {
    NodeView { tunnel_ok: millis is Some, tunnel_ms: millis, ..node }
}

/// Notes the delay of a tunnel, where it works.
pub fn record_tunnel(node: Node, millis: Option<u64>) -> (result: Node)
    ensures
        result@ == probed(node@, millis),
{
    let mut node = node;
    node.tunnel_ok = millis.is_some();
    node.tunnel_ms = millis;
    node
}

/// The nodes that are online, in their order.
pub open spec fn online(nodes: Seq<NodeView>) -> Seq<NodeView> {
    nodes.filter(|node: NodeView| node.ping_ok)
}

/// The nodes whose tunnels work, in their order.
pub open spec fn working(nodes: Seq<NodeView>) -> Seq<NodeView> {
    nodes.filter(|node: NodeView| node.tunnel_ok)
}

/// The nodes that are online.
pub fn keep_online(nodes: Vec<Node>) -> (result: Vec<Node>)
    ensures
        items::views(result@) == online(items::views(nodes@)),
{
    let ghost all = items::views(nodes@);
    let mut result: Vec<Node> = Vec::new();
    proof {
        reveal(Seq::filter);
    }
    assert(items::views(result@) =~= online(all.take(0)));
    for node in it: nodes
        invariant
            it.seq() == nodes@,
            all == items::views(nodes@),
            items::views(result@) == online(all.take(it.index() as int)),
    {
        let ghost next = all.take(it.index() + 1);
        let ghost before = result@;
        proof {
            reveal(Seq::filter);
            assert(next.drop_last() =~= all.take(it.index() as int));
            assert(next.last() == node@);
        }
        if node.ping_ok {
            result.push(node);
            assert(items::views(result@) =~= items::views(before).push(node@));
        }
    }
    assert(all.take(nodes@.len() as int) =~= all);
    result
}

/// The nodes whose tunnels work.
pub fn keep_working(nodes: Vec<Node>) -> (result: Vec<Node>)
    ensures
        items::views(result@) == working(items::views(nodes@)),
{
    let ghost all = items::views(nodes@);
    let mut result: Vec<Node> = Vec::new();
    proof {
        reveal(Seq::filter);
    }
    assert(items::views(result@) =~= working(all.take(0)));
    for node in it: nodes
        invariant
            it.seq() == nodes@,
            all == items::views(nodes@),
            items::views(result@) == working(all.take(it.index() as int)),
    {
        let ghost next = all.take(it.index() + 1);
        let ghost before = result@;
        proof {
            reveal(Seq::filter);
            assert(next.drop_last() =~= all.take(it.index() as int));
            assert(next.last() == node@);
        }
        if node.tunnel_ok {
            result.push(node);
            assert(items::views(result@) =~= items::views(before).push(node@));
        }
    }
    assert(all.take(nodes@.len() as int) =~= all);
    result
}

/// How many probes may run at once: at least one.
pub fn concurrent_probes(limit: usize) -> (result: usize)
    ensures
        result == if limit == 0 {
            1
        } else {
            limit as int
        },
{
    if limit == 0 {
        1
    } else {
        limit
    }
}

// ---------------------------------------------------------------------------
// The addresses of a node
// ---------------------------------------------------------------------------

/// What came of looking a host up.
#[derive(Debug)]
pub enum Lookup {
    /// It has so many addresses.
    Found(usize),
    /// It could not be looked up, for a reason.
    Failed(String),
    /// It was not over in time.
    TimedOut,
}

/// Where the ping of a node stands.
#[derive(Debug)]
pub enum Ping {
    /// The address with a number is to be tried, of so many.
    Trying(usize, usize),
    /// An address was reached.
    Online,
    /// None was reached, for a reason.
    Offline(String),
}

/// The mathematical form of where the ping of a node stands.
pub enum PingView {
    Trying(usize, usize),
    Online,
    Offline(Seq<char>),
}

impl View for Ping {
    type V = PingView;

    open spec fn view(&self) -> PingView {
        match *self {
            Ping::Trying(index, count) => PingView::Trying(index, count),
            Ping::Online => PingView::Online,
            Ping::Offline(reason) => PingView::Offline(reason@),
        }
    }
}

/// Where the ping of a node stands when its host was looked up.
pub open spec fn ping_after_lookup(host: Seq<char>, port: u16, lookup: Lookup) -> PingView {
    match lookup {
        Lookup::Found(count) => if count == 0 {
            PingView::Offline(
                "DNS lookup returned no addresses for "@ + link::server_text(host, port),
            )
        } else {
            PingView::Trying(0, count)
        },
        Lookup::Failed(reason) => PingView::Offline(reason@),
        Lookup::TimedOut => PingView::Offline(
            "DNS lookup timed out for "@ + link::server_text(host, port),
        ),
    }
}

/// Where the ping of a node stands when an address was tried; `reason` is why
/// it was not reached. The reason for the last address is the one that counts.
pub open spec fn ping_after_try(ping: PingView, reason: Option<Seq<char>>) -> PingView {
    match ping {
        PingView::Trying(index, count) => match reason {
            None => PingView::Online,
            Some(reason) => if index + 1 < count {
                PingView::Trying((index + 1) as usize, count)
            } else {
                PingView::Offline(reason)
            },
        },
        _ => ping,
    }
}

impl Ping {
    /// Where the ping of a node stands when its host was looked up.
    pub fn after_lookup(host: &str, port: u16, lookup: &Lookup) -> (ping: Ping)
        ensures
            ping@ == ping_after_lookup(host@, port, *lookup),
    {
        match lookup {
            Lookup::Found(count) => {
                if *count == 0 {
                    let mut message = "DNS lookup returned no addresses for ".to_string();
                    message.append(link::write_server(host, port).as_str());
                    Ping::Offline(message)
                } else {
                    Ping::Trying(0, *count)
                }
            },
            Lookup::Failed(reason) => Ping::Offline(reason.clone()),
            Lookup::TimedOut => {
                let mut message = "DNS lookup timed out for ".to_string();
                message.append(link::write_server(host, port).as_str());
                Ping::Offline(message)
            },
        }
    }

    /// Where the ping of a node stands when an address was tried.
    pub fn after_try(self, reason: Option<String>) -> (ping: Ping)
        ensures
            ping@ == ping_after_try(self@, text::text_view(reason)),
    {
        match self {
            Ping::Trying(index, count) => match reason {
                None => Ping::Online,
                Some(reason) => {
                    if index < count && count - index > 1 {
                        Ping::Trying(index + 1, count)
                    } else {
                        Ping::Offline(reason)
                    }
                },
            },
            ping => ping,
        }
    }
}

/// A ping tries each address of a node at most once, in their order.
pub proof fn law_ping_ends(index: usize, count: usize, reason: Option<Seq<char>>)
    requires
        index < count,
    ensures
        ping_after_try(PingView::Trying(index, count), reason) matches PingView::Trying(next, left)
            ==> next == index + 1 && next < count && left == count,
        reason is None ==> ping_after_try(PingView::Trying(index, count), reason)
            == PingView::Online,
{
}

// ---------------------------------------------------------------------------
// SOCKS5
// ---------------------------------------------------------------------------

/// The address that is asked for through a tunnel.
pub const PROBE_HOST: [u8; 4] = [1, 1, 1, 1];

/// The port that is asked for through a tunnel.
pub const PROBE_PORT: u16 = 443;

/// Where the exchange with a SOCKS5 proxy stands: what is to be read next.
#[derive(Debug, Clone, Copy, PartialEq, Eq, Structural)]
pub enum Socks {
    /// The method that the proxy picks.
    Method,
    /// The start of its reply.
    Reply,
    /// The length of the name that it is bound to.
    NameLength,
    /// The address that it is bound to, of so many bytes.
    Address(usize),
    /// Nothing: the connection is there.
    Connected,
}

/// How many bytes are to be read next.
pub open spec fn needed(socks: Socks) -> nat {
    match socks {
        Socks::Method => 2,
        Socks::Reply => 4,
        Socks::NameLength => 1,
        Socks::Address(count) => count as nat,
        Socks::Connected => 0,
    }
}

/// The bytes with which the exchange starts: one method, that without
/// authentication.
pub open spec fn greeting() -> Seq<u8> {
    seq![5u8, 1u8, 0u8]
}

/// The request to connect to the probed address.
pub open spec fn connect_request() -> Seq<u8> {
    seq![
        5u8,
        1u8,
        0u8,
        1u8,
        PROBE_HOST@[0],
        PROBE_HOST@[1],
        PROBE_HOST@[2],
        PROBE_HOST@[3],
        (PROBE_PORT / 256) as u8,
        (PROBE_PORT % 256) as u8,
    ]
}

/// Where the exchange stands when the bytes that were needed have been read.
pub open spec fn socks_after(socks: Socks, bytes: Seq<u8>) -> Result<Socks, Seq<char>> {
    match socks {
        Socks::Method => if bytes[0] == 5 && bytes[1] == 0 {
            Ok(Socks::Reply)
        } else {
            Err("SOCKS5 proxy rejected no-auth method"@)
        },
        Socks::Reply => if bytes[0] != 5 {
            Err("invalid SOCKS5 version in connect response"@)
        } else if bytes[1] != 0 {
            Err("SOCKS5 connect failed with reply code "@ + text::decimal(bytes[1] as nat))
        } else if bytes[3] == 1 {
            Ok(Socks::Address(6))
        } else if bytes[3] == 3 {
            Ok(Socks::NameLength)
        } else if bytes[3] == 4 {
            Ok(Socks::Address(18))
        } else {
            Err("unsupported SOCKS5 address type "@ + text::decimal(bytes[3] as nat))
        },
        Socks::NameLength => Ok(Socks::Address((bytes[0] + 2) as usize)),
        Socks::Address(_) => Ok(Socks::Connected),
        Socks::Connected => Ok(Socks::Connected),
    }
}

/// The view of where the exchange stands.
pub open spec fn socks_view(result: Result<Socks, Failure>) -> Result<
    Socks,
    Seq<char>,
> {
    match result {
        Ok(socks) => Ok(socks),
        Err(failure) => Err(failure@),
    }
}

/// The bytes with which the exchange starts.
pub fn socks_greeting() -> (bytes: Vec<u8>)
    ensures
        bytes@ == greeting(),
{
    let bytes: Vec<u8> = vec![5, 1, 0];
    assert(bytes@ =~= greeting());
    bytes
}

/// The request to connect to the probed address.
pub fn socks_request() -> (bytes: Vec<u8>)
    ensures
        bytes@ == connect_request(),
{
    let host = PROBE_HOST;
    let bytes: Vec<u8> = vec![
        5,
        1,
        0,
        1,
        host[0],
        host[1],
        host[2],
        host[3],
        (PROBE_PORT / 256) as u8,
        (PROBE_PORT % 256) as u8,
    ];
    assert(bytes@ =~= connect_request());
    bytes
}

impl Socks {
    /// How many bytes are to be read next.
    pub fn bytes_needed(&self) -> (count: usize)
        ensures
            count == needed(*self),
    {
        match self {
            Socks::Method => 2,
            Socks::Reply => 4,
            Socks::NameLength => 1,
            Socks::Address(count) => *count,
            Socks::Connected => 0,
        }
    }

    /// Where the exchange stands when the bytes that were needed have been
    /// read.
    pub fn advance(&self, bytes: &Vec<u8>) -> (result: Result<Socks, Failure>)
        requires
            bytes@.len() == needed(*self),
        ensures
            socks_view(result) == socks_after(*self, bytes@),
    {
        match self {
            Socks::Method => {
                if bytes[0] == 5 && bytes[1] == 0 {
                    Ok(Socks::Reply)
                } else {
                    Err(Failure::of("SOCKS5 proxy rejected no-auth method"))
                }
            },
            Socks::Reply => Socks::after_reply(bytes),
            Socks::NameLength => Ok(Socks::Address(bytes[0] as usize + 2)),
            Socks::Address(_) => Ok(Socks::Connected),
            Socks::Connected => Ok(Socks::Connected),
        }
    }

    /// Where the exchange stands after the start of the reply.
    fn after_reply(bytes: &Vec<u8>) -> (result: Result<Socks, Failure>)
        requires
            bytes@.len() == 4,
        ensures
            socks_view(result) == socks_after(Socks::Reply, bytes@),
    {
        if bytes[0] != 5 {
            return Err(
                Failure::of("invalid SOCKS5 version in connect response"),
            );
        }
        if bytes[1] != 0 {
            let mut message = "SOCKS5 connect failed with reply code ".to_string();
            message.append(text::decimal_text(bytes[1] as u64).as_str());
            return Err(Failure::new(message));
        }
        if bytes[3] == 1 {
            Ok(Socks::Address(6))
        } else if bytes[3] == 3 {
            Ok(Socks::NameLength)
        } else if bytes[3] == 4 {
            Ok(Socks::Address(18))
        } else {
            let mut message = "unsupported SOCKS5 address type ".to_string();
            message.append(text::decimal_text(bytes[3] as u64).as_str());
            Err(Failure::new(message))
        }
    }
}

/// How many reads are left at most before a connection is there.
pub open spec fn reads_left(socks: Socks) -> nat {
    match socks {
        Socks::Method => 4,
        Socks::Reply => 3,
        Socks::NameLength => 2,
        Socks::Address(_) => 1,
        Socks::Connected => 0,
    }
}

/// The exchange comes to its end: every read that is accepted brings it nearer.
pub proof fn law_socks_ends(socks: Socks, bytes: Seq<u8>)
    requires
        bytes.len() == needed(socks),
        socks != Socks::Connected,
    ensures
        socks_after(socks, bytes) matches Ok(next) ==> reads_left(next) < reads_left(socks),
{
}

} // verus!
