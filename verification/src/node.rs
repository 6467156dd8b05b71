//! Proxy nodes.

use vstd::prelude::*;

use crate::items::Duplicate;
use crate::strmap::StrMap;

verus! {

/// The protocol that a node speaks.
#[derive(Debug, Clone, Copy, PartialEq, Eq, Hash, Structural)]
pub enum Protocol {
    Vmess,
    Vless,
    Trojan,
    Shadowsocks,
    ShadowsocksR,
    Hysteria2,
    Tuic,
}

/// The scheme by which links name a protocol.
pub open spec fn protocol_name(protocol: Protocol) -> Seq<char> {
    match protocol {
        Protocol::Vmess => "vmess"@,
        Protocol::Vless => "vless"@,
        Protocol::Trojan => "trojan"@,
        Protocol::Shadowsocks => "ss"@,
        Protocol::ShadowsocksR => "ssr"@,
        Protocol::Hysteria2 => "hysteria2"@,
        Protocol::Tuic => "tuic"@,
    }
}

impl Protocol {
    /// The scheme by which links name this protocol.
    pub fn as_str(&self) -> (name: &'static str)
        ensures
            name@ == protocol_name(*self),
    {
        match self {
            Protocol::Vmess => "vmess",
            Protocol::Vless => "vless",
            Protocol::Trojan => "trojan",
            Protocol::Shadowsocks => "ss",
            Protocol::ShadowsocksR => "ssr",
            Protocol::Hysteria2 => "hysteria2",
            Protocol::Tuic => "tuic",
        }
    }
}

/// A proxy node: where it is, how to speak to it, its names and what the
/// probes found.
#[derive(Debug)]
pub struct Node {
    pub protocol: Protocol,
    pub host: String,
    pub port: u16,
    pub params: StrMap<String>,
    pub raw_name: String,
    pub display_name: String,
    pub original_uri: String,
    pub ping_ok: bool,
    pub ping_ms: Option<u64>,
    pub tunnel_ok: bool,
    pub tunnel_ms: Option<u64>,
}

/// The mathematical form of a node.
pub struct NodeView {
    pub protocol: Protocol,
    pub host: Seq<char>,
    pub port: u16,
    pub params: Map<Seq<char>, Seq<char>>,
    pub raw_name: Seq<char>,
    pub display_name: Seq<char>,
    pub original_uri: Seq<char>,
    pub ping_ok: bool,
    pub ping_ms: Option<u64>,
    pub tunnel_ok: bool,
    pub tunnel_ms: Option<u64>,
}

impl View for Node {
    type V = NodeView;

    open spec fn view(&self) -> NodeView {
        NodeView {
            protocol: self.protocol,
            host: self.host@,
            port: self.port,
            params: self.params@,
            raw_name: self.raw_name@,
            display_name: self.display_name@,
            original_uri: self.original_uri@,
            ping_ok: self.ping_ok,
            ping_ms: self.ping_ms,
            tunnel_ok: self.tunnel_ok,
            tunnel_ms: self.tunnel_ms,
        }
    }
}

/// A node that no probe has seen, displayed under the name it came with.
pub open spec fn unprobed_node(
    protocol: Protocol,
    host: Seq<char>,
    port: u16,
    params: Map<Seq<char>, Seq<char>>,
    name: Seq<char>,
    uri: Seq<char>,
) -> NodeView {
    NodeView {
        protocol,
        host,
        port,
        params,
        raw_name: name,
        display_name: name,
        original_uri: uri,
        ping_ok: false,
        ping_ms: None,
        tunnel_ok: false,
        tunnel_ms: None,
    }
}

impl Node {
    /// A node that no probe has seen, displayed under the name it came with.
    pub fn unprobed(
        protocol: Protocol,
        host: String,
        port: u16,
        params: StrMap<String>,
        name: String,
        uri: String,
    ) -> (node: Node)
        ensures
            node@ == unprobed_node(protocol, host@, port, params@, name@, uri@),
    {
        Node {
            protocol,
            host,
            port,
            params,
            raw_name: name.clone(),
            display_name: name,
            original_uri: uri,
            ping_ok: false,
            ping_ms: None,
            tunnel_ok: false,
            tunnel_ms: None,
        }
    }
}

impl Duplicate for Node {
    fn duplicate(&self) -> (copy: Self) {
        Node {
            protocol: self.protocol,
            host: self.host.clone(),
            port: self.port,
            params: self.params.duplicate(),
            raw_name: self.raw_name.clone(),
            display_name: self.display_name.clone(),
            original_uri: self.original_uri.clone(),
            ping_ok: self.ping_ok,
            ping_ms: self.ping_ms,
            tunnel_ok: self.tunnel_ok,
            tunnel_ms: self.tunnel_ms,
        }
    }
}

impl Clone for Node {
    fn clone(&self) -> (copy: Self)
        ensures
            copy@ == self@,
    {
        self.duplicate()
    }
}

} // verus!
