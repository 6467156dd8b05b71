//! The settings of sing-box that open the tunnel of a node: which parts they
//! have, and what they say of the node.

use vstd::prelude::*;
use vstd::string::*;

use crate::json;
use crate::json::JsonValue;
use crate::laws::documents;
use crate::laws::names;
use crate::node::{NodeView, Protocol};
use crate::strmap;
use crate::text;
use crate::tunnel;

verus! {

/// What an object that was made of fields holds under any key.
proof fn lemma_members(fields: Map<Seq<char>, JsonValue>)
    requires
        fields.dom().finite(),
    ensures
        forall|key: Seq<char>| #[trigger]
            json::member(json::object_with(fields), key) == strmap::value_of(fields, key),
{
    assert forall|key: Seq<char>| #[trigger]
        json::member(json::object_with(fields), key) == strmap::value_of(fields, key) by {
        documents::law_object_holds_fields(fields, key);
    }
}

/// A parameter of a node as a part of a document.
pub open spec fn param_part(node: NodeView, key: Seq<char>) -> Option<JsonValue> {
    if node.params.contains_key(key) {
        Some(JsonValue::Text(node.params[key]))
    } else {
        None
    }
}

/// The entry under a key of an outbound.
pub open spec fn part(outbound: JsonValue, key: Seq<char>) -> Option<JsonValue> {
    json::member(outbound, key)
}

// ---------------------------------------------------------------------------
// Outbounds
// ---------------------------------------------------------------------------

/// The fields of an outbound are known under every key.
proof fn lemma_outbound_parts(node: NodeView, interface: Seq<char>, outbound: JsonValue)
    requires
        tunnel::outbound_of(node, interface) == Ok::<JsonValue, Seq<char>>(outbound),
    ensures
        tunnel::outbound_fields(node, interface) is Ok,
        forall|key: Seq<char>| #[trigger]
            json::member(outbound, key) == strmap::value_of(
                tunnel::outbound_fields(node, interface)->Ok_0,
                key,
            ),
{
    lemma_members(tunnel::outbound_fields(node, interface)->Ok_0);
}

/// The outbound of a node is called `proxy`, goes to the node's host and port,
/// and is bound to the interface where one is given, and only then.
pub proof fn law_outbound_server(node: NodeView, interface: Seq<char>, outbound: JsonValue)
    requires
        tunnel::outbound_of(node, interface) == Ok::<JsonValue, Seq<char>>(outbound),
    ensures
        part(outbound, "tag"@) == Some(JsonValue::Text("proxy"@)),
        part(outbound, "server"@) == Some(JsonValue::Text(node.host)),
        part(outbound, "server_port"@) == Some(
            JsonValue::Number(text::decimal(node.port as nat), Some(node.port as u64)),
        ),
        part(outbound, "bind_interface"@) == if interface == Seq::<char>::empty() {
            None
        } else {
            Some(JsonValue::Text(interface))
        },
{
    lemma_outbound_parts(node, interface, outbound);
    names::lemma_outbound_keys();
    if interface.len() == 0 {
        assert(interface =~= Seq::empty());
    }
}

/// The outbound of a node has the type of the node's protocol and the node's
/// credentials: the identity of vmess and vless, with the cipher of vmess or
/// `auto`, the password of trojan and hysteria2, the method and the password of
/// Shadowsocks, the UUID and the password of tuic.
pub proof fn law_outbound_credentials(node: NodeView, interface: Seq<char>, outbound: JsonValue)
    requires
        tunnel::outbound_of(node, interface) == Ok::<JsonValue, Seq<char>>(outbound),
    ensures
        part(outbound, "type"@) == Some(
            JsonValue::Text(
                match node.protocol {
                    Protocol::Vmess => "vmess"@,
                    Protocol::Vless => "vless"@,
                    Protocol::Trojan => "trojan"@,
                    Protocol::Hysteria2 => "hysteria2"@,
                    Protocol::Tuic => "tuic"@,
                    _ => "shadowsocks"@,
                },
            ),
        ),
        part(outbound, "uuid"@) == match node.protocol {
            Protocol::Vmess | Protocol::Vless => param_part(node, "id"@),
            Protocol::Tuic => param_part(node, "uuid"@),
            _ => None,
        },
        part(outbound, "password"@) == match node.protocol {
            Protocol::Vmess | Protocol::Vless => None,
            _ => param_part(node, "password"@),
        },
        part(outbound, "method"@) == match node.protocol {
            Protocol::Shadowsocks => param_part(node, "method"@),
            _ => None,
        },
        part(outbound, "security"@) == match node.protocol {
            Protocol::Vmess => if node.params.contains_key("scy"@) {
                param_part(node, "scy"@)
            } else {
                Some(JsonValue::Text("auto"@))
            },
            _ => None,
        },
        node.protocol is Vmess || node.protocol is Vless || node.protocol is Tuic ==> part(
            outbound,
            "uuid"@,
        ) is Some,
        !(node.protocol is Vmess || node.protocol is Vless) ==> part(outbound, "password"@) is Some,
        node.protocol is Shadowsocks ==> part(outbound, "method"@) is Some,
{
    lemma_outbound_parts(node, interface, outbound);
    names::lemma_outbound_keys();
}

/// The outbound of a node has what the node's protocol adds, where the node has
/// it: the alternative identity of vmess, as a number, the flow of vless, the
/// obfuscation of hysteria2, the congestion control and the UDP relay mode of
/// tuic.
pub proof fn law_outbound_options(
    node: NodeView,
    interface: Seq<char>,
    outbound: JsonValue,
    number: u64,
)
    requires
        tunnel::outbound_of(node, interface) == Ok::<JsonValue, Seq<char>>(outbound),
    ensures
        part(outbound, "flow"@) == match node.protocol {
            Protocol::Vless => param_part(node, "flow"@),
            _ => None,
        },
        part(outbound, "congestion_control"@) == match node.protocol {
            Protocol::Tuic => param_part(node, "congestion_control"@),
            _ => None,
        },
        part(outbound, "udp_relay_mode"@) == match node.protocol {
            Protocol::Tuic => param_part(node, "udp_relay_mode"@),
            _ => None,
        },
        part(outbound, "obfs"@) is Some <==> node.protocol is Hysteria2
            && node.params.contains_key("obfs"@),
        part(outbound, "obfs"@) matches Some(obfs) ==> json::member(obfs, "type"@) == param_part(
            node,
            "obfs"@,
        ) && json::member(obfs, "password"@) == param_part(node, "obfs-password"@),
        !(node.protocol is Vmess) || !node.params.contains_key("aid"@) ==> part(
            outbound,
            "alter_id"@,
        ) is None,
        node.protocol is Vmess && param_part(node, "aid"@) == Some(
            JsonValue::Text(text::decimal(number as nat)),
        ) ==> part(outbound, "alter_id"@) == Some(
            JsonValue::Number(text::decimal(number as nat), Some(number)),
        ),
{
    lemma_outbound_parts(node, interface, outbound);
    names::lemma_outbound_keys();
    names::lemma_section_keys();
    text::law_decimal_round_trip(number as nat, u64::MAX as nat);
    if let Some(obfs) = strmap::value_of(node.params, "obfs"@) {
        lemma_members(
            json::with_text(
                tunnel::typed(obfs),
                "password"@,
                strmap::value_of(node.params, "obfs-password"@),
            ),
        );
    }
}

/// An outbound is refused just where the node is one of ShadowsocksR, or one of
/// Shadowsocks with a plugin, or lacks a credential of its protocol, or where its
/// network is none that is supported.
pub proof fn law_outbound_is_built(node: NodeView, interface: Seq<char>)
    ensures
        tunnel::outbound_of(node, interface) is Ok <==> (match node.protocol {
            Protocol::Vmess | Protocol::Vless => node.params.contains_key("id"@),
            Protocol::Trojan | Protocol::Hysteria2 => node.params.contains_key("password"@),
            Protocol::Shadowsocks => !node.params.contains_key("plugin"@)
                && node.params.contains_key("method"@) && node.params.contains_key("password"@),
            Protocol::ShadowsocksR => false,
            Protocol::Tuic => node.params.contains_key("uuid"@) && node.params.contains_key(
                "password"@,
            ),
        }) && (network(node) == "tcp"@ || network(node) == "raw"@ || network(node) == "ws"@
            || network(node) == "grpc"@ || network(node) == "http"@ || network(node) == "h2"@
            || network(node) == "httpupgrade"@ || network(node) == "quic"@),
{
}

// ---------------------------------------------------------------------------
// Transports
// ---------------------------------------------------------------------------

/// The network of a node: its parameter `type`, or else `net`, or else `tcp`.
pub open spec fn network(node: NodeView) -> Seq<char> {
    if node.params.contains_key("type"@) {
        node.params["type"@]
    } else if node.params.contains_key("net"@) {
        node.params["net"@]
    } else {
        "tcp"@
    }
}

/// Whether a text is another one without the slashes that it starts with.
pub open spec fn is_without_slashes(found: Seq<char>, said: Seq<char>) -> bool {
    &&& found.len() <= said.len()
    &&& found == said.skip(said.len() - found.len())
    &&& forall|j: int| 0 <= j < said.len() - found.len() ==> #[trigger] said[j] == '/'
    &&& found.len() > 0 ==> found[0] != '/'
}

/// A text without the slashes that it starts with.
proof fn lemma_without_slashes(said: Seq<char>)
    ensures
        is_without_slashes(tunnel::without_slashes(said), said),
    decreases said.len(),
{
    if said.len() > 0 && said[0] == '/' {
        let rest = said.skip(1);
        let found = tunnel::without_slashes(rest);
        lemma_without_slashes(rest);
        assert(rest.skip(rest.len() - found.len()) =~= said.skip(said.len() - found.len()));
        assert forall|j: int| 0 <= j < said.len() - found.len() implies #[trigger] said[j]
            == '/' by {
            if j > 0 {
                assert(rest[j - 1] == said[j]);
            }
        }
    } else {
        assert(said.skip(0) =~= said);
    }
}

/// The outbound of a node has a transport just where its network is another than
/// `tcp` and `raw`.
pub proof fn law_transport_is_there(node: NodeView, interface: Seq<char>, outbound: JsonValue)
    requires
        tunnel::outbound_of(node, interface) == Ok::<JsonValue, Seq<char>>(outbound),
    ensures
        part(outbound, "transport"@) is None <==> network(node) == "tcp"@ || network(node)
            == "raw"@,
{
    lemma_outbound_parts(node, interface, outbound);
    names::lemma_outbound_keys();
    names::lemma_networks();
}

/// The transport of a WebSocket node has the type `ws`, the node's path, and the
/// node's host for the header `Host`, each where the node has it, and nothing
/// else.
pub proof fn law_ws_transport(
    node: NodeView,
    interface: Seq<char>,
    outbound: JsonValue,
    key: Seq<char>,
)
    requires
        tunnel::outbound_of(node, interface) == Ok::<JsonValue, Seq<char>>(outbound),
        network(node) == "ws"@,
    ensures
        part(outbound, "transport"@) matches Some(transport) && json::member(transport, "type"@)
            == Some(JsonValue::Text("ws"@)) && json::member(transport, "path"@) == param_part(
            node,
            "path"@,
        ) && (json::member(transport, "headers"@) is Some <==> node.params.contains_key("host"@))
            && (json::member(transport, "headers"@) matches Some(headers) ==> json::member(
            headers,
            "Host"@,
        ) == param_part(node, "host"@)) && (json::member(transport, key) is Some ==> key == "type"@
            || key == "path"@ || key == "headers"@),
{
    lemma_outbound_parts(node, interface, outbound);
    names::lemma_outbound_keys();
    names::lemma_section_keys();
    names::lemma_networks();
    lemma_members(tunnel::transport_fields(node)->Ok_0->0);
    if let Some(host) = strmap::value_of(node.params, "host"@) {
        lemma_members(
            Map::<Seq<char>, JsonValue>::empty().insert("Host"@, JsonValue::Text(host)),
        );
    }
}

/// The transport of a gRPC node has the type `grpc` and for its service name that
/// of the node, or else its path, without slashes at the start, and nothing else.
pub proof fn law_grpc_transport(
    node: NodeView,
    interface: Seq<char>,
    outbound: JsonValue,
    key: Seq<char>,
)
    requires
        tunnel::outbound_of(node, interface) == Ok::<JsonValue, Seq<char>>(outbound),
        network(node) == "grpc"@,
    ensures
        part(outbound, "transport"@) matches Some(transport) && json::member(transport, "type"@)
            == Some(JsonValue::Text("grpc"@)) && (json::member(transport, key) is Some ==> key
            == "type"@ || key == "service_name"@) && {
            let said = if node.params.contains_key("serviceName"@) {
                param_part(node, "serviceName"@)
            } else {
                param_part(node, "path"@)
            };
            match said {
                Some(JsonValue::Text(said)) => json::member(transport, "service_name"@) matches Some(
                    JsonValue::Text(found),
                ) && is_without_slashes(found, said),
                _ => json::member(transport, "service_name"@) is None,
            }
        },
{
    lemma_outbound_parts(node, interface, outbound);
    names::lemma_outbound_keys();
    names::lemma_section_keys();
    names::lemma_networks();
    lemma_members(tunnel::transport_fields(node)->Ok_0->0);
    if let Some(said) = strmap::value_of(node.params, "serviceName"@) {
        lemma_without_slashes(said);
    } else if let Some(said) = strmap::value_of(node.params, "path"@) {
        lemma_without_slashes(said);
    }
}

/// Whether a part of a document is the list of the pieces of a text between
/// commas, without white space around them.
pub open spec fn is_list_of_pieces(found: Option<JsonValue>, said: Seq<char>) -> bool {
    found matches Some(JsonValue::Array(list)) && list.len() == text::pieces(said, ',').len()
        && forall|i: int|
        0 <= i < list.len() ==> #[trigger] list[i] == JsonValue::Text(
            text::trimmed(text::pieces(said, ',')[i]),
        )
}

/// The transport of an HTTP node has the type `http`, the node's path, and for
/// its hosts those of the node, which has commas between them, each where the
/// node has it, and nothing else.
pub proof fn law_http_transport(
    node: NodeView,
    interface: Seq<char>,
    outbound: JsonValue,
    key: Seq<char>,
)
    requires
        tunnel::outbound_of(node, interface) == Ok::<JsonValue, Seq<char>>(outbound),
        network(node) == "http"@ || network(node) == "h2"@,
    ensures
        part(outbound, "transport"@) matches Some(transport) && json::member(transport, "type"@)
            == Some(JsonValue::Text("http"@)) && json::member(transport, "path"@) == param_part(
            node,
            "path"@,
        ) && (match param_part(node, "host"@) {
            Some(JsonValue::Text(said)) => is_list_of_pieces(
                json::member(transport, "host"@),
                said,
            ),
            _ => json::member(transport, "host"@) is None,
        }) && (json::member(transport, key) is Some ==> key == "type"@ || key == "path"@ || key
            == "host"@),
{
    lemma_outbound_parts(node, interface, outbound);
    names::lemma_outbound_keys();
    names::lemma_section_keys();
    names::lemma_networks();
    lemma_members(tunnel::transport_fields(node)->Ok_0->0);
}

/// The transport of an HTTP upgrade node has the type `httpupgrade`, and the
/// node's host and path, each where the node has it, and nothing else; that of a
/// QUIC node has its type alone.
pub proof fn law_other_transports(
    node: NodeView,
    interface: Seq<char>,
    outbound: JsonValue,
    key: Seq<char>,
)
    requires
        tunnel::outbound_of(node, interface) == Ok::<JsonValue, Seq<char>>(outbound),
    ensures
        network(node) == "httpupgrade"@ ==> (part(outbound, "transport"@) matches Some(transport)
            && json::member(transport, "type"@) == Some(JsonValue::Text("httpupgrade"@))
            && json::member(transport, "host"@) == param_part(node, "host"@) && json::member(
            transport,
            "path"@,
        ) == param_part(node, "path"@) && (json::member(transport, key) is Some ==> key == "type"@
            || key == "host"@ || key == "path"@)),
        network(node) == "quic"@ ==> (part(outbound, "transport"@) matches Some(transport)
            && json::member(transport, "type"@) == Some(JsonValue::Text("quic"@)) && (json::member(
            transport,
            key,
        ) is Some ==> key == "type"@)),
{
    lemma_outbound_parts(node, interface, outbound);
    names::lemma_outbound_keys();
    names::lemma_section_keys();
    names::lemma_networks();
    if let Ok(Some(fields)) = tunnel::transport_fields(node) {
        if network(node) == "httpupgrade"@ || network(node) == "quic"@ {
            lemma_members(fields);
        }
    }
}

// ---------------------------------------------------------------------------
// TLS
// ---------------------------------------------------------------------------

/// Whether a node asks for TLS: by its security, `tls` or `reality`, by a server
/// name or ALPN, or by its protocol, hysteria2 or tuic.
pub open spec fn asks_for_tls(node: NodeView) -> bool {
    ||| param_part(node, "security"@) == Some(JsonValue::Text("tls"@))
    ||| param_part(node, "security"@) == Some(JsonValue::Text("reality"@))
    ||| node.params.contains_key("sni"@)
    ||| node.params.contains_key("alpn"@)
    ||| node.protocol is Hysteria2
    ||| node.protocol is Tuic
}

/// The outbound of a node has TLS settings just where the node asks for TLS. TLS
/// is then enabled, without a check of the certificate, for the node's server
/// name, or else its host.
pub proof fn law_tls(node: NodeView, interface: Seq<char>, outbound: JsonValue)
    requires
        tunnel::outbound_of(node, interface) == Ok::<JsonValue, Seq<char>>(outbound),
    ensures
        part(outbound, "tls"@) is Some <==> asks_for_tls(node),
        part(outbound, "tls"@) matches Some(tls) ==> json::member(tls, "enabled"@) == Some(
            JsonValue::Bool(true),
        ) && json::member(tls, "insecure"@) == Some(JsonValue::Bool(true)) && json::member(
            tls,
            "server_name"@,
        ) == if node.params.contains_key("sni"@) {
            param_part(node, "sni"@)
        } else {
            Some(JsonValue::Text(node.host))
        },
{
    lemma_outbound_parts(node, interface, outbound);
    names::lemma_outbound_keys();
    names::lemma_section_keys();
    reveal_strlit("none");
    reveal_strlit("tls");
    reveal_strlit("reality");
    assert("none"@.len() != "tls"@.len());
    assert("none"@.len() != "reality"@.len());
    lemma_members(tunnel::tls_fields(node));
}

/// Whether texts are the pieces of a text between commas, without white space
/// around them, that are not empty, in their order.
pub open spec fn named_pieces(pieces: Seq<Seq<char>>) -> Seq<Seq<char>> {
    pieces.map_values(|piece: Seq<char>| text::trimmed(piece)).filter(
        |piece: Seq<char>| piece.len() > 0,
    )
}

/// The pieces that are not empty.
proof fn lemma_named_parts(pieces: Seq<Seq<char>>)
    ensures
        tunnel::named_parts(pieces) == pieces.filter(|piece: Seq<char>| piece.len() > 0),
    decreases pieces.len(),
{
    reveal(Seq::filter);
    if pieces.len() > 0 {
        lemma_named_parts(pieces.drop_last());
    }
}

/// The TLS settings of a node have for ALPN those of the node, which has commas
/// between them, where one of them is not empty, and none otherwise.
pub proof fn law_tls_alpn(node: NodeView, interface: Seq<char>, outbound: JsonValue)
    requires
        tunnel::outbound_of(node, interface) == Ok::<JsonValue, Seq<char>>(outbound),
    ensures
        part(outbound, "tls"@) matches Some(tls) ==> json::member(tls, "alpn"@) == match param_part(
            node,
            "alpn"@,
        ) {
            Some(JsonValue::Text(said)) => if named_pieces(text::pieces(said, ',')).len() > 0 {
                Some(json::text_list(named_pieces(text::pieces(said, ','))))
            } else {
                None
            },
            _ => None,
        },
{
    lemma_outbound_parts(node, interface, outbound);
    names::lemma_outbound_keys();
    names::lemma_section_keys();
    lemma_members(tunnel::tls_fields(node));
    if let Some(said) = strmap::value_of(node.params, "alpn"@) {
        let pieces = text::pieces(said, ',');
        lemma_named_parts(pieces.map_values(|piece: Seq<char>| text::trimmed(piece)));
    }
}

/// The TLS settings of a node whose security is `reality` say so, with the node's
/// public key and short identity, and imitate the node's fingerprint where it has
/// one; those of another node do neither.
pub proof fn law_tls_reality(node: NodeView, interface: Seq<char>, outbound: JsonValue)
    requires
        tunnel::outbound_of(node, interface) == Ok::<JsonValue, Seq<char>>(outbound),
    ensures
        part(outbound, "tls"@) matches Some(tls) ==> {
            let reality = param_part(node, "security"@) == Some(JsonValue::Text("reality"@));
            &&& json::member(tls, "reality"@) is Some <==> reality
            &&& json::member(tls, "reality"@) matches Some(settings) ==> json::member(
                settings,
                "enabled"@,
            ) == Some(JsonValue::Bool(true)) && json::member(settings, "public_key"@) == param_part(
                node,
                "pbk"@,
            ) && json::member(settings, "short_id"@) == param_part(node, "sid"@)
            &&& json::member(tls, "utls"@) is Some <==> reality && node.params.contains_key("fp"@)
            &&& json::member(tls, "utls"@) matches Some(settings) ==> json::member(
                settings,
                "enabled"@,
            ) == Some(JsonValue::Bool(true)) && json::member(settings, "fingerprint"@)
                == param_part(node, "fp"@)
        },
{
    lemma_outbound_parts(node, interface, outbound);
    names::lemma_outbound_keys();
    names::lemma_section_keys();
    reveal_strlit("none");
    reveal_strlit("reality");
    assert("none"@.len() != "reality"@.len());
    lemma_members(tunnel::tls_fields(node));
    lemma_members(tunnel::reality_fields(node));
    if let Some(fingerprint) = strmap::value_of(node.params, "fp"@) {
        lemma_members(tunnel::utls_fields(fingerprint));
    }
}

// ---------------------------------------------------------------------------
// The settings as a whole
// ---------------------------------------------------------------------------

/// The settings of sing-box take connections by SOCKS at the local port, send
/// them all through the node's outbound, and write no log.
pub proof fn law_settings(
    node: NodeView,
    listen_port: u16,
    interface: Seq<char>,
    settings: JsonValue,
)
    requires
        tunnel::sing_box_config(node, listen_port, interface) == Ok::<JsonValue, Seq<char>>(
            settings,
        ),
    ensures
        json::member(settings, "outbounds"@) matches Some(JsonValue::Array(list)) && list.len() == 1
            && tunnel::outbound_of(node, interface) == Ok::<JsonValue, Seq<char>>(list[0])
            && json::member(list[0], "tag"@) == Some(JsonValue::Text("proxy"@)),
        json::member(settings, "inbounds"@) matches Some(JsonValue::Array(list)) && list.len() == 1
            && json::member(list[0], "type"@) == Some(JsonValue::Text("socks"@)) && json::member(
            list[0],
            "listen"@,
        ) == Some(JsonValue::Text("127.0.0.1"@)) && json::member(list[0], "listen_port"@) == Some(
            JsonValue::Number(text::decimal(listen_port as nat), Some(listen_port as u64)),
        ),
        json::member(settings, "route"@) matches Some(route) && json::member(route, "final"@)
            == Some(JsonValue::Text("proxy"@)),
        json::member(settings, "log"@) matches Some(log) && json::member(log, "disabled"@) == Some(
            JsonValue::Bool(true),
        ),
{
    let outbound = tunnel::outbound_of(node, interface)->Ok_0;
    let none = Map::<Seq<char>, JsonValue>::empty();
    names::lemma_settings_keys();
    law_outbound_server(node, interface, outbound);
    lemma_members(tunnel::sing_box_fields(outbound, listen_port));
    lemma_members(tunnel::inbound_fields(listen_port));
    lemma_members(none.insert("final"@, JsonValue::Text("proxy"@)));
    lemma_members(none.insert("disabled"@, JsonValue::Bool(true)));
}

/// Whether an outbound for a protocol can have a field.
pub open spec fn is_field(protocol: Protocol, key: Seq<char>) -> bool {
    ||| key == "tag"@ || key == "type"@ || key == "server"@ || key == "server_port"@ || key
        == "bind_interface"@ || key == "transport"@ || key == "tls"@
    ||| match protocol {
        Protocol::Vmess => key == "uuid"@ || key == "security"@ || key == "alter_id"@,
        Protocol::Vless => key == "uuid"@ || key == "flow"@,
        Protocol::Shadowsocks => key == "method"@ || key == "password"@,
        Protocol::Hysteria2 => key == "password"@ || key == "obfs"@,
        Protocol::Tuic => key == "uuid"@ || key == "password"@ || key == "congestion_control"@
            || key == "udp_relay_mode"@,
        _ => key == "password"@,
    }
}

/// An outbound has no field but those of its protocol, and a count of other
/// identities only where it is a number.
pub proof fn law_outbound_has_no_more(
    node: NodeView,
    interface: Seq<char>,
    outbound: JsonValue,
    key: Seq<char>,
)
    requires
        tunnel::outbound_of(node, interface) == Ok::<JsonValue, Seq<char>>(outbound),
    ensures
        part(outbound, key) is Some ==> is_field(node.protocol, key),
        node.protocol is Vmess && node.params.contains_key("aid"@) && text::unsigned_value(
            node.params["aid"@],
            u64::MAX as nat,
        ) is None ==> part(outbound, "alter_id"@) is None,
{
    lemma_outbound_parts(node, interface, outbound);
    names::lemma_outbound_keys();
}

/// The TLS section has no field but those that are named here, nor have the
/// settings in it.
pub proof fn law_tls_has_no_more(
    node: NodeView,
    interface: Seq<char>,
    outbound: JsonValue,
    key: Seq<char>,
)
    requires
        tunnel::outbound_of(node, interface) == Ok::<JsonValue, Seq<char>>(outbound),
    ensures
        part(outbound, "tls"@) matches Some(tls) ==> {
            &&& json::member(tls, key) is Some ==> key == "enabled"@ || key == "server_name"@ || key
                == "insecure"@ || key == "alpn"@ || key == "reality"@ || key == "utls"@
            &&& json::member(tls, "reality"@) matches Some(settings) ==> json::member(
                settings,
                key,
            ) is Some ==> key == "enabled"@ || key == "public_key"@ || key == "short_id"@
            &&& json::member(tls, "utls"@) matches Some(settings) ==> json::member(
                settings,
                key,
            ) is Some ==> key == "enabled"@ || key == "fingerprint"@
        },
{
    lemma_outbound_parts(node, interface, outbound);
    names::lemma_outbound_keys();
    names::lemma_section_keys();
    lemma_members(tunnel::tls_fields(node));
    lemma_members(tunnel::reality_fields(node));
    if let Some(fingerprint) = strmap::value_of(node.params, "fp"@) {
        lemma_members(tunnel::utls_fields(fingerprint));
    }
}

/// The settings of a probe have a log, one inbound, one outbound and a route, and
/// nothing more; they are written as a document.
pub proof fn law_settings_have_no_more(
    node: NodeView,
    listen_port: u16,
    interface: Seq<char>,
    settings: JsonValue,
    key: Seq<char>,
)
    requires
        tunnel::sing_box_config(node, listen_port, interface) == Ok::<JsonValue, Seq<char>>(
            settings,
        ),
    ensures
        json::member(settings, key) is Some ==> key == "log"@ || key == "inbounds"@ || key
            == "outbounds"@ || key == "route"@,
        json::member(settings, "inbounds"@) matches Some(JsonValue::Array(list)) && json::member(
            list[0],
            "tag"@,
        ) == Some(JsonValue::Text("local-socks"@)) && (json::member(list[0], key) is Some ==> key
            == "type"@ || key == "tag"@ || key == "listen"@ || key == "listen_port"@),
        json::member(settings, "log"@) matches Some(log) && (json::member(log, key) is Some ==> key
            == "disabled"@),
        json::member(settings, "route"@) matches Some(route) && (json::member(route, key) is Some
            ==> key == "final"@),
        tunnel::sing_box_text(node, listen_port, interface) == Ok::<Seq<char>, Seq<char>>(
            json::document_text(settings, 0),
        ),
{
    let outbound = tunnel::outbound_of(node, interface)->Ok_0;
    let none = Map::<Seq<char>, JsonValue>::empty();
    names::lemma_settings_keys();
    lemma_members(tunnel::sing_box_fields(outbound, listen_port));
    lemma_members(tunnel::inbound_fields(listen_port));
    lemma_members(none.insert("final"@, JsonValue::Text("proxy"@)));
    lemma_members(none.insert("disabled"@, JsonValue::Bool(true)));
}

/// A probe is refused for what the node lacks, for what cannot be probed, or for
/// its transport, whatever it is wanted for.
pub proof fn law_probe_refused(
    node: NodeView,
    listen_port: u16,
    interface: Seq<char>,
    message: Seq<char>,
)
    requires
        tunnel::outbound_of(node, interface) == Err::<JsonValue, Seq<char>>(message),
    ensures
        tunnel::sing_box_config(node, listen_port, interface) == Err::<JsonValue, Seq<char>>(
            message,
        ),
        tunnel::sing_box_text(node, listen_port, interface) == Err::<Seq<char>, Seq<char>>(message),
        ({
            let lacks = |key: Seq<char>| !node.params.contains_key(key);
            let missing = |key: Seq<char>| message == "node missing required parameter "@ + key;
            match node.protocol {
                Protocol::Vmess | Protocol::Vless => lacks("id"@) ==> missing("id"@),
                Protocol::Trojan | Protocol::Hysteria2 => lacks("password"@) ==> missing(
                    "password"@,
                ),
                Protocol::Tuic => {
                    &&& lacks("uuid"@) ==> missing("uuid"@)
                    &&& !lacks("uuid"@) && lacks("password"@) ==> missing("password"@)
                },
                Protocol::Shadowsocks => {
                    &&& !lacks("plugin"@) ==> message
                        == "shadowsocks plugins are not supported by tunnel probe"@
                    &&& lacks("plugin"@) && lacks("method"@) ==> missing("method"@)
                    &&& lacks("plugin"@) && !lacks("method"@) && lacks("password"@) ==> missing(
                        "password"@,
                    )
                },
                Protocol::ShadowsocksR => message
                    == "shadowsocksr is not supported by sing-box tunnel probe"@,
            }
        }),
        tunnel::protocol_fields(node, tunnel::outbound_base(node, interface)) is Ok ==> message
            == "unsupported transport type "@ + network(node),
{
}

} // verus!
