//! Probing a node's tunnel: the settings of the sing-box that opens it, and
//! the SOCKS5 exchange that goes through it.

use vstd::prelude::*;
use vstd::string::*;

use crate::failure;
use crate::failure::Failure;
use crate::items;
use crate::json;
use crate::json::{Json, JsonValue};
use crate::node::{Node, NodeView, Protocol};
use crate::strmap;
use crate::strmap::StrMap;
use crate::text;

verus! {

// ---------------------------------------------------------------------------
// Parameters
// ---------------------------------------------------------------------------

/// A parameter that a node must have, as a document.
pub open spec fn required(node: NodeView, key: Seq<char>) -> Result<JsonValue, Seq<char>> {
    match strmap::value_of(node.params, key) {
        Some(value) => Ok(JsonValue::Text(value)),
        None => Err("node missing required parameter "@ + key),
    }
}

/// A parameter that a node must have, as a document.
pub fn string_param(node: &Node, key: &str) -> (result: Result<Json, Failure>)
    ensures
        failure::outcome(result) == required(node@, key@),
{
    match strmap::get_text(&node.params, key) {
        Some(value) => Ok(Json::Text(value)),
        None => {
            let mut message = "node missing required parameter ".to_string();
            message.append(key);
            Err(Failure::new(message))
        },
    }
}

/// The view of the fields of an object.
pub open spec fn fields_view(result: Result<StrMap<Json>, Failure>) -> Result<
    Map<Seq<char>, JsonValue>,
    Seq<char>,
> {
    match result {
        Ok(fields) => Ok(fields@),
        Err(failure) => Err(failure@),
    }
}

/// `fields` with a parameter that a node must have.
pub open spec fn with_required(
    fields: Result<Map<Seq<char>, JsonValue>, Seq<char>>,
    key: Seq<char>,
    node: NodeView,
    param: Seq<char>,
) -> Result<Map<Seq<char>, JsonValue>, Seq<char>> {
    match fields {
        Err(message) => Err(message),
        Ok(fields) => match required(node, param) {
            Err(message) => Err(message),
            Ok(value) => Ok(fields.insert(key, value)),
        },
    }
}

/// Adds a parameter that a node must have.
fn put_required(
    fields: Result<StrMap<Json>, Failure>,
    key: &str,
    node: &Node,
    param: &str,
) -> (result: Result<StrMap<Json>, Failure>)
    ensures
        fields_view(result) == with_required(fields_view(fields), key@, node@, param@),
{
    match fields {
        Err(failure) => Err(failure),
        Ok(fields) => match string_param(node, param) {
            Err(failure) => Err(failure),
            Ok(value) => {
                let mut fields = fields;
                fields.insert(key.to_string(), value);
                Ok(fields)
            },
        },
    }
}

// ---------------------------------------------------------------------------
// Transport
// ---------------------------------------------------------------------------

/// The network of a node.
pub open spec fn network_of(node: NodeView) -> Seq<char> {
    match strmap::value_of(node.params, "type"@) {
        Some(network) => network,
        None => match strmap::value_of(node.params, "net"@) {
            Some(network) => network,
            None => "tcp"@,
        },
    }
}

/// An object with a type alone.
pub open spec fn typed(name: Seq<char>) -> Map<Seq<char>, JsonValue> {
    Map::<Seq<char>, JsonValue>::empty().insert("type"@, JsonValue::Text(name))
}

/// `text` without the slashes that it starts with.
pub open spec fn without_slashes(text: Seq<char>) -> Seq<char>
    decreases text.len(),
{
    if text.len() > 0 && text[0] == '/' {
        without_slashes(text.skip(1))
    } else {
        text
    }
}

/// The parts of a text between commas, without the white space around them.
pub open spec fn comma_parts(text: Seq<char>) -> Seq<Seq<char>> {
    text::pieces(text, ',').map_values(|part: Seq<char>| text::trimmed(part))
}

/// The parts of a text between commas that are more than white space.
pub open spec fn named_parts(parts: Seq<Seq<char>>) -> Seq<Seq<char>>
    decreases parts.len(),
{
    if parts.len() == 0 {
        Seq::empty()
    } else {
        let earlier = named_parts(parts.drop_last());
        if parts.last().len() == 0 {
            earlier
        } else {
            earlier.push(parts.last())
        }
    }
}

/// The fields of the transport of a node; none where it is plain TCP.
pub open spec fn transport_fields(node: NodeView) -> Result<
    Option<Map<Seq<char>, JsonValue>>,
    Seq<char>,
> {
    let network = network_of(node);
    let path = strmap::value_of(node.params, "path"@);
    let host = strmap::value_of(node.params, "host"@);
    if network == "tcp"@ || network == "raw"@ {
        Ok(None)
    } else if network == "ws"@ {
        Ok(
            Some(
                json::with_value(
                    json::with_text(typed("ws"@), "path"@, path),
                    "headers"@,
                    match host {
                        Some(host) => Some(
                            json::object_with(
                                Map::<Seq<char>, JsonValue>::empty().insert(
                                    "Host"@,
                                    JsonValue::Text(host),
                                ),
                            ),
                        ),
                        None => None,
                    },
                ),
            ),
        )
    } else if network == "grpc"@ {
        let service = match strmap::value_of(node.params, "serviceName"@) {
            Some(service) => Some(service),
            None => path,
        };
        Ok(
            Some(
                json::with_text(
                    typed("grpc"@),
                    "service_name"@,
                    match service {
                        Some(service) => Some(without_slashes(service)),
                        None => None,
                    },
                ),
            ),
        )
    } else if network == "http"@ || network == "h2"@ {
        Ok(
            Some(
                json::with_value(
                    json::with_text(typed("http"@), "path"@, path),
                    "host"@,
                    match host {
                        Some(host) => Some(json::text_list(comma_parts(host))),
                        None => None,
                    },
                ),
            ),
        )
    } else if network == "httpupgrade"@ {
        Ok(
            Some(
                json::with_text(
                    json::with_text(typed("httpupgrade"@), "host"@, host),
                    "path"@,
                    path,
                ),
            ),
        )
    } else if network == "quic"@ {
        Ok(Some(typed("quic"@)))
    } else {
        Err("unsupported transport type "@ + network)
    }
}

/// The transport of a node; none where it is plain TCP.
pub open spec fn transport_of(node: NodeView) -> Result<Option<JsonValue>, Seq<char>> {
    match transport_fields(node) {
        Ok(Some(fields)) => Ok(Some(json::object_with(fields))),
        Ok(None) => Ok(None),
        Err(message) => Err(message),
    }
}

/// The network of a node.
fn network_name(node: &Node) -> (network: String)
    ensures
        network@ == network_of(node@),
{
    match strmap::get_text(&node.params, "type") {
        Some(network) => network,
        None => match strmap::get_text(&node.params, "net") {
            Some(network) => network,
            None => "tcp".to_string(),
        },
    }
}

/// An object with a type alone.
fn typed_object(name: &str) -> (fields: StrMap<Json>)
    ensures
        fields@ == typed(name@),
{
    let mut fields: StrMap<Json> = StrMap::new();
    json::put_text(&mut fields, "type", name);
    fields
}

/// A text without the slashes that it starts with.
fn trim_slashes(value: &str) -> (result: String)
    ensures
        result@ == without_slashes(value@),
{
    let chars = text::chars_of(value);
    let mut from: usize = 0;
    assert(value@.skip(0) =~= value@);
    while from < chars.len() && chars[from] == '/'
        invariant
            from <= chars@.len(),
            chars@ == value@,
            without_slashes(value@) == without_slashes(value@.skip(from as int)),
        decreases chars@.len() - from,
    {
        assert(value@.skip(from as int).skip(1) =~= value@.skip(from + 1));
        from = from + 1;
    }
    let result = text::text_between(&chars, from, chars.len());
    assert(result@ =~= value@.skip(from as int));
    result
}

/// The parts of a text between commas, without the white space around them.
fn split_commas(value: &str) -> (parts: Vec<String>)
    ensures
        items::views(parts@) == comma_parts(value@),
{
    let pieces = text::split(value, ',');
    let mut parts: Vec<String> = Vec::new();
    let mut i: usize = 0;
    while i < pieces.len()
        invariant
            i <= pieces@.len(),
            parts@.len() == i,
            forall|j: int| 0 <= j < i ==> (#[trigger] parts@[j])@ == text::trimmed(pieces@[j]@),
        decreases pieces@.len() - i,
    {
        parts.push(text::trim(pieces[i].as_str()));
        i = i + 1;
    }
    assert(items::views(parts@) =~= items::views(pieces@).map_values(
        |part: Seq<char>| text::trimmed(part),
    ));
    parts
}

/// The parts that are more than white space.
fn keep_named(parts: Vec<String>) -> (named: Vec<String>)
    ensures
        items::views(named@) == named_parts(items::views(parts@)),
{
    let ghost all = items::views(parts@);
    let mut named: Vec<String> = Vec::new();
    let mut i: usize = 0;
    assert(items::views(named@) =~= named_parts(all.take(0)));
    while i < parts.len()
        invariant
            i <= parts@.len(),
            all == items::views(parts@),
            items::views(named@) == named_parts(all.take(i as int)),
        decreases parts@.len() - i,
    {
        let ghost before = named@;
        assert(all.take(i + 1).drop_last() =~= all.take(i as int));
        assert(all.take(i + 1).last() == parts@[i as int]@);
        if !parts[i].as_str().is_empty() {
            named.push(parts[i].clone());
            assert(items::views(named@) =~= items::views(before).push(parts@[i as int]@));
        }
        i = i + 1;
    }
    assert(all.take(i as int) =~= all);
    named
}

/// The view of an optional document.
pub open spec fn optional_view(result: Result<Option<Json>, Failure>) -> Result<
    Option<JsonValue>,
    Seq<char>,
> {
    match result {
        Ok(Some(json)) => Ok(Some(json@)),
        Ok(None) => Ok(None),
        Err(failure) => Err(failure@),
    }
}

/// The transport of a node.
pub fn build_transport(node: &Node) -> (result: Result<Option<Json>, Failure>)
    ensures
        optional_view(result) == transport_of(node@),
{
    let network = network_name(node);
    let name = network.as_str();
    let path = strmap::get_text(&node.params, "path");
    let host = strmap::get_text(&node.params, "host");
    if text::same_text(name, "tcp") || text::same_text(name, "raw") {
        return Ok(None);
    }
    if text::same_text(name, "ws") {
        let mut transport = typed_object("ws");
        json::put_some_text(&mut transport, "path", &path);
        match &host {
            Some(host) => {
                let mut headers: StrMap<Json> = StrMap::new();
                json::put_text(&mut headers, "Host", host.as_str());
                transport.insert("headers".to_string(), json::object_from(headers));
            },
            None => {},
        }
        return Ok(Some(json::object_from(transport)));
    }
    if text::same_text(name, "grpc") {
        let mut transport = typed_object("grpc");
        let service = match strmap::get_text(&node.params, "serviceName") {
            Some(service) => Some(service),
            None => path,
        };
        match service {
            Some(service) => {
                let trimmed = trim_slashes(service.as_str());
                json::put_text(&mut transport, "service_name", trimmed.as_str());
            },
            None => {},
        }
        return Ok(Some(json::object_from(transport)));
    }
    if text::same_text(name, "http") || text::same_text(name, "h2") {
        let mut transport = typed_object("http");
        json::put_some_text(&mut transport, "path", &path);
        match &host {
            Some(host) => {
                let hosts = json::texts_from(split_commas(host.as_str()));
                transport.insert("host".to_string(), hosts);
            },
            None => {},
        }
        return Ok(Some(json::object_from(transport)));
    }
    if text::same_text(name, "httpupgrade") {
        let mut transport = typed_object("httpupgrade");
        json::put_some_text(&mut transport, "host", &host);
        json::put_some_text(&mut transport, "path", &path);
        return Ok(Some(json::object_from(transport)));
    }
    if text::same_text(name, "quic") {
        return Ok(Some(json::object_from(typed_object("quic"))));
    }
    let mut message = "unsupported transport type ".to_string();
    message.append(name);
    Err(Failure::new(message))
}

// ---------------------------------------------------------------------------
// TLS
// ---------------------------------------------------------------------------

/// The security of a node.
pub open spec fn node_security(node: NodeView) -> Seq<char> {
    match strmap::value_of(node.params, "security"@) {
        Some(security) => security,
        None => "none"@,
    }
}

/// Whether a node is reached over TLS: its security says so, or its name or
/// protocols for TLS are given, or its own protocol runs over TLS always.
pub open spec fn uses_tls(node: NodeView) -> bool {
    ||| node_security(node) == "tls"@
    ||| node_security(node) == "reality"@
    ||| node.params.contains_key("sni"@)
    ||| node.params.contains_key("alpn"@)
    ||| node.protocol is Hysteria2
    ||| node.protocol is Tuic
}

/// The fields that every TLS section has, with the protocols that are given.
pub open spec fn plain_tls(node: NodeView) -> Map<Seq<char>, JsonValue> {
    let base = Map::<Seq<char>, JsonValue>::empty().insert(
        "enabled"@,
        JsonValue::Bool(true),
    ).insert(
        "server_name"@,
        JsonValue::Text(
            match strmap::value_of(node.params, "sni"@) {
                Some(name) => name,
                None => node.host,
            },
        ),
    ).insert("insecure"@, JsonValue::Bool(true));
    match strmap::value_of(node.params, "alpn"@) {
        Some(alpn) => {
            let names = named_parts(comma_parts(alpn));
            if names.len() > 0 {
                base.insert("alpn"@, json::text_list(names))
            } else {
                base
            }
        },
        None => base,
    }
}

/// The REALITY section of a node.
pub open spec fn reality_fields(node: NodeView) -> Map<Seq<char>, JsonValue> {
    json::with_text(
        json::with_text(
            Map::<Seq<char>, JsonValue>::empty().insert("enabled"@, JsonValue::Bool(true)),
            "public_key"@,
            strmap::value_of(node.params, "pbk"@),
        ),
        "short_id"@,
        strmap::value_of(node.params, "sid"@),
    )
}

/// The uTLS section with a fingerprint.
pub open spec fn utls_fields(fingerprint: Seq<char>) -> Map<Seq<char>, JsonValue> {
    Map::<Seq<char>, JsonValue>::empty().insert("enabled"@, JsonValue::Bool(true)).insert(
        "fingerprint"@,
        JsonValue::Text(fingerprint),
    )
}

/// The fields of the TLS section of a node.
pub open spec fn tls_fields(node: NodeView) -> Map<Seq<char>, JsonValue> {
    if node_security(node) == "reality"@ {
        json::with_value(
            plain_tls(node).insert("reality"@, json::object_with(reality_fields(node))),
            "utls"@,
            match strmap::value_of(node.params, "fp"@) {
                Some(fingerprint) => Some(json::object_with(utls_fields(fingerprint))),
                None => None,
            },
        )
    } else {
        plain_tls(node)
    }
}

/// The TLS section of a node; none where it is not reached over TLS.
pub open spec fn tls_of(node: NodeView) -> Option<JsonValue> {
    if uses_tls(node) {
        Some(json::object_with(tls_fields(node)))
    } else {
        None
    }
}

/// The fields that every TLS section has.
fn read_plain_tls(node: &Node) -> (tls: StrMap<Json>)
    ensures
        tls@ == plain_tls(node@),
{
    let mut tls: StrMap<Json> = StrMap::new();
    tls.insert("enabled".to_string(), Json::Bool(true));
    match strmap::get_text(&node.params, "sni") {
        Some(name) => json::put_text(&mut tls, "server_name", name.as_str()),
        None => json::put_text(&mut tls, "server_name", node.host.as_str()),
    }
    tls.insert("insecure".to_string(), Json::Bool(true));
    match strmap::get_text(&node.params, "alpn") {
        Some(alpn) => {
            let names = keep_named(split_commas(alpn.as_str()));
            assert(items::views(names@).len() == names@.len());
            if names.len() > 0 {
                tls.insert("alpn".to_string(), json::texts_from(names));
            }
        },
        None => {},
    }
    tls
}

/// The REALITY section of a node.
fn read_reality(node: &Node) -> (reality: StrMap<Json>)
    ensures
        reality@ == reality_fields(node@),
{
    let mut reality: StrMap<Json> = StrMap::new();
    reality.insert("enabled".to_string(), Json::Bool(true));
    json::put_some_text(&mut reality, "public_key", &strmap::get_text(&node.params, "pbk"));
    json::put_some_text(&mut reality, "short_id", &strmap::get_text(&node.params, "sid"));
    reality
}

/// The TLS section of a node.
pub fn build_tls(node: &Node) -> (tls: Option<Json>)
    ensures
        json::document_view(tls) == tls_of(node@),
{
    let security = match strmap::get_text(&node.params, "security") {
        Some(security) => security,
        None => "none".to_string(),
    };
    let always = match node.protocol {
        Protocol::Hysteria2 | Protocol::Tuic => true,
        _ => false,
    };
    let reality = text::same_text(security.as_str(), "reality");
    if !(text::same_text(security.as_str(), "tls") || reality || node.params.contains_key("sni")
        || node.params.contains_key("alpn") || always) {
        return None;
    }
    let mut tls = read_plain_tls(node);
    if reality {
        tls.insert("reality".to_string(), json::object_from(read_reality(node)));
        match strmap::get_text(&node.params, "fp") {
            Some(fingerprint) => {
                let mut utls: StrMap<Json> = StrMap::new();
                utls.insert("enabled".to_string(), Json::Bool(true));
                json::put_text(&mut utls, "fingerprint", fingerprint.as_str());
                tls.insert("utls".to_string(), json::object_from(utls));
            },
            None => {},
        }
    }
    Some(json::object_from(tls))
}

// ---------------------------------------------------------------------------
// The outbound
// ---------------------------------------------------------------------------

/// The fields that every outbound has: its server, and the interface that it
/// is bound to where one is given.
pub open spec fn outbound_base(node: NodeView, interface: Seq<char>) -> Map<Seq<char>, JsonValue> {
    let base = Map::<Seq<char>, JsonValue>::empty().insert(
        "tag"@,
        JsonValue::Text("proxy"@),
    ).insert("server"@, JsonValue::Text(node.host)).insert(
        "server_port"@,
        json::number_value(node.port as u64),
    );
    if interface.len() > 0 {
        base.insert("bind_interface"@, JsonValue::Text(interface))
    } else {
        base
    }
}

/// The obfuscation of a hysteria2 node.
pub open spec fn obfs_of(node: NodeView) -> Option<JsonValue> {
    match strmap::value_of(node.params, "obfs"@) {
        Some(obfs) => Some(
            json::object_with(
                json::with_text(
                    typed(obfs),
                    "password"@,
                    strmap::value_of(node.params, "obfs-password"@),
                ),
            ),
        ),
        None => None,
    }
}

/// The number that a node gives as `aid`.
pub open spec fn alter_id(node: NodeView) -> Option<JsonValue> {
    match strmap::value_of(node.params, "aid"@) {
        Some(aid) => match text::unsigned_value(aid, u64::MAX as nat) {
            Some(number) => Some(json::number_value(number as u64)),
            None => None,
        },
        None => None,
    }
}

/// `fields` and what the protocol of a node adds; a message where the node
/// lacks a parameter, or its protocol or a plugin cannot be probed.
pub open spec fn protocol_fields(node: NodeView, base: Map<Seq<char>, JsonValue>) -> Result<
    Map<Seq<char>, JsonValue>,
    Seq<char>,
> {
    match node.protocol {
        Protocol::Vmess => {
            let named = base.insert("type"@, JsonValue::Text("vmess"@));
            match with_required(Ok(named), "uuid"@, node, "id"@) {
                Err(message) => Err(message),
                Ok(fields) => Ok(
                    json::with_value(
                        fields.insert(
                            "security"@,
                            JsonValue::Text(
                                match strmap::value_of(node.params, "scy"@) {
                                    Some(security) => security,
                                    None => "auto"@,
                                },
                            ),
                        ),
                        "alter_id"@,
                        alter_id(node),
                    ),
                ),
            }
        },
        Protocol::Vless => {
            let named = base.insert("type"@, JsonValue::Text("vless"@));
            match with_required(Ok(named), "uuid"@, node, "id"@) {
                Err(message) => Err(message),
                Ok(fields) => Ok(
                    json::with_text(fields, "flow"@, strmap::value_of(node.params, "flow"@)),
                ),
            }
        },
        Protocol::Trojan => with_required(
            Ok(base.insert("type"@, JsonValue::Text("trojan"@))),
            "password"@,
            node,
            "password"@,
        ),
        Protocol::Shadowsocks => if node.params.contains_key("plugin"@) {
            Err("shadowsocks plugins are not supported by tunnel probe"@)
        } else {
            with_required(
                with_required(
                    Ok(base.insert("type"@, JsonValue::Text("shadowsocks"@))),
                    "method"@,
                    node,
                    "method"@,
                ),
                "password"@,
                node,
                "password"@,
            )
        },
        Protocol::ShadowsocksR => Err("shadowsocksr is not supported by sing-box tunnel probe"@),
        Protocol::Hysteria2 => {
            let named = base.insert("type"@, JsonValue::Text("hysteria2"@));
            match with_required(Ok(named), "password"@, node, "password"@) {
                Err(message) => Err(message),
                Ok(fields) => Ok(json::with_value(fields, "obfs"@, obfs_of(node))),
            }
        },
        Protocol::Tuic => {
            let named = base.insert("type"@, JsonValue::Text("tuic"@));
            match with_required(
                with_required(Ok(named), "uuid"@, node, "uuid"@),
                "password"@,
                node,
                "password"@,
            ) {
                Err(message) => Err(message),
                Ok(fields) => Ok(
                    json::with_text(
                        json::with_text(
                            fields,
                            "congestion_control"@,
                            strmap::value_of(node.params, "congestion_control"@),
                        ),
                        "udp_relay_mode"@,
                        strmap::value_of(node.params, "udp_relay_mode"@),
                    ),
                ),
            }
        },
    }
}

/// The outbound through which a node is probed.
pub open spec fn outbound_fields(node: NodeView, interface: Seq<char>) -> Result<
    Map<Seq<char>, JsonValue>,
    Seq<char>,
> {
    match protocol_fields(node, outbound_base(node, interface)) {
        Err(message) => Err(message),
        Ok(fields) => match transport_of(node) {
            Err(message) => Err(message),
            Ok(transport) => Ok(
                json::with_value(
                    json::with_value(fields, "transport"@, transport),
                    "tls"@,
                    tls_of(node),
                ),
            ),
        },
    }
}

/// The fields that every outbound has.
fn read_outbound_base(node: &Node, interface: &str) -> (fields: StrMap<Json>)
    ensures
        fields@ == outbound_base(node@, interface@),
{
    let mut fields: StrMap<Json> = StrMap::new();
    json::put_text(&mut fields, "tag", "proxy");
    json::put_text(&mut fields, "server", node.host.as_str());
    fields.insert("server_port".to_string(), json::number_from(node.port as u64));
    if !interface.is_empty() {
        json::put_text(&mut fields, "bind_interface", interface);
    }
    fields
}

/// Adds what vmess adds.
fn add_vmess(node: &Node, fields: StrMap<Json>) -> (result: Result<StrMap<Json>, Failure>)
    requires
        node.protocol is Vmess,
    ensures
        fields_view(result) == protocol_fields(node@, fields@),
{
    let mut fields = fields;
    json::put_text(&mut fields, "type", "vmess");
    match put_required(Ok(fields), "uuid", node, "id") {
        Err(failure) => Err(failure),
        Ok(fields) => {
            let mut fields = fields;
            match strmap::get_text(&node.params, "scy") {
                Some(security) => json::put_text(&mut fields, "security", security.as_str()),
                None => json::put_text(&mut fields, "security", "auto"),
            }
            match strmap::get_text(&node.params, "aid") {
                Some(aid) => match text::parse_unsigned(aid.as_str(), u64::MAX) {
                    Some(number) => {
                        fields.insert("alter_id".to_string(), json::number_from(number));
                    },
                    None => {},
                },
                None => {},
            }
            Ok(fields)
        },
    }
}

/// Adds what hysteria2 adds.
fn add_hysteria2(node: &Node, fields: StrMap<Json>) -> (result: Result<StrMap<Json>, Failure>)
    requires
        node.protocol is Hysteria2,
    ensures
        fields_view(result) == protocol_fields(node@, fields@),
{
    let mut fields = fields;
    json::put_text(&mut fields, "type", "hysteria2");
    match put_required(Ok(fields), "password", node, "password") {
        Err(failure) => Err(failure),
        Ok(fields) => {
            let mut fields = fields;
            match strmap::get_text(&node.params, "obfs") {
                Some(obfs) => {
                    let mut section = typed_object(obfs.as_str());
                    let password = strmap::get_text(&node.params, "obfs-password");
                    json::put_some_text(&mut section, "password", &password);
                    fields.insert("obfs".to_string(), json::object_from(section));
                },
                None => {},
            }
            Ok(fields)
        },
    }
}

/// Adds what tuic adds.
fn add_tuic(node: &Node, fields: StrMap<Json>) -> (result: Result<StrMap<Json>, Failure>)
    requires
        node.protocol is Tuic,
    ensures
        fields_view(result) == protocol_fields(node@, fields@),
{
    let mut fields = fields;
    json::put_text(&mut fields, "type", "tuic");
    let named = put_required(Ok(fields), "uuid", node, "uuid");
    match put_required(named, "password", node, "password") {
        Err(failure) => Err(failure),
        Ok(fields) => {
            let mut fields = fields;
            let congestion = strmap::get_text(&node.params, "congestion_control");
            json::put_some_text(&mut fields, "congestion_control", &congestion);
            let relay = strmap::get_text(&node.params, "udp_relay_mode");
            json::put_some_text(&mut fields, "udp_relay_mode", &relay);
            Ok(fields)
        },
    }
}

/// Adds what the protocol of a node adds.
fn add_protocol(node: &Node, fields: StrMap<Json>) -> (result: Result<StrMap<Json>, Failure>)
    ensures
        fields_view(result) == protocol_fields(node@, fields@),
{
    let mut fields = fields;
    match node.protocol {
        Protocol::Vmess => add_vmess(node, fields),
        Protocol::Vless => {
            json::put_text(&mut fields, "type", "vless");
            match put_required(Ok(fields), "uuid", node, "id") {
                Err(failure) => Err(failure),
                Ok(fields) => {
                    let mut fields = fields;
                    let flow = strmap::get_text(&node.params, "flow");
                    json::put_some_text(&mut fields, "flow", &flow);
                    Ok(fields)
                },
            }
        },
        Protocol::Trojan => {
            json::put_text(&mut fields, "type", "trojan");
            put_required(Ok(fields), "password", node, "password")
        },
        Protocol::Shadowsocks => {
            if node.params.contains_key("plugin") {
                return Err(
                    Failure::of("shadowsocks plugins are not supported by tunnel probe"),
                );
            }
            json::put_text(&mut fields, "type", "shadowsocks");
            let named = put_required(Ok(fields), "method", node, "method");
            put_required(named, "password", node, "password")
        },
        Protocol::ShadowsocksR => Err(
            Failure::of("shadowsocksr is not supported by sing-box tunnel probe"),
        ),
        Protocol::Hysteria2 => add_hysteria2(node, fields),
        Protocol::Tuic => add_tuic(node, fields),
    }
}

/// The outbound through which a node is probed, as a document.
pub open spec fn outbound_of(node: NodeView, interface: Seq<char>) -> Result<
    JsonValue,
    Seq<char>,
> {
    match outbound_fields(node, interface) {
        Ok(fields) => Ok(json::object_with(fields)),
        Err(message) => Err(message),
    }
}

/// The outbound through which a node is probed, bound to an interface where
/// one is given.
pub fn build_outbound(node: &Node, interface: &str) -> (result: Result<Json, Failure>)
    ensures
        failure::outcome(result) == outbound_of(node@, interface@),
{
    let base = read_outbound_base(node, interface);
    let fields = match add_protocol(node, base) {
        Ok(fields) => fields,
        Err(failure) => {
            return Err(failure);
        },
    };
    let mut fields = fields;
    match build_transport(node) {
        Err(failure) => {
            return Err(failure);
        },
        Ok(Some(transport)) => fields.insert("transport".to_string(), transport),
        Ok(None) => {},
    }
    match build_tls(node) {
        Some(tls) => fields.insert("tls".to_string(), tls),
        None => {},
    }
    Ok(json::object_from(fields))
}

// ---------------------------------------------------------------------------
// The settings of sing-box
// ---------------------------------------------------------------------------

/// The local proxy at a port.
pub open spec fn inbound_fields(listen_port: u16) -> Map<Seq<char>, JsonValue> {
    typed("socks"@).insert("tag"@, JsonValue::Text("local-socks"@)).insert(
        "listen"@,
        JsonValue::Text("127.0.0.1"@),
    ).insert("listen_port"@, json::number_value(listen_port as u64))
}

/// The settings of a sing-box with an outbound.
pub open spec fn sing_box_fields(outbound: JsonValue, listen_port: u16) -> Map<
    Seq<char>,
    JsonValue,
> {
    Map::<Seq<char>, JsonValue>::empty().insert(
        "log"@,
        json::object_with(
            Map::<Seq<char>, JsonValue>::empty().insert("disabled"@, JsonValue::Bool(true)),
        ),
    ).insert(
        "inbounds"@,
        JsonValue::Array(seq![json::object_with(inbound_fields(listen_port))]),
    ).insert("outbounds"@, JsonValue::Array(seq![outbound])).insert(
        "route"@,
        json::object_with(
            Map::<Seq<char>, JsonValue>::empty().insert("final"@, JsonValue::Text("proxy"@)),
        ),
    )
}

/// The settings of a sing-box that opens the tunnel of a node behind a local
/// port.
pub open spec fn sing_box_config(node: NodeView, listen_port: u16, interface: Seq<char>) -> Result<
    JsonValue,
    Seq<char>,
> {
    match outbound_of(node, interface) {
        Ok(outbound) => Ok(json::object_with(sing_box_fields(outbound, listen_port))),
        Err(message) => Err(message),
    }
}

/// A list of one document.
fn list_of(json: Json) -> (list: Json)
    ensures
        list@ == JsonValue::Array(seq![json@]),
{
    let ghost item = json@;
    let list = vec![json];
    proof {
        json::lemma_array_view(list);
        assert(json::items_view(list@) =~= seq![item]);
    }
    Json::Array(list)
}

/// The settings of a sing-box that opens the tunnel of a node behind a local
/// port.
pub fn build_sing_box_config(node: &Node, listen_port: u16, interface: &str) -> (result: Result<
    Json,
    Failure,
>)
    ensures
        failure::outcome(result) == sing_box_config(node@, listen_port, interface@),
{
    let outbound = match build_outbound(node, interface) {
        Ok(outbound) => outbound,
        Err(failure) => {
            return Err(failure);
        },
    };
    let mut log: StrMap<Json> = StrMap::new();
    log.insert("disabled".to_string(), Json::Bool(true));
    let mut inbound = typed_object("socks");
    json::put_text(&mut inbound, "tag", "local-socks");
    json::put_text(&mut inbound, "listen", "127.0.0.1");
    inbound.insert("listen_port".to_string(), json::number_from(listen_port as u64));
    let mut route: StrMap<Json> = StrMap::new();
    json::put_text(&mut route, "final", "proxy");
    let mut config: StrMap<Json> = StrMap::new();
    config.insert("log".to_string(), json::object_from(log));
    config.insert("inbounds".to_string(), list_of(json::object_from(inbound)));
    config.insert("outbounds".to_string(), list_of(outbound));
    config.insert("route".to_string(), json::object_from(route));
    Ok(json::object_from(config))
}

/// The settings of a sing-box as they are written, one line for each part.
pub open spec fn sing_box_text(node: NodeView, listen_port: u16, interface: Seq<char>) -> Result<
    Seq<char>,
    Seq<char>,
> {
    match sing_box_config(node, listen_port, interface) {
        Ok(config) => Ok(json::document_text(config, 0)),
        Err(message) => Err(message),
    }
}

/// Writes the settings of a sing-box that opens the tunnel of a node behind a
/// local port.
pub fn write_sing_box_config(node: &Node, listen_port: u16, interface: &str) -> (result: Result<
    String,
    Failure,
>)
    ensures
        failure::outcome(result) == sing_box_text(node@, listen_port, interface@),
{
    match build_sing_box_config(node, listen_port, interface) {
        Ok(config) => {
            proof {
                law_settings_are_writable(node@, listen_port, interface@);
            }
            Ok(json::write_document(config).unwrap())
        },
        Err(failure) => Err(failure),
    }
}

/// Fields can be written with one more that can be.
proof fn lemma_insert(fields: Map<Seq<char>, JsonValue>, key: Seq<char>, value: JsonValue)
    requires
        json::are_writable(fields),
        json::is_writable(value),
    ensures
        json::are_writable(fields.insert(key, value)),
{
}

/// Fields can be written with a text, where there is one.
proof fn lemma_with_text(
    fields: Map<Seq<char>, JsonValue>,
    key: Seq<char>,
    text: Option<Seq<char>>,
)
    requires
        json::are_writable(fields),
    ensures
        json::are_writable(json::with_text(fields, key, text)),
{
    match text {
        Some(text) => {
            lemma_insert(fields, key, JsonValue::Text(text));
        },
        None => {},
    }
}

/// Fields can be written with a value that can be, where there is one.
proof fn lemma_with_value(
    fields: Map<Seq<char>, JsonValue>,
    key: Seq<char>,
    value: Option<JsonValue>,
)
    requires
        json::are_writable(fields),
        value matches Some(value) ==> json::is_writable(value),
    ensures
        json::are_writable(json::with_value(fields, key, value)),
{
    match value {
        Some(value) => {
            lemma_insert(fields, key, value);
        },
        None => {},
    }
}

/// Fields can be written with a parameter that a node must have.
proof fn lemma_with_required(
    fields: Result<Map<Seq<char>, JsonValue>, Seq<char>>,
    key: Seq<char>,
    node: NodeView,
    param: Seq<char>,
)
    requires
        fields matches Ok(fields) ==> json::are_writable(fields),
    ensures
        with_required(fields, key, node, param) matches Ok(fields) ==> json::are_writable(fields),
{
    match fields {
        Ok(fields) => {
            if required(node, param) is Ok {
                lemma_insert(fields, key, required(node, param)->Ok_0);
            }
        },
        Err(_) => {},
    }
}

/// An object with a type alone can be written.
proof fn lemma_typed(name: Seq<char>)
    ensures
        json::are_writable(typed(name)),
{
    lemma_insert(Map::empty(), "type"@, JsonValue::Text(name));
}

/// A list of texts can be written.
proof fn lemma_texts(texts: Seq<Seq<char>>)
    ensures
        json::is_writable(json::text_list(texts)),
{
    let list = json::text_list(texts)->Array_0;
    assert forall|i: int| 0 <= i < list.len() implies json::is_writable(#[trigger] list[i]) by {
        assert(list[i] == JsonValue::Text(texts[i]));
    }
}

/// A transport can be written.
proof fn lemma_transport(node: NodeView)
    ensures
        transport_of(node) matches Ok(Some(transport)) ==> json::is_writable(transport),
{
    let network = network_of(node);
    let path = strmap::value_of(node.params, "path"@);
    let host = strmap::value_of(node.params, "host"@);
    lemma_typed(network);
    if let Ok(Some(fields)) = transport_fields(node) {
        if network == "ws"@ {
            let headers = match host {
                Some(host) => {
                    let headers = Map::<Seq<char>, JsonValue>::empty().insert(
                        "Host"@,
                        JsonValue::Text(host),
                    );
                    lemma_insert(Map::empty(), "Host"@, JsonValue::Text(host));
                    json::law_object_is_writable(headers);
                    Some(json::object_with(headers))
                },
                None => None,
            };
            lemma_with_text(typed("ws"@), "path"@, path);
            lemma_with_value(json::with_text(typed("ws"@), "path"@, path), "headers"@, headers);
        } else if network == "grpc"@ {
            let service = match strmap::value_of(node.params, "serviceName"@) {
                Some(service) => Some(service),
                None => path,
            };
            let service = match service {
                Some(service) => Some(without_slashes(service)),
                None => None,
            };
            lemma_with_text(typed("grpc"@), "service_name"@, service);
        } else if network == "http"@ || network == "h2"@ {
            let hosts = match host {
                Some(host) => {
                    lemma_texts(comma_parts(host));
                    Some(json::text_list(comma_parts(host)))
                },
                None => None,
            };
            lemma_typed("http"@);
            lemma_with_text(typed("http"@), "path"@, path);
            lemma_with_value(json::with_text(typed("http"@), "path"@, path), "host"@, hosts);
        } else if network == "httpupgrade"@ {
            lemma_with_text(typed("httpupgrade"@), "host"@, host);
            lemma_with_text(json::with_text(typed("httpupgrade"@), "host"@, host), "path"@, path);
        }
        json::law_object_is_writable(fields);
    }
}

/// The settings of TLS can be written.
proof fn lemma_tls(node: NodeView)
    ensures
        tls_of(node) matches Some(tls) ==> json::is_writable(tls),
{
    let enabled = Map::<Seq<char>, JsonValue>::empty().insert("enabled"@, JsonValue::Bool(true));
    lemma_insert(Map::empty(), "enabled"@, JsonValue::Bool(true));
    let name = JsonValue::Text(
        match strmap::value_of(node.params, "sni"@) {
            Some(name) => name,
            None => node.host,
        },
    );
    let named = enabled.insert("server_name"@, name);
    let base = named.insert("insecure"@, JsonValue::Bool(true));
    lemma_insert(enabled, "server_name"@, name);
    lemma_insert(named, "insecure"@, JsonValue::Bool(true));
    if let Some(alpn) = strmap::value_of(node.params, "alpn"@) {
        lemma_texts(named_parts(comma_parts(alpn)));
        lemma_insert(base, "alpn"@, json::text_list(named_parts(comma_parts(alpn))));
    }
    let plain = plain_tls(node);
    assert(json::are_writable(plain));
    let key = strmap::value_of(node.params, "pbk"@);
    lemma_with_text(enabled, "public_key"@, key);
    lemma_with_text(
        json::with_text(enabled, "public_key"@, key),
        "short_id"@,
        strmap::value_of(node.params, "sid"@),
    );
    json::law_object_is_writable(reality_fields(node));
    let reality = plain.insert("reality"@, json::object_with(reality_fields(node)));
    lemma_insert(plain, "reality"@, json::object_with(reality_fields(node)));
    if let Some(fingerprint) = strmap::value_of(node.params, "fp"@) {
        lemma_insert(enabled, "fingerprint"@, JsonValue::Text(fingerprint));
        json::law_object_is_writable(utls_fields(fingerprint));
        lemma_insert(reality, "utls"@, json::object_with(utls_fields(fingerprint)));
    }
    json::law_object_is_writable(tls_fields(node));
}

/// What a protocol adds can be written.
proof fn lemma_protocol(node: NodeView, base: Map<Seq<char>, JsonValue>)
    requires
        json::are_writable(base),
    ensures
        protocol_fields(node, base) matches Ok(fields) ==> json::are_writable(fields),
{
    match node.protocol {
        Protocol::Vmess => {
            let named = base.insert("type"@, JsonValue::Text("vmess"@));
            let security = JsonValue::Text(
                match strmap::value_of(node.params, "scy"@) {
                    Some(security) => security,
                    None => "auto"@,
                },
            );
            lemma_insert(base, "type"@, JsonValue::Text("vmess"@));
            lemma_with_required(Ok(named), "uuid"@, node, "id"@);
            if let Ok(fields) = with_required(Ok(named), "uuid"@, node, "id"@) {
                lemma_insert(fields, "security"@, security);
                lemma_with_value(fields.insert("security"@, security), "alter_id"@, alter_id(node));
            }
        },
        Protocol::Vless => {
            let named = base.insert("type"@, JsonValue::Text("vless"@));
            lemma_insert(base, "type"@, JsonValue::Text("vless"@));
            lemma_with_required(Ok(named), "uuid"@, node, "id"@);
            if let Ok(fields) = with_required(Ok(named), "uuid"@, node, "id"@) {
                lemma_with_text(fields, "flow"@, strmap::value_of(node.params, "flow"@));
            }
        },
        Protocol::Trojan => {
            let named = base.insert("type"@, JsonValue::Text("trojan"@));
            lemma_insert(base, "type"@, JsonValue::Text("trojan"@));
            lemma_with_required(Ok(named), "password"@, node, "password"@);
        },
        Protocol::Shadowsocks => {
            let named = base.insert("type"@, JsonValue::Text("shadowsocks"@));
            lemma_insert(base, "type"@, JsonValue::Text("shadowsocks"@));
            lemma_with_required(Ok(named), "method"@, node, "method"@);
            lemma_with_required(
                with_required(Ok(named), "method"@, node, "method"@),
                "password"@,
                node,
                "password"@,
            );
        },
        Protocol::ShadowsocksR => {},
        Protocol::Hysteria2 => {
            let named = base.insert("type"@, JsonValue::Text("hysteria2"@));
            lemma_insert(base, "type"@, JsonValue::Text("hysteria2"@));
            lemma_with_required(Ok(named), "password"@, node, "password"@);
            if let Some(obfs) = strmap::value_of(node.params, "obfs"@) {
                let password = strmap::value_of(node.params, "obfs-password"@);
                lemma_typed(obfs);
                lemma_with_text(typed(obfs), "password"@, password);
                json::law_object_is_writable(json::with_text(typed(obfs), "password"@, password));
            }
            if let Ok(fields) = with_required(Ok(named), "password"@, node, "password"@) {
                lemma_with_value(fields, "obfs"@, obfs_of(node));
            }
        },
        Protocol::Tuic => {
            let named = base.insert("type"@, JsonValue::Text("tuic"@));
            let control = strmap::value_of(node.params, "congestion_control"@);
            lemma_insert(base, "type"@, JsonValue::Text("tuic"@));
            lemma_with_required(Ok(named), "uuid"@, node, "uuid"@);
            let known = with_required(Ok(named), "uuid"@, node, "uuid"@);
            lemma_with_required(known, "password"@, node, "password"@);
            if let Ok(fields) = with_required(known, "password"@, node, "password"@) {
                lemma_with_text(fields, "congestion_control"@, control);
                lemma_with_text(
                    json::with_text(fields, "congestion_control"@, control),
                    "udp_relay_mode"@,
                    strmap::value_of(node.params, "udp_relay_mode"@),
                );
            }
        },
    }
}

/// An outbound can be written.
proof fn lemma_outbound(node: NodeView, interface: Seq<char>)
    ensures
        outbound_of(node, interface) matches Ok(outbound) ==> json::is_writable(outbound),
{
    let tag = Map::<Seq<char>, JsonValue>::empty().insert("tag"@, JsonValue::Text("proxy"@));
    let server = tag.insert("server"@, JsonValue::Text(node.host));
    let port = server.insert("server_port"@, json::number_value(node.port as u64));
    lemma_insert(Map::empty(), "tag"@, JsonValue::Text("proxy"@));
    lemma_insert(tag, "server"@, JsonValue::Text(node.host));
    lemma_insert(server, "server_port"@, json::number_value(node.port as u64));
    lemma_insert(port, "bind_interface"@, JsonValue::Text(interface));
    let base = outbound_base(node, interface);
    lemma_protocol(node, base);
    lemma_transport(node);
    lemma_tls(node);
    if let Ok(fields) = protocol_fields(node, base) {
        if let Ok(transport) = transport_of(node) {
            lemma_with_value(fields, "transport"@, transport);
            lemma_with_value(
                json::with_value(fields, "transport"@, transport),
                "tls"@,
                tls_of(node),
            );
            json::law_object_is_writable(outbound_fields(node, interface)->Ok_0);
        }
    }
}

/// The settings of a sing-box can be written, whatever the node.
pub proof fn law_settings_are_writable(node: NodeView, listen_port: u16, interface: Seq<char>)
    ensures
        sing_box_config(node, listen_port, interface) matches Ok(config) ==> json::is_writable(
            config,
        ),
{
    lemma_outbound(node, interface);
    if let Ok(outbound) = outbound_of(node, interface) {
        let none = Map::<Seq<char>, JsonValue>::empty();
        let log = none.insert("disabled"@, JsonValue::Bool(true));
        lemma_insert(none, "disabled"@, JsonValue::Bool(true));
        json::law_object_is_writable(log);
        let route = none.insert("final"@, JsonValue::Text("proxy"@));
        lemma_insert(none, "final"@, JsonValue::Text("proxy"@));
        json::law_object_is_writable(route);
        let tag = typed("socks"@).insert("tag"@, JsonValue::Text("local-socks"@));
        let listen = tag.insert("listen"@, JsonValue::Text("127.0.0.1"@));
        lemma_typed("socks"@);
        lemma_insert(typed("socks"@), "tag"@, JsonValue::Text("local-socks"@));
        lemma_insert(tag, "listen"@, JsonValue::Text("127.0.0.1"@));
        lemma_insert(listen, "listen_port"@, json::number_value(listen_port as u64));
        let inbound = json::object_with(inbound_fields(listen_port));
        json::law_object_is_writable(inbound_fields(listen_port));
        let one = none.insert("log"@, json::object_with(log));
        let two = one.insert("inbounds"@, JsonValue::Array(seq![inbound]));
        let three = two.insert("outbounds"@, JsonValue::Array(seq![outbound]));
        lemma_insert(none, "log"@, json::object_with(log));
        lemma_insert(one, "inbounds"@, JsonValue::Array(seq![inbound]));
        lemma_insert(two, "outbounds"@, JsonValue::Array(seq![outbound]));
        lemma_insert(three, "route"@, json::object_with(route));
        json::law_object_is_writable(sing_box_fields(outbound, listen_port));
    }
}

} // verus!
