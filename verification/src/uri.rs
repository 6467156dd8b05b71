//! Node links: one line of a subscription, written as a URI.

use vstd::prelude::*;
use vstd::string::*;
use vstd::utf8::*;

use crate::codec;
use crate::codec::{Place, UrlParts, UrlText};
use crate::failure;
use crate::failure::Failure;
use crate::fields;
use crate::json;
use crate::json::{Json, JsonValue};
use crate::node;
use crate::node::{Node, NodeView, Protocol};
use crate::strmap;
use crate::strmap::StrMap;
use crate::text;

verus! {

// ---------------------------------------------------------------------------
// Parts of a link
// ---------------------------------------------------------------------------

/// The text that a fragment writes with percent escapes.
pub fn decode_fragment(fragment: &str) -> (name: String)
    ensures
        name@ == codec::unescaped(fragment@),
{
    codec::percent_decode(fragment)
}

/// `value` escaped for the user information of a link.
pub fn encode_userinfo(value: &str) -> (result: String)
    ensures
        result@ == codec::percent_encoded(encode_utf8(value@), Place::Userinfo),
{
    codec::percent_encode(value, Place::Userinfo)
}

/// `value` escaped for the fragment of a link.
pub fn encode_fragment_component(value: &str) -> (result: String)
    ensures
        result@ == codec::percent_encoded(encode_utf8(value@), Place::Fragment),
{
    codec::percent_encode(value, Place::Fragment)
}

/// What stands before the first `#` and the name that stands behind it; the
/// name is `Unnamed` where there is no `#`.
pub open spec fn fragment_split(content: Seq<char>) -> (Seq<char>, Seq<char>) {
    match text::split_at_first(content, '#') {
        Some((head, fragment)) => (head, codec::unescaped(fragment)),
        None => (content, "Unnamed"@),
    }
}

/// Splits a link into what stands before its fragment and the name in the
/// fragment.
pub fn split_fragment(content: &str) -> (parts: (String, String))
    ensures
        (parts.0@, parts.1@) == fragment_split(content@),
{
    match text::split_once(content, '#') {
        Some((head, fragment)) => (head, decode_fragment(fragment.as_str())),
        None => (content.to_string(), "Unnamed".to_string()),
    }
}

/// What stands before and behind the first `?`; nothing stands behind it where
/// there is none.
pub open spec fn query_split(content: Seq<char>) -> (Seq<char>, Seq<char>) {
    match text::split_at_first(content, '?') {
        Some((head, query)) => (head, query),
        None => (content, Seq::empty()),
    }
}

/// Splits a link into what stands before its query and the query.
pub fn split_query(content: &str) -> (parts: (String, String))
    ensures
        (parts.0@, parts.1@) == query_split(content@),
{
    match text::split_once(content, '?') {
        Some((head, query)) => (head, query),
        None => (content.to_string(), String::new()),
    }
}

/// Stores every pair in turn.
fn insert_pairs(params: &mut StrMap<String>, pairs: &Vec<(String, String)>)
    requires
        old(params)@ == Map::<Seq<char>, Seq<char>>::empty(),
    ensures
        final(params)@ == strmap::pair_map(codec::pair_views(pairs@)),
{
    let ghost all = codec::pair_views(pairs@);
    let mut i: usize = 0;
    assert(all.take(0) =~= Seq::empty());
    while i < pairs.len()
        invariant
            i <= pairs@.len(),
            all == codec::pair_views(pairs@),
            params@ == strmap::pair_map(all.take(i as int)),
        decreases pairs@.len() - i,
    {
        let ghost seen = all.take(i + 1);
        assert(seen.drop_last() =~= all.take(i as int));
        assert(seen.last() == all[i as int]);
        strmap::put(params, pairs[i].0.as_str(), pairs[i].1.as_str());
        i = i + 1;
    }
    assert(all.take(i as int) =~= all);
}

/// The parameters that a form query holds; of two with one name, the later.
pub open spec fn query_params(query: Seq<char>) -> Map<Seq<char>, Seq<char>> {
    strmap::pair_map(codec::form_entries(query))
}

/// The parameters that a form query holds.
pub fn parse_query_params(query: &str) -> (params: StrMap<String>)
    ensures
        params@ == query_params(query@),
{
    let pairs = codec::read_form(query);
    let mut params: StrMap<String> = StrMap::new();
    insert_pairs(&mut params, &pairs);
    params
}

/// A host and a port with the last `:` of `server` between them.
pub open spec fn host_port(server: Seq<char>) -> Result<(Seq<char>, u16), Seq<char>> {
    match text::split_at_last(server, ':') {
        Some((host, port_text)) => match fields::port_value(port_text) {
            Some(port) => Ok((host, port)),
            None => Err("invalid port "@ + port_text),
        },
        None => Err("missing host or port"@),
    }
}

/// The view of a host and a port.
pub open spec fn host_port_view(result: Result<(String, u16), Failure>) -> Result<
    (Seq<char>, u16),
    Seq<char>,
> {
    match result {
        Ok((host, port)) => Ok((host@, port)),
        Err(failure) => Err(failure@),
    }
}

/// Reads a host and a port.
pub fn parse_host_port(server: &str) -> (result: Result<(String, u16), Failure>)
    ensures
        host_port_view(result) == host_port(server@),
{
    match text::rsplit_once(server, ':') {
        Some((host, port_text)) => match fields::parse_port_text(port_text.as_str()) {
            Some(port) => Ok((host, port)),
            None => {
                let mut message = "invalid port ".to_string();
                message.append(port_text.as_str());
                Err(Failure::new(message))
            },
        },
        None => Err(Failure::of("missing host or port")),
    }
}

/// The text that decoded bytes hold, or what `value` writes with percent
/// escapes where they hold none.
pub open spec fn decoded_or_escaped(value: Seq<char>, decoded: Option<Seq<u8>>) -> Seq<char> {
    match decoded {
        Some(bytes) => match codec::strict_text(bytes) {
            Some(text) => text,
            None => codec::unescaped(value),
        },
        None => codec::unescaped(value),
    }
}

/// The text that decoded bytes hold, or what `value` writes with percent
/// escapes where they hold none.
pub fn text_or_unescaped(value: &str, decoded: Option<Vec<u8>>) -> (result: String)
    ensures
        result@ == decoded_or_escaped(value@, codec::bytes_view(decoded)),
{
    match decoded {
        Some(bytes) => match codec::utf8_text(bytes) {
            Some(text) => text,
            None => codec::percent_decode(value),
        },
        None => codec::percent_decode(value),
    }
}

/// What `value` holds in base64 as text, or what it writes with percent escapes
/// where it holds none.
pub open spec fn base64_or_escaped(value: Seq<char>) -> Seq<char> {
    decoded_or_escaped(value, codec::base64_decoded(value))
}

/// What `value` holds in base64 as text, or what it writes with percent
/// escapes where it holds none.
pub fn decode_base64_string(value: &str) -> (result: String)
    ensures
        result@ == base64_or_escaped(value@),
{
    let decoded = codec::decode_base64_flexible(value);
    text_or_unescaped(value, decoded)
}

/// The text that decoded bytes hold, or one of two messages: there are none, or
/// they are not text.
pub open spec fn decoded_text(
    decoded: Option<Seq<u8>>,
    undecodable: Seq<char>,
    not_text: Seq<char>,
) -> Result<Seq<char>, Seq<char>> {
    match decoded {
        Some(bytes) => match codec::strict_text(bytes) {
            Some(text) => Ok(text),
            None => Err(not_text),
        },
        None => Err(undecodable),
    }
}

/// The text that decoded bytes hold.
fn read_decoded(decoded: Option<Vec<u8>>, undecodable: &str, not_text: &str) -> (result: Result<
    String,
    Failure,
>)
    ensures
        failure::outcome(result) == decoded_text(
            codec::bytes_view(decoded),
            undecodable@,
            not_text@,
        ),
{
    match decoded {
        Some(bytes) => match codec::utf8_text(bytes) {
            Some(text) => Ok(text),
            None => Err(Failure::of(not_text)),
        },
        None => Err(Failure::of(undecodable)),
    }
}

/// A name, `Unnamed` where there is none or it is empty.
pub open spec fn name_or_unnamed(name: Option<Seq<char>>) -> Seq<char> {
    match fields::not_empty(name) {
        Some(name) => name,
        None => "Unnamed"@,
    }
}

/// The name that an optional escaped text writes.
pub open spec fn escaped_name(name: Option<Seq<char>>) -> Seq<char> {
    name_or_unnamed(
        match name {
            Some(name) => Some(codec::unescaped(name)),
            None => None,
        },
    )
}

/// The name that an optional escaped text writes.
fn decode_name(name: &Option<String>) -> (result: String)
    ensures
        result@ == escaped_name(text::text_view(*name)),
{
    match name {
        Some(name) => {
            let decoded = decode_fragment(name.as_str());
            if decoded.as_str().is_empty() {
                "Unnamed".to_string()
            } else {
                decoded
            }
        },
        None => "Unnamed".to_string(),
    }
}

// ---------------------------------------------------------------------------
// vmess
// ---------------------------------------------------------------------------

/// The parameters of a vmess node: the scalars of its document, with `id`,
/// `aid`, `net`, `path` and `host`.
pub open spec fn vmess_params(value: JsonValue) -> Map<Seq<char>, Seq<char>> {
    let p0 = fields::scalar_fields(fields::entries_or_none(json::object_of(Some(value))));
    let p1 = strmap::with_some(p0, "id"@, json::text_of(json::member(value, "id"@)));
    let p2 = strmap::with_some(
        p1,
        "aid"@,
        match json::member(value, "aid"@) {
            Some(aid) => Some(fields::scalar_text(aid)),
            None => None,
        },
    );
    let p3 = strmap::with_some(p2, "net"@, json::text_of(json::member(value, "net"@)));
    let p4 = strmap::with_some(p3, "path"@, json::text_of(json::member(value, "path"@)));
    strmap::with_some(p4, "host"@, json::text_of(json::member(value, "host"@)))
}

/// The node that the document of a vmess link describes.
pub open spec fn vmess_node(uri: Seq<char>, value: JsonValue) -> Result<NodeView, Seq<char>> {
    match fields::not_empty(json::text_of(json::member(value, "add"@))) {
        None => Err("vmess node missing add field"@),
        Some(host) => match fields::port_of(json::member(value, "port"@)) {
            None => Err("vmess node missing port field"@),
            Some(port) => Ok(
                node::unprobed_node(
                    Protocol::Vmess,
                    host,
                    port,
                    vmess_params(value),
                    escaped_name(json::text_of(json::member(value, "ps"@))),
                    uri,
                ),
            ),
        },
    }
}

/// The parameters of a vmess node.
fn read_vmess_params(value: &Json) -> (params: StrMap<String>)
    ensures
        params@ == vmess_params(value@),
{
    let mut params = fields::collect_scalar_fields(json::as_object(Some(value)));
    strmap::insert_some(&mut params, "id", &json::as_text(json::get(value, "id")));
    match json::get(value, "aid") {
        Some(aid) => strmap::put(&mut params, "aid", fields::scalar_to_string(aid).as_str()),
        None => {},
    }
    strmap::insert_some(&mut params, "net", &json::as_text(json::get(value, "net")));
    strmap::insert_some(&mut params, "path", &json::as_text(json::get(value, "path")));
    strmap::insert_some(&mut params, "host", &json::as_text(json::get(value, "host")));
    params
}

/// The node that the document of a vmess link describes.
pub fn vmess_from_json(original_uri: &str, value: &Json) -> (result: Result<Node, Failure>)
    ensures
        failure::outcome(result) == vmess_node(original_uri@, value@),
{
    let host = match fields::keep_not_empty(json::as_text(json::get(value, "add"))) {
        Some(host) => host,
        None => {
            return Err(Failure::of("vmess node missing add field"));
        },
    };
    let port = match fields::parse_port(json::get(value, "port")) {
        Some(port) => port,
        None => {
            return Err(Failure::of("vmess node missing port field"));
        },
    };
    let raw_name = decode_name(&json::as_text(json::get(value, "ps")));
    let params = read_vmess_params(value);
    Ok(Node::unprobed(Protocol::Vmess, host, port, params, raw_name, original_uri.to_string()))
}

/// The node that a vmess link describes.
pub open spec fn vmess_link(uri: Seq<char>, encoded: Seq<char>) -> Result<NodeView, Seq<char>> {
    match decoded_text(
        codec::base64_decoded(encoded),
        "failed to decode vmess payload"@,
        "vmess payload is not valid UTF-8"@,
    ) {
        Ok(payload) => match json::document_of(payload) {
            Some(value) => vmess_node(uri, value),
            None => Err("invalid vmess JSON payload"@),
        },
        Err(message) => Err(message),
    }
}

/// The node that a vmess link describes.
pub fn parse_vmess_uri(original_uri: &str, encoded: &str) -> (result: Result<Node, Failure>)
    ensures
        failure::outcome(result) == vmess_link(original_uri@, encoded@),
{
    let payload = match read_decoded(
        codec::decode_base64_flexible(encoded),
        "failed to decode vmess payload",
        "vmess payload is not valid UTF-8",
    ) {
        Ok(payload) => payload,
        Err(failure) => {
            return Err(failure);
        },
    };
    match json::parse_document(payload.as_str()) {
        Some(value) => vmess_from_json(original_uri, &value),
        None => Err(Failure::of("invalid vmess JSON payload")),
    }
}

// ---------------------------------------------------------------------------
// vless, trojan, hysteria2 and tuic
// ---------------------------------------------------------------------------

/// The parameters of a node whose link is a plain URL: those of its query, and
/// the credentials that its protocol needs. A link without the user name that
/// its protocol needs is refused.
pub open spec fn standard_params(protocol: Protocol, parts: UrlParts) -> Result<
    Map<Seq<char>, Seq<char>>,
    Seq<char>,
> {
    let params = strmap::pair_map(parts.query);
    let username = codec::unescaped(parts.username);
    match protocol {
        Protocol::Vless => if username.len() == 0 {
            Err("vless node missing UUID"@)
        } else {
            Ok(params.insert("id"@, username))
        },
        Protocol::Trojan | Protocol::Hysteria2 => if username.len() == 0 {
            Err("node missing password"@)
        } else {
            Ok(params.insert("password"@, username))
        },
        Protocol::Tuic => if username.len() == 0 {
            Err("tuic node missing UUID"@)
        } else {
            Ok(
                strmap::with_some(
                    params.insert("uuid"@, username),
                    "password"@,
                    match parts.password {
                        Some(password) => Some(codec::unescaped(password)),
                        None => None,
                    },
                ),
            )
        },
        _ => Ok(params),
    }
}

/// The node that the parts of a URL describe.
pub open spec fn standard_node(uri: Seq<char>, protocol: Protocol, parts: UrlParts) -> Result<
    NodeView,
    Seq<char>,
> {
    match fields::not_empty(parts.host) {
        None => Err("node missing host"@),
        Some(host) => match parts.port {
            None => Err("node missing port"@),
            Some(port) => match standard_params(protocol, parts) {
                Err(message) => Err(message),
                Ok(params) => Ok(
                    node::unprobed_node(
                        protocol,
                        host,
                        port,
                        params,
                        escaped_name(parts.fragment),
                        uri,
                    ),
                ),
            },
        },
    }
}

/// The parameters of a node whose link is a plain URL.
fn read_standard_params(protocol: Protocol, parts: &UrlText) -> (result: Result<
    StrMap<String>,
    Failure,
>)
    ensures
        failure::outcome(result) == standard_params(protocol, parts@),
{
    let mut params: StrMap<String> = StrMap::new();
    insert_pairs(&mut params, &parts.query);
    let username = codec::percent_decode(parts.username.as_str());
    match protocol {
        Protocol::Vless => {
            if username.as_str().is_empty() {
                return Err(Failure::of("vless node missing UUID"));
            }
            strmap::put(&mut params, "id", username.as_str());
        },
        Protocol::Trojan | Protocol::Hysteria2 => {
            if username.as_str().is_empty() {
                return Err(Failure::of("node missing password"));
            }
            strmap::put(&mut params, "password", username.as_str());
        },
        Protocol::Tuic => {
            if username.as_str().is_empty() {
                return Err(Failure::of("tuic node missing UUID"));
            }
            strmap::put(&mut params, "uuid", username.as_str());
            match &parts.password {
                Some(password) => {
                    strmap::put(
                        &mut params,
                        "password",
                        codec::percent_decode(password.as_str()).as_str(),
                    );
                },
                None => {},
            }
        },
        _ => {},
    }
    Ok(params)
}

/// The node that the parts of a URL describe.
pub fn standard_from_url(original_uri: &str, protocol: Protocol, parts: &UrlText) -> (result: Result<
    Node,
    Failure,
>)
    ensures
        failure::outcome(result) == standard_node(original_uri@, protocol, parts@),
{
    let host = match &parts.host {
        Some(host) => host.clone(),
        None => {
            return Err(Failure::of("node missing host"));
        },
    };
    if host.as_str().is_empty() {
        return Err(Failure::of("node missing host"));
    }
    let port = match parts.port {
        Some(port) => port,
        None => {
            return Err(Failure::of("node missing port"));
        },
    };
    let params = match read_standard_params(protocol, parts) {
        Ok(params) => params,
        Err(failure) => {
            return Err(failure);
        },
    };
    let raw_name = decode_name(&parts.fragment);
    Ok(Node::unprobed(protocol, host, port, params, raw_name, original_uri.to_string()))
}

/// The node that a link describes which is a plain URL.
pub open spec fn standard_link(uri: Seq<char>, protocol: Protocol) -> Result<NodeView, Seq<char>> {
    match codec::url_parts(uri) {
        Some(parts) => standard_node(uri, protocol, parts),
        None => Err("invalid "@ + node::protocol_name(protocol) + " URI"@),
    }
}

/// Whether what is known of URLs is known of a link.
pub open spec fn known_url(uri: Seq<char>) -> bool {
    &&& codec::keeps_parts(uri, codec::url_parts(uri))
    &&& codec::reads_written(uri, codec::url_parts(uri))
    &&& codec::bounds_length(uri, codec::url_parts(uri))
}

/// Whether what is known of URLs is known of a link, if it is one.
pub open spec fn known_link(uri: Seq<char>) -> bool {
    codec::is_url_link(uri) ==> known_url(uri)
}

/// The node that a link describes which is a plain URL. Reading it makes known
/// what is known of URLs.
pub fn parse_standard_uri(original_uri: &str, protocol: Protocol) -> (result: Result<Node, Failure>)
    ensures
        failure::outcome(result) == standard_link(original_uri@, protocol),
        known_url(original_uri@),
{
    match codec::parse_url(original_uri) {
        Some(parts) => standard_from_url(original_uri, protocol, &parts),
        None => {
            let mut message = "invalid ".to_string();
            message.append(protocol.as_str());
            message.append(" URI");
            Err(Failure::new(message))
        },
    }
}

// ---------------------------------------------------------------------------
// Shadowsocks
// ---------------------------------------------------------------------------

/// A server and the credentials for it.
pub struct ServerView {
    pub host: Seq<char>,
    pub port: u16,
    pub method: Seq<char>,
    pub password: Seq<char>,
}

/// A server and the credentials for it.
#[derive(Debug)]
pub struct Server {
    pub host: String,
    pub port: u16,
    pub method: String,
    pub password: String,
}

impl View for Server {
    type V = ServerView;

    open spec fn view(&self) -> ServerView {
        ServerView {
            host: self.host@,
            port: self.port,
            method: self.method@,
            password: self.password@,
        }
    }
}

/// The server that `credentials`, a method and a password with a `:` between
/// them, and `server`, a host and a port, describe.
pub open spec fn server_of(
    credentials: Seq<char>,
    server: Seq<char>,
    malformed: Seq<char>,
) -> Result<ServerView, Seq<char>> {
    match text::split_at_first(credentials, ':') {
        None => Err(malformed),
        Some((method, password)) => match host_port(server) {
            Err(message) => Err(message),
            Ok((host, port)) => Ok(ServerView { host, port, method, password }),
        },
    }
}

/// The part of the main part of a Shadowsocks link that is encoded: what stands
/// before the last `@`, or all of it.
pub open spec fn encoded_part(main: Seq<char>) -> Seq<char> {
    match text::split_at_last(main, '@') {
        Some((encoded, _)) => encoded,
        None => main,
    }
}

/// The server that the main part of a Shadowsocks link describes, given what
/// its encoded part holds: credentials, with a plain server behind the `@`; or
/// credentials and a server with an `@` between them.
pub open spec fn shadowsocks_server(main: Seq<char>, decoded: Option<Seq<u8>>) -> Result<
    ServerView,
    Seq<char>,
> {
    match text::split_at_last(main, '@') {
        Some((_, server)) => match decoded_text(
            decoded,
            "failed to decode ss credentials"@,
            "ss credential payload is not valid UTF-8"@,
        ) {
            Err(message) => Err(message),
            Ok(credentials) => server_of(credentials, server, "invalid ss credential payload"@),
        },
        None => match decoded_text(
            decoded,
            "failed to decode ss payload"@,
            "ss payload is not valid UTF-8"@,
        ) {
            Err(message) => Err(message),
            Ok(payload) => match text::split_at_last(payload, '@') {
                None => Err("invalid ss URI payload"@),
                Some((credentials, server)) => server_of(
                    credentials,
                    server,
                    "invalid ss credential format"@,
                ),
            },
        },
    }
}

/// The server that credentials and a host and port describe.
fn read_server(credentials: &str, server: &str, malformed: &str) -> (result: Result<Server, Failure>)
    ensures
        failure::outcome(result) == server_of(credentials@, server@, malformed@),
{
    match text::split_once(credentials, ':') {
        None => Err(Failure::of(malformed)),
        Some((method, password)) => match parse_host_port(server) {
            Err(failure) => Err(failure),
            Ok((host, port)) => Ok(Server { host, port, method, password }),
        },
    }
}

/// The server that the main part of a Shadowsocks link describes.
fn read_shadowsocks_server(main: &str, decoded: Option<Vec<u8>>) -> (result: Result<
    Server,
    Failure,
>)
    ensures
        failure::outcome(result) == shadowsocks_server(main@, codec::bytes_view(decoded)),
{
    match text::rsplit_once(main, '@') {
        Some((_, server)) => match read_decoded(
            decoded,
            "failed to decode ss credentials",
            "ss credential payload is not valid UTF-8",
        ) {
            Err(failure) => Err(failure),
            Ok(credentials) => read_server(
                credentials.as_str(),
                server.as_str(),
                "invalid ss credential payload",
            ),
        },
        None => match read_decoded(
            decoded,
            "failed to decode ss payload",
            "ss payload is not valid UTF-8",
        ) {
            Err(failure) => Err(failure),
            Ok(payload) => match text::rsplit_once(payload.as_str(), '@') {
                None => Err(Failure::of("invalid ss URI payload")),
                Some((credentials, server)) => read_server(
                    credentials.as_str(),
                    server.as_str(),
                    "invalid ss credential format",
                ),
            },
        },
    }
}

/// What stands before the query and the fragment of a link.
pub open spec fn main_part(content: Seq<char>) -> Seq<char> {
    query_split(fragment_split(content).0).0
}

/// The node that a Shadowsocks link describes, given what its encoded part
/// holds.
pub open spec fn shadowsocks_node(
    uri: Seq<char>,
    content: Seq<char>,
    decoded: Option<Seq<u8>>,
) -> Result<NodeView, Seq<char>> {
    let (without_fragment, name) = fragment_split(content);
    let (main, query) = query_split(without_fragment);
    match shadowsocks_server(main, decoded) {
        Err(message) => Err(message),
        Ok(server) => Ok(
            node::unprobed_node(
                Protocol::Shadowsocks,
                server.host,
                server.port,
                query_params(query).insert("method"@, server.method).insert(
                    "password"@,
                    server.password,
                ),
                name,
                uri,
            ),
        ),
    }
}

/// The node that a Shadowsocks link describes, given what its encoded part
/// holds.
pub fn shadowsocks_from_decoded(original_uri: &str, content: &str, decoded: Option<Vec<u8>>) -> (result:
    Result<Node, Failure>)
    ensures
        failure::outcome(result) == shadowsocks_node(
            original_uri@,
            content@,
            codec::bytes_view(decoded),
        ),
{
    let (without_fragment, raw_name) = split_fragment(content);
    let (main, query) = split_query(without_fragment.as_str());
    let mut params = parse_query_params(query.as_str());
    let server = match read_shadowsocks_server(main.as_str(), decoded) {
        Ok(server) => server,
        Err(failure) => {
            return Err(failure);
        },
    };
    strmap::put(&mut params, "method", server.method.as_str());
    strmap::put(&mut params, "password", server.password.as_str());
    Ok(
        Node::unprobed(
            Protocol::Shadowsocks,
            server.host,
            server.port,
            params,
            raw_name,
            original_uri.to_string(),
        ),
    )
}

/// The node that a Shadowsocks link describes.
pub open spec fn shadowsocks_link(uri: Seq<char>, content: Seq<char>) -> Result<
    NodeView,
    Seq<char>,
> {
    shadowsocks_node(uri, content, codec::base64_decoded(encoded_part(main_part(content))))
}

/// The node that a Shadowsocks link describes.
pub fn parse_shadowsocks_uri(original_uri: &str, content: &str) -> (result: Result<Node, Failure>)
    ensures
        failure::outcome(result) == shadowsocks_link(original_uri@, content@),
{
    let (without_fragment, _) = split_fragment(content);
    let (main, _) = split_query(without_fragment.as_str());
    let encoded = match text::rsplit_once(main.as_str(), '@') {
        Some((encoded, _)) => encoded,
        None => main,
    };
    let decoded = codec::decode_base64_flexible(encoded.as_str());
    shadowsocks_from_decoded(original_uri, content, decoded)
}

// ---------------------------------------------------------------------------
// ShadowsocksR
// ---------------------------------------------------------------------------

/// The index of the first `/?` in `text`, or its length where there is none.
pub open spec fn options_index(text: Seq<char>) -> int
    decreases text.len(),
{
    if text.len() < 2 {
        text.len() as int
    } else if text[0] == '/' && text[1] == '?' {
        0
    } else {
        1 + options_index(text.skip(1))
    }
}

/// What stands before and behind the first `/?`; nothing stands behind it
/// where there is none.
pub open spec fn options_split(text: Seq<char>) -> (Seq<char>, Seq<char>) {
    let i = options_index(text);
    if i < text.len() {
        (text.take(i), text.skip(i + 2))
    } else {
        (text, Seq::empty())
    }
}

/// Splits a ShadowsocksR payload into its fields and its options.
fn split_options(content: &str) -> (parts: (String, String))
    ensures
        (parts.0@, parts.1@) == options_split(content@),
{
    let chars = text::chars_of(content);
    let count = chars.len();
    let mut i: usize = 0;
    assert(content@.skip(0) =~= content@);
    while i < count && count - i >= 2
        invariant
            i <= count,
            count == chars@.len(),
            chars@ == content@,
            options_index(content@) == i + options_index(content@.skip(i as int)),
        decreases count - i,
    {
        let ghost rest = content@.skip(i as int);
        assert(rest[0] == content@[i as int] && rest[1] == content@[i + 1]);
        if chars[i] == '/' && chars[i + 1] == '?' {
            assert(content@.subrange(0, i as int) =~= content@.take(i as int));
            assert(content@.subrange(i + 2, content@.len() as int) =~= content@.skip(i + 2));
            return (
                text::text_between(&chars, 0, i),
                text::text_between(&chars, i + 2, count),
            );
        }
        assert(rest.skip(1) =~= content@.skip(i + 1));
        i = i + 1;
    }
    (content.to_string(), String::new())
}

/// Options with the texts that their values hold in base64.
pub open spec fn decoded_options(options: Seq<(Seq<char>, Seq<char>)>) -> Seq<
    (Seq<char>, Seq<char>),
> {
    options.map_values(
        |option: (Seq<char>, Seq<char>)| (option.0, base64_or_escaped(option.1)),
    )
}

/// What the options of a ShadowsocksR link add: `remarks` is the name, every
/// other option a parameter.
pub open spec fn ssr_options(
    options: Seq<(Seq<char>, Seq<char>)>,
    params: Map<Seq<char>, Seq<char>>,
    name: Seq<char>,
) -> (Map<Seq<char>, Seq<char>>, Seq<char>)
    decreases options.len(),
{
    if options.len() == 0 {
        (params, name)
    } else {
        let (p, n) = ssr_options(options.drop_last(), params, name);
        if options.last().0 == "remarks"@ {
            (p, options.last().1)
        } else {
            (p.insert(options.last().0, options.last().1), n)
        }
    }
}

/// The fields of the payload of a ShadowsocksR link.
pub open spec fn ssr_fields(payload: Seq<char>) -> Seq<Seq<char>> {
    text::pieces(options_split(payload).0, ':')
}

/// The node that the payload of a ShadowsocksR link describes: a host, a port,
/// a protocol, a method, an obfuscation and a password with `:` between them,
/// and options behind `/?`. The password and the values of the options are
/// given decoded.
pub open spec fn ssr_node(
    uri: Seq<char>,
    payload: Seq<char>,
    password: Option<Seq<u8>>,
    options: Seq<(Seq<char>, Seq<char>)>,
) -> Result<NodeView, Seq<char>> {
    let parts = ssr_fields(payload);
    if parts.len() < 6 {
        Err("invalid ssr URI payload"@)
    } else {
        match fields::port_value(parts[1]) {
            None => Err("invalid ssr port "@ + parts[1]),
            Some(port) => match decoded_text(
                password,
                "failed to decode ssr password"@,
                "ssr password is not valid UTF-8"@,
            ) {
                Err(message) => Err(message),
                Ok(password) => {
                    let params = Map::<Seq<char>, Seq<char>>::empty().insert(
                        "protocol"@,
                        parts[2],
                    ).insert("method"@, parts[3]).insert("obfs"@, parts[4]).insert(
                        "password"@,
                        password,
                    );
                    let (all, name) = ssr_options(options, params, "Unnamed"@);
                    Ok(
                        node::unprobed_node(
                            Protocol::ShadowsocksR,
                            parts[0],
                            port,
                            all,
                            name,
                            uri,
                        ),
                    )
                },
            },
        }
    }
}

/// Adds what the options of a ShadowsocksR link add; the result is the name.
fn add_ssr_options(options: &Vec<(String, String)>, params: &mut StrMap<String>) -> (name: String)
    ensures
        (final(params)@, name@) == ssr_options(
            codec::pair_views(options@),
            old(params)@,
            "Unnamed"@,
        ),
{
    let ghost all = codec::pair_views(options@);
    let ghost start = params@;
    let mut name = "Unnamed".to_string();
    let mut i: usize = 0;
    assert(all.take(0) =~= Seq::empty());
    while i < options.len()
        invariant
            i <= options@.len(),
            all == codec::pair_views(options@),
            (params@, name@) == ssr_options(all.take(i as int), start, "Unnamed"@),
        decreases options@.len() - i,
    {
        let ghost seen = all.take(i + 1);
        assert(seen.drop_last() =~= all.take(i as int));
        assert(seen.last() == all[i as int]);
        if text::same_text(options[i].0.as_str(), "remarks") {
            name = options[i].1.clone();
        } else {
            strmap::put(params, options[i].0.as_str(), options[i].1.as_str());
        }
        i = i + 1;
    }
    assert(all.take(i as int) =~= all);
    name
}

/// The node that the payload of a ShadowsocksR link describes, given its
/// password and its options decoded.
pub fn ssr_from_decoded(
    original_uri: &str,
    payload: &str,
    password: Option<Vec<u8>>,
    options: &Vec<(String, String)>,
) -> (result: Result<Node, Failure>)
    ensures
        failure::outcome(result) == ssr_node(
            original_uri@,
            payload@,
            codec::bytes_view(password),
            codec::pair_views(options@),
        ),
{
    let (main, _) = split_options(payload);
    let parts = text::split(main.as_str(), ':');
    let ghost pieces = ssr_fields(payload@);
    assert(parts@.len() == pieces.len());
    assert(forall|i: int| 0 <= i < parts@.len() ==> pieces[i] == (#[trigger] parts@[i])@);
    if parts.len() < 6 {
        return Err(Failure::of("invalid ssr URI payload"));
    }
    let port = match fields::parse_port_text(parts[1].as_str()) {
        Some(port) => port,
        None => {
            let mut message = "invalid ssr port ".to_string();
            message.append(parts[1].as_str());
            return Err(Failure::new(message));
        },
    };
    let password = match read_decoded(
        password,
        "failed to decode ssr password",
        "ssr password is not valid UTF-8",
    ) {
        Ok(password) => password,
        Err(failure) => {
            return Err(failure);
        },
    };
    let mut params: StrMap<String> = StrMap::new();
    strmap::put(&mut params, "protocol", parts[2].as_str());
    strmap::put(&mut params, "method", parts[3].as_str());
    strmap::put(&mut params, "obfs", parts[4].as_str());
    strmap::put(&mut params, "password", password.as_str());
    let name = add_ssr_options(options, &mut params);
    Ok(
        Node::unprobed(
            Protocol::ShadowsocksR,
            parts[0].clone(),
            port,
            params,
            name,
            original_uri.to_string(),
        ),
    )
}

/// The options of a ShadowsocksR payload, their values decoded.
fn read_ssr_options(query: &str) -> (options: Vec<(String, String)>)
    ensures
        codec::pair_views(options@) == decoded_options(codec::form_entries(query@)),
{
    let entries = codec::read_form(query);
    let ghost all = codec::form_entries(query@);
    assert(all == codec::pair_views(entries@));
    let mut options: Vec<(String, String)> = Vec::new();
    let mut i: usize = 0;
    while i < entries.len()
        invariant
            i <= entries@.len(),
            all == codec::pair_views(entries@),
            options@.len() == i,
            forall|j: int|
                0 <= j < i ==> (#[trigger] options@[j]).0@ == all[j].0 && options@[j].1@
                    == base64_or_escaped(all[j].1),
        decreases entries@.len() - i,
    {
        assert(all[i as int] == (entries@[i as int].0@, entries@[i as int].1@));
        let value = decode_base64_string(entries[i].1.as_str());
        options.push((entries[i].0.clone(), value));
        i = i + 1;
    }
    assert(codec::pair_views(options@) =~= decoded_options(all));
    options
}

/// The node that the payload of a ShadowsocksR link describes.
pub open spec fn ssr_payload_node(uri: Seq<char>, payload: Seq<char>) -> Result<
    NodeView,
    Seq<char>,
> {
    ssr_node(
        uri,
        payload,
        codec::base64_decoded(ssr_fields(payload)[5]),
        decoded_options(codec::form_entries(options_split(payload).1)),
    )
}

/// The node that the payload of a ShadowsocksR link describes.
pub fn ssr_from_payload(original_uri: &str, payload: &str) -> (result: Result<Node, Failure>)
    ensures
        failure::outcome(result) == ssr_payload_node(original_uri@, payload@),
{
    let (main, query) = split_options(payload);
    let parts = text::split(main.as_str(), ':');
    let ghost pieces = ssr_fields(payload@);
    assert(parts@.len() == pieces.len());
    assert(forall|i: int| 0 <= i < parts@.len() ==> pieces[i] == (#[trigger] parts@[i])@);
    if parts.len() < 6 {
        return Err(Failure::of("invalid ssr URI payload"));
    }
    let password = codec::decode_base64_flexible(parts[5].as_str());
    let options = read_ssr_options(query.as_str());
    ssr_from_decoded(original_uri, payload, password, &options)
}

/// The node that a ShadowsocksR link describes.
pub open spec fn ssr_link(uri: Seq<char>, content: Seq<char>) -> Result<NodeView, Seq<char>> {
    match decoded_text(
        codec::base64_decoded(content),
        "failed to decode ssr payload"@,
        "ssr payload is not valid UTF-8"@,
    ) {
        Ok(payload) => ssr_payload_node(uri, payload),
        Err(message) => Err(message),
    }
}

/// The node that a ShadowsocksR link describes.
pub fn parse_shadowsocksr_uri(original_uri: &str, content: &str) -> (result: Result<Node, Failure>)
    ensures
        failure::outcome(result) == ssr_link(original_uri@, content@),
{
    match read_decoded(
        codec::decode_base64_flexible(content),
        "failed to decode ssr payload",
        "ssr payload is not valid UTF-8",
    ) {
        Ok(payload) => ssr_from_payload(original_uri, payload.as_str()),
        Err(failure) => Err(failure),
    }
}

// ---------------------------------------------------------------------------
// Any link
// ---------------------------------------------------------------------------

/// Whether a line starts as a link of a supported protocol does.
pub open spec fn is_supported(line: Seq<char>) -> bool {
    ||| "vmess://"@.is_prefix_of(line)
    ||| "vless://"@.is_prefix_of(line)
    ||| "trojan://"@.is_prefix_of(line)
    ||| "ss://"@.is_prefix_of(line)
    ||| "ssr://"@.is_prefix_of(line)
    ||| "hysteria2://"@.is_prefix_of(line)
    ||| "tuic://"@.is_prefix_of(line)
}

/// A link starts with one of four letters.
pub proof fn lemma_supported(line: Seq<char>)
    requires
        is_supported(line),
    ensures
        line.len() > 0,
        line[0] == 'v' || line[0] == 't' || line[0] == 's' || line[0] == 'h',
{
    reveal_strlit("vmess://");
    reveal_strlit("vless://");
    reveal_strlit("trojan://");
    reveal_strlit("ss://");
    reveal_strlit("ssr://");
    reveal_strlit("hysteria2://");
    reveal_strlit("tuic://");
    text::lemma_prefix_start("vmess://"@, line);
    text::lemma_prefix_start("vless://"@, line);
    text::lemma_prefix_start("trojan://"@, line);
    text::lemma_prefix_start("ss://"@, line);
    text::lemma_prefix_start("ssr://"@, line);
    text::lemma_prefix_start("hysteria2://"@, line);
    text::lemma_prefix_start("tuic://"@, line);
}

/// Whether a line starts as a link of a supported protocol does.
pub fn has_supported_prefix(line: &str) -> (supported: bool)
    ensures
        supported == is_supported(line@),
{
    text::starts_with(line, "vmess://") || text::starts_with(line, "vless://")
        || text::starts_with(line, "trojan://") || text::starts_with(line, "ss://")
        || text::starts_with(line, "ssr://") || text::starts_with(line, "hysteria2://")
        || text::starts_with(line, "tuic://")
}

/// The node that a link describes, read as its scheme says.
pub open spec fn uri_node(uri: Seq<char>) -> Result<NodeView, Seq<char>> {
    if "vmess://"@.is_prefix_of(uri) {
        vmess_link(uri, uri.skip("vmess://"@.len() as int))
    } else if "vless://"@.is_prefix_of(uri) {
        standard_link(uri, Protocol::Vless)
    } else if "trojan://"@.is_prefix_of(uri) {
        standard_link(uri, Protocol::Trojan)
    } else if "hysteria2://"@.is_prefix_of(uri) {
        standard_link(uri, Protocol::Hysteria2)
    } else if "tuic://"@.is_prefix_of(uri) {
        standard_link(uri, Protocol::Tuic)
    } else if "ss://"@.is_prefix_of(uri) {
        shadowsocks_link(uri, uri.skip("ss://"@.len() as int))
    } else if "ssr://"@.is_prefix_of(uri) {
        ssr_link(uri, uri.skip("ssr://"@.len() as int))
    } else {
        Err("unsupported URI scheme"@)
    }
}

/// A node keeps the link that it was read from, and has the protocol that the
/// link starts with.
pub proof fn law_node_keeps_link(uri: Seq<char>, node: NodeView)
    requires
        uri_node(uri) == Ok::<NodeView, Seq<char>>(node),
    ensures
        node.original_uri == uri,
        node.display_name == node.raw_name,
        is_supported(uri),
        node.protocol is Vmess <==> "vmess://"@.is_prefix_of(uri),
        node.protocol is Shadowsocks ==> "ss://"@.is_prefix_of(uri),
        node.protocol is ShadowsocksR ==> "ssr://"@.is_prefix_of(uri),
        node.protocol is Vless || node.protocol is Trojan || node.protocol is Hysteria2
            || node.protocol is Tuic ==> codec::is_url_link(uri),
{
}

/// A vmess link does not start as the links do that are plain URLs.
pub proof fn lemma_vmess_is_no_url(uri: Seq<char>)
    requires
        "vmess://"@.is_prefix_of(uri),
    ensures
        !codec::is_url_link(uri),
{
    reveal_strlit("vmess://");
    reveal_strlit("vless://");
    reveal_strlit("trojan://");
    reveal_strlit("hysteria2://");
    reveal_strlit("tuic://");
    text::lemma_prefix_start("vmess://"@, uri);
    text::lemma_not_prefix("trojan://"@, uri);
    text::lemma_not_prefix("hysteria2://"@, uri);
    text::lemma_not_prefix("tuic://"@, uri);
    assert(uri.subrange(0, 8)[1] == 'm');
    if "vless://"@.is_prefix_of(uri) {
        assert(uri.subrange(0, 8)[1] == 'l');
    }
}

/// The node that a link describes. Reading it makes known what is known of
/// URLs.
pub fn parse_uri_node(uri: &str) -> (result: Result<Node, Failure>)
    ensures
        failure::outcome(result) == uri_node(uri@),
        known_link(uri@),
{
    match text::strip_prefix(uri, "vmess://") {
        Some(encoded) => {
            proof {
                lemma_vmess_is_no_url(uri@);
            }
            return parse_vmess_uri(uri, encoded.as_str());
        },
        None => {},
    }
    if text::starts_with(uri, "vless://") {
        return parse_standard_uri(uri, Protocol::Vless);
    }
    if text::starts_with(uri, "trojan://") {
        return parse_standard_uri(uri, Protocol::Trojan);
    }
    if text::starts_with(uri, "hysteria2://") {
        return parse_standard_uri(uri, Protocol::Hysteria2);
    }
    if text::starts_with(uri, "tuic://") {
        return parse_standard_uri(uri, Protocol::Tuic);
    }
    match text::strip_prefix(uri, "ss://") {
        Some(content) => {
            return parse_shadowsocks_uri(uri, content.as_str());
        },
        None => {},
    }
    match text::strip_prefix(uri, "ssr://") {
        Some(content) => {
            return parse_shadowsocksr_uri(uri, content.as_str());
        },
        None => {},
    }
    Err(Failure::of("unsupported URI scheme"))
}

} // verus!
