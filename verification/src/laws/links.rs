//! Links: what the node has that a link describes.

use vstd::prelude::*;
use vstd::string::*;
use vstd::utf8::*;

use crate::codec;
use crate::codec::{Base64Form, UrlParts};
use crate::fields;
use crate::json;
use crate::json::JsonValue;
use crate::laws::names;
use crate::link;
use crate::node::{NodeView, Protocol};
use crate::roundtrip;
use crate::strmap;
use crate::text;
use crate::uri;

verus! {

// ---------------------------------------------------------------------------
// Schemes
// ---------------------------------------------------------------------------

/// What a link of a protocol starts with.
pub open spec fn scheme_of(protocol: Protocol) -> Seq<char> {
    match protocol {
        Protocol::Vmess => "vmess://"@,
        Protocol::Vless => "vless://"@,
        Protocol::Trojan => "trojan://"@,
        Protocol::Shadowsocks => "ss://"@,
        Protocol::ShadowsocksR => "ssr://"@,
        Protocol::Hysteria2 => "hysteria2://"@,
        Protocol::Tuic => "tuic://"@,
    }
}

/// A text that starts with a prefix has its characters.
proof fn lemma_prefix_chars(prefix: Seq<char>, text: Seq<char>)
    requires
        prefix.is_prefix_of(text),
    ensures
        prefix.len() <= text.len(),
        forall|i: int| 0 <= i < prefix.len() ==> text[i] == #[trigger] prefix[i],
{
    assert forall|i: int| 0 <= i < prefix.len() implies text[i] == #[trigger] prefix[i] by {
        assert(text.subrange(0, prefix.len() as int)[i] == text[i]);
    }
}

/// A link starts as those of one protocol do.
pub proof fn lemma_one_scheme(a: Protocol, b: Protocol, uri: Seq<char>)
    requires
        scheme_of(a).is_prefix_of(uri),
        scheme_of(b).is_prefix_of(uri),
    ensures
        a == b,
{
    reveal_strlit("vmess://");
    reveal_strlit("vless://");
    reveal_strlit("trojan://");
    reveal_strlit("ss://");
    reveal_strlit("ssr://");
    reveal_strlit("hysteria2://");
    reveal_strlit("tuic://");
    lemma_prefix_chars(scheme_of(a), uri);
    lemma_prefix_chars(scheme_of(b), uri);
    assert(scheme_of(a)[0] == scheme_of(b)[0]);
    assert(scheme_of(a)[1] == scheme_of(b)[1]);
    assert(scheme_of(a)[2] == scheme_of(b)[2]);
}

/// A node that is read from a link has the protocol whose links start as the
/// link does, and keeps the link; no other text is read as a link.
pub proof fn law_scheme_names_protocol(uri: Seq<char>, protocol: Protocol)
    ensures
        uri::uri_node(uri) matches Ok(node) ==> scheme_of(node.protocol).is_prefix_of(uri)
            && node.original_uri == uri && node.display_name == node.raw_name && !node.ping_ok
            && !node.tunnel_ok,
        uri::uri_node(uri) matches Ok(node) ==> scheme_of(protocol).is_prefix_of(uri)
            ==> node.protocol == protocol,
{
    if let Ok(node) = uri::uri_node(uri) {
        assert(scheme_of(node.protocol).is_prefix_of(uri));
        if scheme_of(protocol).is_prefix_of(uri) {
            lemma_one_scheme(node.protocol, protocol, uri);
        }
    }
}

// ---------------------------------------------------------------------------
// Parameters
// ---------------------------------------------------------------------------

/// Whether a value is the last one that pairs have for a key.
pub open spec fn is_last_value(
    pairs: Seq<(Seq<char>, Seq<char>)>,
    key: Seq<char>,
    value: Seq<char>,
) -> bool {
    exists|i: int|
        0 <= i < pairs.len() && (#[trigger] pairs[i]).0 == key && pairs[i].1 == value && forall|
            j: int,
        |
            i < j < pairs.len() ==> (#[trigger] pairs[j]).0 != key
}

/// Whether pairs have no value for a key.
pub open spec fn has_no_value(pairs: Seq<(Seq<char>, Seq<char>)>, key: Seq<char>) -> bool {
    forall|i: int| 0 <= i < pairs.len() ==> (#[trigger] pairs[i]).0 != key
}

/// Of several values for a key, the last one counts.
pub proof fn law_last_value_counts(pairs: Seq<(Seq<char>, Seq<char>)>, key: Seq<char>)
    ensures
        strmap::pair_map(pairs).contains_key(key) ==> is_last_value(
            pairs,
            key,
            strmap::pair_map(pairs)[key],
        ),
        !strmap::pair_map(pairs).contains_key(key) ==> has_no_value(pairs, key),
    decreases pairs.len(),
{
    if pairs.len() > 0 {
        let earlier = pairs.drop_last();
        law_last_value_counts(earlier, key);
        if pairs.last().0 == key {
            assert(pairs[pairs.len() - 1].0 == key);
            assert(is_last_value(pairs, key, pairs.last().1));
        } else if strmap::pair_map(earlier).contains_key(key) {
            let value = strmap::pair_map(earlier)[key];
            let i = choose|i: int|
                0 <= i < earlier.len() && (#[trigger] earlier[i]).0 == key && earlier[i].1 == value
                    && forall|j: int| i < j < earlier.len() ==> (#[trigger] earlier[j]).0 != key;
            assert(pairs[i] == earlier[i]);
            assert forall|j: int| i < j < pairs.len() implies (#[trigger] pairs[j]).0 != key by {
                if j < earlier.len() {
                    assert(earlier[j] == pairs[j]);
                }
            }
            assert(is_last_value(pairs, key, value));
        } else {
            assert forall|i: int| 0 <= i < pairs.len() implies (#[trigger] pairs[i]).0 != key by {
                if i < earlier.len() {
                    assert(earlier[i] == pairs[i]);
                }
            }
        }
    }
}

// ---------------------------------------------------------------------------
// Links that are plain URLs
// ---------------------------------------------------------------------------

/// The node that a vless, trojan, hysteria2 or tuic link describes has the host
/// and the port of the URL; what stands before the `@`, unescaped, for its
/// credentials: the identity of vless, the password of trojan and hysteria2, the
/// UUID and the password of tuic; the fragment, unescaped, for its name; and the
/// query for its other parameters, the last value of each counting.
pub proof fn law_url_link(uri: Seq<char>, parts: UrlParts, node: NodeView, key: Seq<char>)
    requires
        uri::uri_node(uri) == Ok::<NodeView, Seq<char>>(node),
        codec::url_parts(uri) == Some(parts),
        link::is_url_protocol(node.protocol),
    ensures
        parts.host == Some(node.host),
        parts.port == Some(node.port),
        node.raw_name == match parts.fragment {
            Some(fragment) => if codec::unescaped(fragment).len() > 0 {
                codec::unescaped(fragment)
            } else {
                "Unnamed"@
            },
            None => "Unnamed"@,
        },
        node.protocol is Vless ==> strmap::value_of(node.params, "id"@) == Some(
            codec::unescaped(parts.username),
        ),
        node.protocol is Trojan || node.protocol is Hysteria2 ==> strmap::value_of(
            node.params,
            "password"@,
        ) == Some(codec::unescaped(parts.username)),
        node.protocol is Tuic ==> strmap::value_of(node.params, "uuid"@) == Some(
            codec::unescaped(parts.username),
        ),
        node.protocol is Tuic && parts.password is Some ==> strmap::value_of(
            node.params,
            "password"@,
        ) == Some(codec::unescaped(parts.password->0)),
        !is_credential(node.protocol, key) ==> match strmap::value_of(node.params, key) {
            Some(value) => is_last_value(parts.query, key, value),
            None => has_no_value(parts.query, key),
        },
{
    names::lemma_link_keys();
    law_last_value_counts(parts.query, key);
}

/// Whether a parameter is one of the credentials of a protocol.
pub open spec fn is_credential(protocol: Protocol, key: Seq<char>) -> bool {
    match protocol {
        Protocol::Vmess | Protocol::Vless => key == "id"@,
        Protocol::Trojan | Protocol::Hysteria2 => key == "password"@,
        Protocol::Tuic => key == "uuid"@ || key == "password"@,
        Protocol::Shadowsocks | Protocol::ShadowsocksR => key == "method"@ || key == "password"@,
    }
}

/// A link that starts as those do that are plain URLs is read as a node just
/// where it is a URL with a host, a port and something before the `@`.
pub proof fn law_url_link_is_read(uri: Seq<char>)
    requires
        codec::is_url_link(uri),
    ensures
        uri::uri_node(uri) is Ok <==> (codec::url_parts(uri) is Some && {
            let parts = codec::url_parts(uri)->0;
            &&& parts.host is Some
            &&& parts.host->0.len() > 0
            &&& parts.port is Some
            &&& codec::unescaped(parts.username).len() > 0
        }),
{
    if "vmess://"@.is_prefix_of(uri) {
        uri::lemma_vmess_is_no_url(uri);
    }
}

// ---------------------------------------------------------------------------
// Shadowsocks
// ---------------------------------------------------------------------------

/// Whether a node is the Shadowsocks node at a server with a method, a password,
/// a name, and other parameters.
pub open spec fn is_shadowsocks(
    found: Result<NodeView, Seq<char>>,
    host: Seq<char>,
    port: u16,
    method: Seq<char>,
    password: Seq<char>,
    params: Map<Seq<char>, Seq<char>>,
    name: Seq<char>,
) -> bool {
    found matches Ok(node) && {
        &&& node.protocol is Shadowsocks
        &&& node.host == host
        &&& node.port == port
        &&& node.raw_name == name
        &&& node.params.contains_key("method"@)
        &&& node.params["method"@] == method
        &&& node.params.contains_key("password"@)
        &&& node.params["password"@] == password
        &&& forall|key: Seq<char>|
            key != "method"@ && key != "password"@ ==> #[trigger] strmap::value_of(
                node.params,
                key,
            ) == strmap::value_of(params, key)
    }
}

/// A Shadowsocks link whose credentials are in base64, in whatever form, with the
/// server behind an `@`, describes the node at that server with that method and
/// password, and the query for its other parameters, under the name that the
/// fragment writes.
pub proof fn law_shadowsocks_link(
    form: Base64Form,
    host: Seq<char>,
    port: u16,
    method: Seq<char>,
    password: Seq<char>,
    params: Map<Seq<char>, Seq<char>>,
    name: Seq<char>,
)
    requires
        !host.contains('#') && !host.contains('?') && !host.contains('@'),
        !method.contains(':'),
        params.dom().finite(),
    ensures
        is_shadowsocks(
            uri::uri_node(
                "ss://"@ + codec::base64_encoded(
                    form,
                    encode_utf8(method + ":"@ + password),
                ) + "@"@ + (host + ":"@ + text::decimal(port as nat)) + link::link_tail(
                    params,
                    name,
                ),
            ),
            host,
            port,
            method,
            password,
            params,
            name,
        ),
{
    let credentials = method + ":"@ + password;
    let bytes = encode_utf8(credentials);
    let encoded = codec::base64_encoded(form, bytes);
    let server = host + ":"@ + text::decimal(port as nat);
    let digits = text::decimal(port as nat);
    let main = encoded + "@"@ + server;
    let whole = "ss://"@ + encoded + "@"@ + server + link::link_tail(params, name);
    reveal_strlit("@");
    reveal_strlit(":");
    names::lemma_ss_keys();
    roundtrip::lemma_base64_chars(form, bytes);
    roundtrip::law_base64_round_trip(form, bytes);
    link::lemma_port_text(port);
    assert forall|j: int| 0 <= j < server.len() implies server[j] != '#' && server[j] != '?'
        && server[j] != '@' by {
        if j < host.len() {
            assert(server[j] == host[j]);
        } else if j > host.len() {
            assert(server[j] == digits[j - host.len() - 1]);
        }
    }
    assert forall|j: int| 0 <= j < main.len() implies main[j] != '#' && main[j] != '?' by {
        if j < encoded.len() {
            assert(codec::is_base64_char(encoded[j]));
            assert(main[j] == encoded[j]);
        } else if j > encoded.len() {
            assert(main[j] == server[j - encoded.len() - 1]);
        }
    }
    assert forall|j: int| encoded.len() < j < main.len() implies main[j] != '@' by {
        assert(main[j] == server[j - encoded.len() - 1]);
    }
    assert(main[encoded.len() as int] == '@');
    text::lemma_last_index_of_is(main, '@', encoded.len() as int);
    assert(main.take(encoded.len() as int) =~= encoded);
    assert(main.skip(encoded.len() as int + 1) =~= server);
    codec::law_utf8_round_trip(credentials);
    link::lemma_server(host, port);
    link::lemma_credentials(method, password);
    link::lemma_cut_tail(main, params, name);
    link::lemma_ss_scheme(main + link::link_tail(params, name));
    assert(whole =~= "ss://"@ + (main + link::link_tail(params, name)));
}

/// A Shadowsocks link that is in base64 as a whole, in whatever form, describes
/// the node that it holds: the server behind the last `@`, the method before the
/// first `:` of what stands before it, and the password behind that, with the
/// query for its other parameters, under the name that the fragment writes.
pub proof fn law_encoded_shadowsocks_link(
    form: Base64Form,
    host: Seq<char>,
    port: u16,
    method: Seq<char>,
    password: Seq<char>,
    params: Map<Seq<char>, Seq<char>>,
    name: Seq<char>,
)
    requires
        !host.contains('@'),
        !method.contains(':'),
        params.dom().finite(),
    ensures
        is_shadowsocks(
            uri::uri_node(
                "ss://"@ + codec::base64_encoded(
                    form,
                    encode_utf8(
                        method + ":"@ + password + "@"@ + (host + ":"@ + text::decimal(
                            port as nat,
                        )),
                    ),
                ) + link::link_tail(params, name),
            ),
            host,
            port,
            method,
            password,
            params,
            name,
        ),
{
    let server = host + ":"@ + text::decimal(port as nat);
    let digits = text::decimal(port as nat);
    let credentials = method + ":"@ + password;
    let payload = credentials + "@"@ + server;
    let bytes = encode_utf8(payload);
    let main = codec::base64_encoded(form, bytes);
    let whole = "ss://"@ + main + link::link_tail(params, name);
    reveal_strlit("@");
    reveal_strlit(":");
    names::lemma_ss_keys();
    roundtrip::lemma_base64_chars(form, bytes);
    roundtrip::law_base64_round_trip(form, bytes);
    codec::law_utf8_round_trip(payload);
    link::lemma_port_text(port);
    assert forall|j: int| 0 <= j < main.len() implies main[j] != '#' && main[j] != '?' && main[j]
        != '@' by {
        assert(codec::is_base64_char(main[j]));
    }
    text::lemma_last_index_of_is(main, '@', -1);
    assert forall|j: int| credentials.len() < j < payload.len() implies payload[j] != '@' by {
        let k = j - credentials.len() - 1;
        assert(payload[j] == server[k]);
        if k < host.len() {
            assert(server[k] == host[k]);
        } else if k > host.len() {
            assert(server[k] == digits[k - host.len() - 1]);
        }
    }
    assert(payload[credentials.len() as int] == '@');
    text::lemma_last_index_of_is(payload, '@', credentials.len() as int);
    assert(payload.take(credentials.len() as int) =~= credentials);
    assert(payload.skip(credentials.len() as int + 1) =~= server);
    link::lemma_server(host, port);
    link::lemma_credentials(method, password);
    link::lemma_cut_tail(main, params, name);
    link::lemma_ss_scheme(main + link::link_tail(params, name));
    assert(whole =~= "ss://"@ + (main + link::link_tail(params, name)));
}

// ---------------------------------------------------------------------------
// vmess
// ---------------------------------------------------------------------------

/// A vmess link that holds a JSON document in base64, in whatever form, is read
/// just where the document has an address and a port; it describes the node at
/// that server, with the identity, the alternative identity, the network, the
/// path and the host of the document, under the name that its `ps` writes.
pub proof fn law_vmess_document(
    form: Base64Form,
    document: Seq<char>,
    entries: Seq<(Seq<char>, JsonValue)>,
)
    requires
        json::document_of(document) == Some(JsonValue::Object(entries)),
    ensures
        ({
            let found = uri::uri_node(
                "vmess://"@ + codec::base64_encoded(form, encode_utf8(document)),
            );
            let address = json::entry(entries, "add"@);
            let port = fields::port_of(json::entry(entries, "port"@));
            &&& found is Ok <==> (address matches Some(JsonValue::Text(host)) && host.len() > 0)
                && port is Some
            &&& found matches Ok(node) ==> node.protocol is Vmess && address == Some(
                JsonValue::Text(node.host),
            ) && port == Some(node.port) && is_named(node, json::entry(entries, "ps"@)) && has_text(
                node,
                entries,
                "id"@,
            ) && has_text(node, entries, "aid"@) && has_text(node, entries, "net"@) && has_text(
                node,
                entries,
                "path"@,
            ) && has_text(node, entries, "host"@)
        }),
{
    let encoded = codec::base64_encoded(form, encode_utf8(document));
    let uri = "vmess://"@ + encoded;
    roundtrip::law_base64_round_trip(form, encode_utf8(document));
    codec::law_utf8_round_trip(document);
    assert("vmess://"@.is_prefix_of(uri));
    assert(uri.skip("vmess://"@.len() as int) =~= encoded);
    names::lemma_vmess_keys();
}

/// Whether a node has the text under a key of a document for its parameter.
pub open spec fn has_text(
    node: NodeView,
    entries: Seq<(Seq<char>, JsonValue)>,
    key: Seq<char>,
) -> bool {
    json::entry(entries, key) matches Some(JsonValue::Text(said)) ==> strmap::value_of(
        node.params,
        key,
    ) == Some(said)
}

/// Whether a node is named by a part of a document: by its text, unescaped, or
/// `Unnamed` where that is empty or there is none.
pub open spec fn is_named(node: NodeView, part: Option<JsonValue>) -> bool {
    node.raw_name == match part {
        Some(JsonValue::Text(said)) => if codec::unescaped(said).len() > 0 {
            codec::unescaped(said)
        } else {
            "Unnamed"@
        },
        _ => "Unnamed"@,
    }
}

// ---------------------------------------------------------------------------
// ShadowsocksR
// ---------------------------------------------------------------------------

/// Where the options of a text start.
pub proof fn lemma_options_index(text: Seq<char>, i: int)
    requires
        0 <= i,
        i + 1 < text.len(),
        text[i] == '/',
        text[i + 1] == '?',
        forall|j: int| 0 <= j < i ==> !(#[trigger] text[j] == '/' && text[j + 1] == '?'),
    ensures
        uri::options_index(text) == i,
    decreases i,
{
    if i > 0 {
        let rest = text.skip(1);
        assert(!(text[0] == '/' && text[1] == '?'));
        assert forall|j: int| 0 <= j < i - 1 implies !(#[trigger] rest[j] == '/' && rest[j + 1]
            == '?') by {
            assert(rest[j] == text[j + 1]);
            assert(!(text[j + 1] == '/' && text[j + 2] == '?'));
        }
        lemma_options_index(rest, i - 1);
    }
}

/// What options add to the parameters and the name of a node.
proof fn lemma_ssr_options(
    options: Seq<(Seq<char>, Seq<char>)>,
    params: Map<Seq<char>, Seq<char>>,
    name: Seq<char>,
    key: Seq<char>,
)
    requires
        key != "remarks"@,
    ensures
        ({
            let (all, found) = uri::ssr_options(options, params, name);
            &&& is_last_value(options, "remarks"@, found) || (has_no_value(options, "remarks"@)
                && found == name)
            &&& match strmap::value_of(all, key) {
                Some(value) => is_last_value(options, key, value) || (has_no_value(options, key)
                    && strmap::value_of(params, key) == Some(value)),
                None => has_no_value(options, key) && strmap::value_of(params, key) is None,
            }
        }),
    decreases options.len(),
{
    if options.len() > 0 {
        let earlier = options.drop_last();
        let (before, called) = uri::ssr_options(earlier, params, name);
        lemma_ssr_options(earlier, params, name, key);
        lemma_one_more_value(options, "remarks"@, called);
        if let Some(value) = strmap::value_of(before, key) {
            lemma_one_more_value(options, key, value);
        } else {
            lemma_one_more_value(options, key, name);
        }
    }
}

/// The last value for a key, with one more pair.
proof fn lemma_one_more_value(
    pairs: Seq<(Seq<char>, Seq<char>)>,
    key: Seq<char>,
    value: Seq<char>,
)
    requires
        pairs.len() > 0,
    ensures
        pairs.last().0 == key ==> is_last_value(pairs, key, pairs.last().1),
        pairs.last().0 != key && is_last_value(pairs.drop_last(), key, value) ==> is_last_value(
            pairs,
            key,
            value,
        ),
        pairs.last().0 != key && has_no_value(pairs.drop_last(), key) ==> has_no_value(pairs, key),
{
    let earlier = pairs.drop_last();
    if pairs.last().0 == key {
        assert(pairs[pairs.len() - 1].0 == key);
    } else {
        if is_last_value(earlier, key, value) {
            let i = choose|i: int|
                0 <= i < earlier.len() && (#[trigger] earlier[i]).0 == key && earlier[i].1 == value
                    && forall|j: int| i < j < earlier.len() ==> (#[trigger] earlier[j]).0 != key;
            assert(pairs[i] == earlier[i]);
            assert forall|j: int| i < j < pairs.len() implies (#[trigger] pairs[j]).0 != key by {
                if j < earlier.len() {
                    assert(earlier[j] == pairs[j]);
                }
            }
        }
        if has_no_value(earlier, key) {
            assert forall|i: int| 0 <= i < pairs.len() implies (#[trigger] pairs[i]).0 != key by {
                if i < earlier.len() {
                    assert(earlier[i] == pairs[i]);
                }
            }
        }
    }
}

/// The options of a ShadowsocksR link, with their values in base64.
pub open spec fn encoded_options(form: Base64Form, options: Seq<(Seq<char>, Seq<char>)>) -> Seq<
    (Seq<char>, Seq<char>),
> {
    options.map_values(
        |option: (Seq<char>, Seq<char>)|
            (option.0, codec::base64_encoded(form, encode_utf8(option.1))),
    )
}

/// What a ShadowsocksR link holds: host, port, protocol, method, obfuscation and
/// the password in base64, with colons between them, and options behind `/?`.
pub open spec fn ssr_payload(
    form: Base64Form,
    host: Seq<char>,
    port: u16,
    protocol: Seq<char>,
    method: Seq<char>,
    obfs: Seq<char>,
    password: Seq<char>,
    options: Seq<(Seq<char>, Seq<char>)>,
) -> Seq<char> {
    text::joined(
        seq![
            host,
            text::decimal(port as nat),
            protocol,
            method,
            obfs,
            codec::base64_encoded(form, encode_utf8(password)),
        ],
        seq![':'],
    ) + "/?"@ + codec::form_query(encoded_options(form, options))
}

/// The name of a ShadowsocksR node is no parameter of it.
proof fn lemma_no_remarks(
    options: Seq<(Seq<char>, Seq<char>)>,
    params: Map<Seq<char>, Seq<char>>,
    name: Seq<char>,
)
    requires
        !params.contains_key("remarks"@),
    ensures
        !uri::ssr_options(options, params, name).0.contains_key("remarks"@),
    decreases options.len(),
{
    if options.len() > 0 {
        lemma_no_remarks(options.drop_last(), params, name);
    }
}

/// A ShadowsocksR link, in base64 in whatever form, describes the node that it
/// holds: the host and the port, the protocol, the method, the obfuscation and
/// the password, overridden by the options, under the last of its remarks, or
/// `Unnamed` where it has none.
pub proof fn law_shadowsocksr_link(
    form: Base64Form,
    host: Seq<char>,
    port: u16,
    protocol: Seq<char>,
    method: Seq<char>,
    obfs: Seq<char>,
    password: Seq<char>,
    options: Seq<(Seq<char>, Seq<char>)>,
    key: Seq<char>,
)
    requires
        !host.contains(':') && !host.contains('?'),
        !protocol.contains(':') && !protocol.contains('?'),
        !method.contains(':') && !method.contains('?'),
        !obfs.contains(':') && !obfs.contains('?'),
    ensures
        uri::uri_node(
            "ssr://"@ + codec::base64_encoded(
                form,
                encode_utf8(
                    ssr_payload(form, host, port, protocol, method, obfs, password, options),
                ),
            ),
        ) matches Ok(node) && {
            &&& node.protocol is ShadowsocksR
            &&& node.host == host
            &&& node.port == port
            &&& is_last_value(options, "remarks"@, node.raw_name) || (has_no_value(
                options,
                "remarks"@,
            ) && node.raw_name == "Unnamed"@)
            &&& !node.params.contains_key("remarks"@)
            &&& key != "remarks"@ ==> match strmap::value_of(node.params, key) {
                Some(value) => is_last_value(options, key, value) || (has_no_value(options, key) && ((
                key == "protocol"@ && value == protocol) || (key == "method"@ && value == method) || (
                key == "obfs"@ && value == obfs) || (key == "password"@ && value == password))),
                None => has_no_value(options, key) && key != "protocol"@ && key != "method"@ && key
                    != "obfs"@ && key != "password"@,
            }
        },
{
    let secret = codec::base64_encoded(form, encode_utf8(password));
    let parts = seq![host, text::decimal(port as nat), protocol, method, obfs, secret];
    let main = text::joined(parts, seq![':']);
    let written = encoded_options(form, options);
    let query = codec::form_query(written);
    let payload = ssr_payload(form, host, port, protocol, method, obfs, password, options);
    let encoded = codec::base64_encoded(form, encode_utf8(payload));
    let uri = "ssr://"@ + encoded;
    reveal_strlit("/?");
    names::lemma_ssr_keys();
    roundtrip::lemma_base64_chars(form, encode_utf8(password));
    roundtrip::law_base64_round_trip(form, encode_utf8(password));
    codec::law_utf8_round_trip(password);
    link::lemma_port_text(port);
    text::law_decimal_round_trip(port as nat, u16::MAX as nat);
    assert forall|i: int| 0 <= i < parts.len() implies !(#[trigger] parts[i]).contains(':')
        && !parts[i].contains('?') by {
        if i == 1 {
            let digits = text::decimal(port as nat);
            assert forall|j: int| 0 <= j < digits.len() implies digits[j] != ':' && digits[j]
                != '?' by {}
            assert(!digits.contains(':') && !digits.contains('?'));
        } else if i == 5 {
            assert forall|j: int| 0 <= j < secret.len() implies secret[j] != ':' && secret[j]
                != '?' by {
                assert(codec::is_base64_char(secret[j]));
            }
            assert(!secret.contains(':') && !secret.contains('?'));
        }
    }
    roundtrip::law_split_join(parts, ':');
    roundtrip::lemma_joined_without(parts, seq![':'], '?');
    assert(payload[main.len() as int] == '/');
    assert(payload[main.len() as int + 1] == '?');
    assert forall|j: int| 0 <= j < main.len() implies !(#[trigger] payload[j] == '/' && payload[j
        + 1] == '?') by {
        if j + 1 < main.len() {
            assert(payload[j + 1] == main[j + 1]);
            assert(main.contains(main[j + 1]));
        }
    }
    lemma_options_index(payload, main.len() as int);
    assert(payload.take(main.len() as int) =~= main);
    assert(payload.skip(main.len() as int + 2) =~= query);
    roundtrip::law_form_round_trip(written);
    let read = uri::decoded_options(written);
    assert forall|i: int| 0 <= i < options.len() implies read[i] == options[i] by {
        let value = encode_utf8(options[i].1);
        roundtrip::law_base64_round_trip(form, value);
        codec::law_utf8_round_trip(options[i].1);
        assert(written[i] == (options[i].0, codec::base64_encoded(form, value)));
    }
    assert(read =~= options);
    roundtrip::law_base64_round_trip(form, encode_utf8(payload));
    codec::law_utf8_round_trip(payload);
    assert("ssr://"@.is_prefix_of(uri));
    assert(uri.skip("ssr://"@.len() as int) =~= encoded);
    lemma_ssr_scheme(uri);
    let params = Map::<Seq<char>, Seq<char>>::empty().insert("protocol"@, protocol).insert(
        "method"@,
        method,
    ).insert("obfs"@, obfs).insert("password"@, password);
    lemma_no_remarks(options, params, "Unnamed"@);
    assert(uri::ssr_fields(payload) == parts);
    if key != "remarks"@ {
        lemma_ssr_options(options, params, "Unnamed"@, key);
    } else {
        lemma_ssr_options(options, params, "Unnamed"@, "method"@);
    }
}

/// A link that starts with `ssr://` is read as a ShadowsocksR link.
pub proof fn lemma_ssr_scheme(uri: Seq<char>)
    requires
        "ssr://"@.is_prefix_of(uri),
    ensures
        uri::uri_node(uri) == uri::ssr_link(uri, uri.skip("ssr://"@.len() as int)),
{
    let ssr = Protocol::ShadowsocksR;
    if "vmess://"@.is_prefix_of(uri) {
        lemma_one_scheme(ssr, Protocol::Vmess, uri);
    }
    if "vless://"@.is_prefix_of(uri) {
        lemma_one_scheme(ssr, Protocol::Vless, uri);
    }
    if "trojan://"@.is_prefix_of(uri) {
        lemma_one_scheme(ssr, Protocol::Trojan, uri);
    }
    if "hysteria2://"@.is_prefix_of(uri) {
        lemma_one_scheme(ssr, Protocol::Hysteria2, uri);
    }
    if "tuic://"@.is_prefix_of(uri) {
        lemma_one_scheme(ssr, Protocol::Tuic, uri);
    }
    if "ss://"@.is_prefix_of(uri) {
        lemma_one_scheme(ssr, Protocol::Shadowsocks, uri);
    }
}

} // verus!
