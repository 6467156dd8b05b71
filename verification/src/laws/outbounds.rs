//! Outbounds of JSON documents: the node of an outbound has what the outbound
//! says, and so has the node that is read back from its link.

use vstd::prelude::*;
use vstd::string::*;
use vstd::utf8::*;

use crate::codec;
use crate::codec::{Base64Form, Place};
use crate::fields;
use crate::json;
use crate::json::JsonValue;
use crate::laws::names;
use crate::link;
use crate::node;
use crate::node::{NodeView, Protocol};
use crate::parser;
use crate::singbox;
use crate::singbox::OutboundView;
use crate::strmap;
use crate::text;
use crate::uri;

verus! {

// ---------------------------------------------------------------------------
// Links of outbounds
// ---------------------------------------------------------------------------

/// Whether the link of an outbound can be read: its host is made of letters,
/// digits, dots and hyphens, it is not longer than URLs can be, and what is
/// known of URLs is known of it.
pub open spec fn has_readable_link(node: NodeView) -> bool {
    &&& codec::is_host_name(node.host)
    &&& codec::before_fragment(node.original_uri).len() <= u32::MAX
    &&& uri::known_link(node.original_uri)
}

/// The node that is read back from a link that is a plain URL.
proof fn lemma_read_back(
    node: NodeView,
    username: Seq<char>,
    password: Option<Seq<char>>,
    query: Map<Seq<char>, Seq<char>>,
    tag: Seq<char>,
)
    requires
        has_readable_link(node),
        link::is_url_protocol(node.protocol),
        username.len() > 0,
        password matches Some(password) ==> password.len() > 0,
        query.dom().finite(),
        node.original_uri == link::standard_uri(
            node::protocol_name(node.protocol),
            username,
            password,
            node.host,
            node.port,
            query,
            tag,
        ),
    ensures
        uri::uri_node(node.original_uri) == Ok::<NodeView, Seq<char>>(
            node::unprobed_node(
                node.protocol,
                node.host,
                node.port,
                link::with_credentials(node.protocol, query, username, password),
                uri::name_or_unnamed(Some(tag)),
                node.original_uri,
            ),
        ),
{
    link::law_written_url_is_read(
        node.protocol,
        username,
        password,
        node.host,
        node.port,
        query,
        tag,
    );
    link::law_standard_link(node.protocol, username, password, node.host, node.port, query, tag);
}

/// The text under a key of the object under another key, where both are there
/// and the text is not empty.
pub open spec fn inner_text(
    object: Seq<(Seq<char>, JsonValue)>,
    section: Seq<char>,
    key: Seq<char>,
) -> Option<Seq<char>> {
    match json::entry(object, section) {
        Some(JsonValue::Object(inner)) => fields::string_field(inner, key),
        _ => None,
    }
}

/// The entries of the object under a key.
pub open spec fn inner_entries(object: Seq<(Seq<char>, JsonValue)>, key: Seq<char>) -> Seq<
    (Seq<char>, JsonValue),
> {
    match json::entry(object, key) {
        Some(JsonValue::Object(inner)) => inner,
        _ => Seq::empty(),
    }
}

/// Whether the `tls` object of an outbound has `enabled` set.
pub open spec fn enables_tls(object: Seq<(Seq<char>, JsonValue)>) -> bool {
    json::entry(object, "tls"@) matches Some(JsonValue::Object(inner)) && json::entry(
        inner,
        "enabled"@,
    ) == Some(JsonValue::Bool(true))
}

/// What an outbound has for its security: `tls` where its `tls` object has
/// `enabled` set, else what it says itself, else `none`.
proof fn lemma_security(object: Seq<(Seq<char>, JsonValue)>)
    ensures
        enables_tls(object) ==> singbox::security_of(object) == "tls"@,
        !enables_tls(object) ==> (match fields::string_field(object, "security"@) {
            Some(security) => singbox::security_of(object) == security,
            None => singbox::security_of(object) == "none"@,
        }),
{
    assert(json::entry(Seq::empty(), "enabled"@) is None);
}

/// No text stands under a key of an object without entries.
proof fn lemma_nothing_inside(key: Seq<char>)
    ensures
        fields::string_field(Seq::empty(), key) is None,
{
    assert(json::entry(Seq::empty(), key) is None);
}

/// The texts in the sections of an outbound.
proof fn lemma_sections(object: Seq<(Seq<char>, JsonValue)>)
    ensures
        singbox::section(object, "transport"@) == inner_entries(object, "transport"@),
        singbox::section(object, "tls"@) == inner_entries(object, "tls"@),
        forall|key: Seq<char>| #[trigger]
            inner_text(object, "transport"@, key) == fields::string_field(
                singbox::section(object, "transport"@),
                key,
            ),
        forall|key: Seq<char>| #[trigger]
            inner_text(object, "tls"@, key) == fields::string_field(
                singbox::section(object, "tls"@),
                key,
            ),
{
    assert forall|key: Seq<char>| fields::string_field(Seq::empty(), key) is None by {
        lemma_nothing_inside(key);
    }
}

/// What the security of a node read from an outbound, or from its link, must be.
pub open spec fn says_security(
    object: Seq<(Seq<char>, JsonValue)>,
    security: Option<Seq<char>>,
) -> bool {
    &&& enables_tls(object) ==> security == Some("tls"@)
    &&& !enables_tls(object) ==> match fields::string_field(object, "security"@) {
        Some(said) => security == Some(said),
        None => security == Some("none"@),
    }
}

/// The link of a vless outbound carries what the outbound says: the node that is
/// read back from it has the identity of the outbound, its network, path, host,
/// service name, mode, header type, flow, server name and ALPN, each where the
/// outbound says one and not otherwise; `tls` for its security where the outbound
/// enables TLS; and no other parameters.
pub proof fn law_vless_link(object: Seq<(Seq<char>, JsonValue)>, node: NodeView)
    requires
        singbox::sing_box_node(object) == Ok::<Option<NodeView>, Seq<char>>(Some(node)),
        node.protocol is Vless,
        has_readable_link(node),
    ensures
        uri::uri_node(node.original_uri) matches Ok(back) && {
            let transport = inner_entries(object, "transport"@);
            let of = |key: Seq<char>| strmap::value_of(back.params, key);
            &&& of("id"@) == fields::or_text(
                fields::string_field(object, "uuid"@),
                fields::string_field(object, "id"@),
            )
            &&& of("type"@) == inner_text(object, "transport"@, "type"@)
            &&& of("path"@) == fields::transport_path(transport)
            &&& of("host"@) == fields::transport_host(transport)
            &&& of("serviceName"@) == inner_text(object, "transport"@, "service_name"@)
            &&& of("mode"@) == inner_text(object, "transport"@, "mode"@)
            &&& of("headerType"@) == fields::header_type_of(transport)
            &&& of("flow"@) == fields::string_field(object, "flow"@)
            &&& of("sni"@) == inner_text(object, "tls"@, "server_name"@)
            &&& of("alpn"@) == inner_text(object, "tls"@, "alpn"@)
            &&& says_security(object, of("security"@))
            &&& forall|key: Seq<char>| #[trigger]
                back.params.contains_key(key) ==> key == "id"@ || key == "type"@ || key == "path"@
                    || key == "host"@ || key == "serviceName"@ || key == "mode"@ || key
                    == "headerType"@ || key == "flow"@ || key == "sni"@ || key == "alpn"@ || key
                    == "security"@
        },
{
    let outbound = singbox::outbound_of(object, node.host, node.port);
    let query = singbox::vless_query(object, outbound);
    lemma_read_back(node, singbox::identity(object)->0, None, query, outbound.tag);
    names::lemma_link_keys();
    lemma_sections(object);
    lemma_security(object);
}

/// The link of a trojan outbound carries what the outbound says: the node that
/// is read back from it has its password, network, path, host, server name and
/// ALPN, and no other parameters.
pub proof fn law_trojan_link(object: Seq<(Seq<char>, JsonValue)>, node: NodeView)
    requires
        singbox::sing_box_node(object) == Ok::<Option<NodeView>, Seq<char>>(Some(node)),
        node.protocol is Trojan,
        has_readable_link(node),
    ensures
        uri::uri_node(node.original_uri) matches Ok(back) && {
            let transport = inner_entries(object, "transport"@);
            let of = |key: Seq<char>| strmap::value_of(back.params, key);
            &&& of("password"@) == fields::string_field(object, "password"@)
            &&& of("type"@) == inner_text(object, "transport"@, "type"@)
            &&& of("path"@) == fields::transport_path(transport)
            &&& of("host"@) == fields::transport_host(transport)
            &&& of("sni"@) == inner_text(object, "tls"@, "server_name"@)
            &&& of("alpn"@) == inner_text(object, "tls"@, "alpn"@)
            &&& forall|key: Seq<char>| #[trigger]
                back.params.contains_key(key) ==> key == "password"@ || key == "type"@ || key
                    == "path"@ || key == "host"@ || key == "sni"@ || key == "alpn"@
        },
{
    let outbound = singbox::outbound_of(object, node.host, node.port);
    let query = singbox::trojan_query(outbound);
    let password = fields::string_field(object, "password"@)->0;
    lemma_read_back(node, password, None, query, outbound.tag);
    names::lemma_link_keys();
    lemma_sections(object);
}

/// The text at the end of a path of two keys in an object.
pub open spec fn deep_text(
    object: Seq<(Seq<char>, JsonValue)>,
    outer: Seq<char>,
    inner: Seq<char>,
) -> Option<Seq<char>> {
    match json::entry(object, outer) {
        Some(part) => fields::part_text(json::member(part, inner)),
        None => None,
    }
}

/// The text at the end of a path of two keys.
proof fn lemma_deep_text(
    object: Seq<(Seq<char>, JsonValue)>,
    outer: Seq<char>,
    inner: Seq<char>,
)
    ensures
        fields::nested_text(object, seq![outer, inner]) == deep_text(object, outer, inner),
{
    let path = seq![outer, inner];
    assert(path.skip(1) =~= seq![inner]);
    assert(path.skip(1).skip(1) =~= Seq::empty());
    reveal_with_fuel(fields::nested, 3);
}

/// The link of a hysteria2 outbound carries what the outbound says: the node
/// that is read back from it has its password, server name, ALPN, obfuscation
/// and the password of it, and no other parameters.
pub proof fn law_hysteria2_link(object: Seq<(Seq<char>, JsonValue)>, node: NodeView)
    requires
        singbox::sing_box_node(object) == Ok::<Option<NodeView>, Seq<char>>(Some(node)),
        node.protocol is Hysteria2,
        has_readable_link(node),
    ensures
        uri::uri_node(node.original_uri) matches Ok(back) && {
            let of = |key: Seq<char>| strmap::value_of(back.params, key);
            &&& of("password"@) == fields::string_field(object, "password"@)
            &&& of("sni"@) == inner_text(object, "tls"@, "server_name"@)
            &&& of("alpn"@) == inner_text(object, "tls"@, "alpn"@)
            &&& of("obfs"@) == deep_text(object, "obfs"@, "type"@)
            &&& of("obfs-password"@) == deep_text(object, "obfs"@, "password"@)
            &&& forall|key: Seq<char>| #[trigger]
                back.params.contains_key(key) ==> key == "password"@ || key == "sni"@ || key
                    == "alpn"@ || key == "obfs"@ || key == "obfs-password"@
        },
{
    let outbound = singbox::outbound_of(object, node.host, node.port);
    let query = singbox::hysteria2_query(object, outbound);
    let password = fields::string_field(object, "password"@)->0;
    lemma_read_back(node, password, None, query, outbound.tag);
    names::lemma_link_keys();
    lemma_sections(object);
    lemma_deep_text(object, "obfs"@, "type"@);
    lemma_deep_text(object, "obfs"@, "password"@);
}

/// The link of a tuic outbound carries what the outbound says: the node that is
/// read back from it has its UUID, password, congestion control, UDP relay mode,
/// server name and ALPN, and no other parameters.
pub proof fn law_tuic_link(object: Seq<(Seq<char>, JsonValue)>, node: NodeView)
    requires
        singbox::sing_box_node(object) == Ok::<Option<NodeView>, Seq<char>>(Some(node)),
        node.protocol is Tuic,
        has_readable_link(node),
    ensures
        uri::uri_node(node.original_uri) matches Ok(back) && {
            let of = |key: Seq<char>| strmap::value_of(back.params, key);
            &&& of("uuid"@) == fields::string_field(object, "uuid"@)
            &&& of("password"@) == fields::string_field(object, "password"@)
            &&& of("congestion_control"@) == fields::string_field(object, "congestion_control"@)
            &&& of("udp_relay_mode"@) == fields::string_field(object, "udp_relay_mode"@)
            &&& of("sni"@) == inner_text(object, "tls"@, "server_name"@)
            &&& of("alpn"@) == inner_text(object, "tls"@, "alpn"@)
            &&& forall|key: Seq<char>| #[trigger]
                back.params.contains_key(key) ==> key == "uuid"@ || key == "password"@ || key
                    == "congestion_control"@ || key == "udp_relay_mode"@ || key == "sni"@ || key
                    == "alpn"@
        },
{
    let outbound = singbox::outbound_of(object, node.host, node.port);
    let query = singbox::tuic_query(object, outbound);
    let uuid = fields::string_field(object, "uuid"@)->0;
    let password = fields::string_field(object, "password"@)->0;
    lemma_read_back(node, uuid, Some(password), query, outbound.tag);
    names::lemma_link_keys();
    lemma_sections(object);
}

/// The link of an outbound describes the outbound's server under its tag: the
/// node that is read back has the protocol that the outbound's type names, its
/// server and port, and its tag for a name.
pub proof fn law_outbound_link_server(object: Seq<(Seq<char>, JsonValue)>, node: NodeView)
    requires
        singbox::sing_box_node(object) == Ok::<Option<NodeView>, Seq<char>>(Some(node)),
        link::is_url_protocol(node.protocol),
        has_readable_link(node),
    ensures
        uri::uri_node(node.original_uri) matches Ok(back) && fields::string_field(object, "type"@)
            == Some(node::protocol_name(back.protocol)) && fields::string_field(object, "server"@)
            == Some(back.host) && fields::port_of(json::entry(object, "server_port"@)) == Some(
            back.port,
        ) && (match fields::string_field(object, "tag"@) {
            Some(tag) => back.raw_name == tag,
            None => back.raw_name == "Unnamed"@,
        }),
{
    singbox::law_outbound_link_reads_back(object, node);
    names::lemma_types();
}

/// The link of a vmess outbound holds a document with the tag, server, port and
/// identity of the outbound, its alternative identity or `0`, its cipher or
/// `auto`, its network or `tcp`, its header type or `none`, its host and path, or
/// nothing for them, `tls` where TLS is its security and nothing otherwise, its
/// server name where it has one, the version, and nothing else.
pub proof fn law_vmess_link(object: Seq<(Seq<char>, JsonValue)>, node: NodeView)
    requires
        singbox::sing_box_node(object) == Ok::<Option<NodeView>, Seq<char>>(Some(node)),
        node.protocol is Vmess,
    ensures
        exists|payload: Map<Seq<char>, Seq<char>>| #[trigger]
            holds_document(node.original_uri, payload) && says_vmess(object, node, payload),
{
    let outbound = singbox::outbound_of(object, node.host, node.port);
    let id = singbox::identity(object)->0;
    let aid = singbox::text_or(fields::string_field(object, "alter_id"@), "0"@);
    let payload = singbox::vmess_payload(object, outbound, id, aid);
    lemma_vmess_payload(object, outbound, id, aid);
    lemma_sections(object);
    lemma_security(object);
    reveal_strlit("none");
    reveal_strlit("tls");
    assert("none"@.len() != "tls"@.len());
    lemma_vmess_link(object, node);
    assert(says_vmess(object, node, payload));
}

/// What the document of a vmess link says.
proof fn lemma_vmess_payload(
    object: Seq<(Seq<char>, JsonValue)>,
    outbound: OutboundView,
    id: Seq<char>,
    aid: Seq<char>,
)
    ensures
        ({
            let payload = singbox::vmess_payload(object, outbound, id, aid);
            let of = |key: Seq<char>| strmap::value_of(payload, key);
            &&& of("v"@) == Some("2"@)
            &&& of("ps"@) == Some(outbound.tag)
            &&& of("add"@) == Some(outbound.host)
            &&& of("port"@) == Some(text::decimal(outbound.port as nat))
            &&& of("id"@) == Some(id)
            &&& of("aid"@) == Some(aid)
            &&& of("scy"@) == Some(
                singbox::text_or(fields::string_field(object, "security"@), "auto"@),
            )
            &&& of("net"@) == Some(singbox::text_or(outbound.network, "tcp"@))
            &&& of("type"@) == Some(singbox::text_or(outbound.header_type, "none"@))
            &&& of("host"@) == Some(singbox::text_or(outbound.host_header, ""@))
            &&& of("path"@) == Some(singbox::text_or(outbound.path, ""@))
            &&& of("tls"@) == Some(
                if outbound.security == "tls"@ {
                    "tls"@
                } else {
                    ""@
                },
            )
            &&& of("sni"@) == outbound.sni
            &&& payload.dom().finite()
            &&& forall|key: Seq<char>| #[trigger]
                payload.contains_key(key) ==> key == "v"@ || key == "ps"@ || key == "add"@ || key
                    == "port"@ || key == "id"@ || key == "aid"@ || key == "scy"@ || key == "net"@
                    || key == "type"@ || key == "host"@ || key == "path"@ || key == "tls"@ || key
                    == "sni"@
        }),
{
    names::lemma_vmess_keys();
}

/// The link of a vmess outbound holds its document.
proof fn lemma_vmess_link(object: Seq<(Seq<char>, JsonValue)>, node: NodeView)
    requires
        singbox::sing_box_node(object) == Ok::<Option<NodeView>, Seq<char>>(Some(node)),
        node.protocol is Vmess,
    ensures
        holds_document(
            node.original_uri,
            singbox::vmess_payload(
                object,
                singbox::outbound_of(object, node.host, node.port),
                singbox::identity(object)->0,
                singbox::text_or(fields::string_field(object, "alter_id"@), "0"@),
            ),
        ),
        singbox::identity(object) is Some,
        fields::string_field(object, "server"@) == Some(node.host),
{
    names::lemma_types();
}

/// Whether a link is a vmess link with a document of text fields, as JSON in
/// standard base64.
pub open spec fn holds_document(uri: Seq<char>, payload: Map<Seq<char>, Seq<char>>) -> bool {
    &&& payload.dom().finite()
    &&& uri == "vmess://"@ + codec::standard_encoded(
        encode_utf8(json::object_text(strmap::ordered_pairs(payload))),
    )
}

/// What the document in the link of a vmess outbound must say.
pub open spec fn says_vmess(
    object: Seq<(Seq<char>, JsonValue)>,
    node: NodeView,
    payload: Map<Seq<char>, Seq<char>>,
) -> bool {
    let transport = inner_entries(object, "transport"@);
    let of = |key: Seq<char>| strmap::value_of(payload, key);
    let or = |said: Option<Seq<char>>, other: Seq<char>|
        match said {
            Some(said) => Some(said),
            None => Some(other),
        };
    &&& of("v"@) == Some("2"@)
    &&& of("ps"@) == or(fields::string_field(object, "tag"@), "Unnamed"@)
    &&& of("add"@) == fields::string_field(object, "server"@)
    &&& of("port"@) == Some(text::decimal(node.port as nat))
    &&& of("id"@) == fields::or_text(
        fields::string_field(object, "uuid"@),
        fields::string_field(object, "id"@),
    )
    &&& of("aid"@) == or(fields::string_field(object, "alter_id"@), "0"@)
    &&& of("scy"@) == or(fields::string_field(object, "security"@), "auto"@)
    &&& of("net"@) == or(inner_text(object, "transport"@, "type"@), "tcp"@)
    &&& of("type"@) == or(fields::header_type_of(transport), "none"@)
    &&& of("host"@) == or(fields::transport_host(transport), ""@)
    &&& of("path"@) == or(fields::transport_path(transport), ""@)
    &&& of("tls"@) == if enables_tls(object) || fields::string_field(object, "security"@) == Some(
        "tls"@,
    ) {
        Some("tls"@)
    } else {
        Some(""@)
    }
    &&& of("sni"@) == inner_text(object, "tls"@, "server_name"@)
    &&& forall|key: Seq<char>| #[trigger]
        payload.contains_key(key) ==> key == "v"@ || key == "ps"@ || key == "add"@ || key
            == "port"@ || key == "id"@ || key == "aid"@ || key == "scy"@ || key == "net"@ || key
            == "type"@ || key == "host"@ || key == "path"@ || key == "tls"@ || key == "sni"@
}

/// Whether what is read back from the link of a Shadowsocks node is the node:
/// its server, method, password and name, with its plugin, the options of it and
/// whether UDP goes over TCP, and no other parameters.
pub open spec fn reads_back_shadowsocks(
    node: NodeView,
    method: Seq<char>,
    password: Seq<char>,
    name: Seq<char>,
) -> bool {
    uri::uri_node(node.original_uri) matches Ok(back) && {
        let of = |key: Seq<char>| strmap::value_of(back.params, key);
        let had = |key: Seq<char>| strmap::value_of(node.params, key);
        &&& back.protocol is Shadowsocks
        &&& back.host == node.host
        &&& back.port == node.port
        &&& back.raw_name == name
        &&& of("method"@) == Some(method)
        &&& of("password"@) == Some(password)
        &&& of("plugin"@) == had("plugin"@)
        &&& of("plugin_opts"@) == had("plugin_opts"@)
        &&& of("udp_over_tcp"@) == had("udp_over_tcp"@)
        &&& forall|key: Seq<char>| #[trigger]
            back.params.contains_key(key) ==> key == "method"@ || key == "password"@ || key
                == "plugin"@ || key == "plugin_opts"@ || key == "udp_over_tcp"@
    }
}

/// A Shadowsocks link reads back as the node that it was built for.
proof fn lemma_shadowsocks_link(
    node: NodeView,
    method: Seq<char>,
    password: Seq<char>,
    name: Seq<char>,
)
    requires
        link::is_plain_host(node.host),
        !method.contains(':'),
        node.original_uri == link::ss_uri(
            node.host,
            node.port,
            method,
            password,
            node.params,
            name,
        ),
    ensures
        reads_back_shadowsocks(node, method, password, name),
{
    link::law_ss_link_in_any_form(
        codec::standard_form(),
        node.host,
        node.port,
        method,
        password,
        node.params,
        name,
    );
    names::lemma_ss_keys();
}

/// The node of a Shadowsocks outbound has the method and the password of the
/// outbound, and so has the node that is read back from its link, at the same
/// server under the outbound's tag, if the host can stand in a link as it is and
/// the method holds no `:`.
pub proof fn law_shadowsocks_outbound(object: Seq<(Seq<char>, JsonValue)>, node: NodeView)
    requires
        singbox::sing_box_node(object) == Ok::<Option<NodeView>, Seq<char>>(Some(node)),
        node.protocol is Shadowsocks,
        !node.host.contains('#') && !node.host.contains('?') && !node.host.contains('@'),
        fields::string_field(object, "method"@) matches Some(method) ==> !method.contains(':'),
    ensures
        strmap::value_of(node.params, "method"@) == fields::string_field(object, "method"@),
        strmap::value_of(node.params, "password"@) == fields::string_field(object, "password"@),
        reads_back_shadowsocks(
            node,
            fields::string_field(object, "method"@)->0,
            fields::string_field(object, "password"@)->0,
            match fields::string_field(object, "tag"@) {
                Some(tag) => tag,
                None => "Unnamed"@,
            },
        ),
{
    names::lemma_ss_keys();
    names::lemma_types();
    let outbound = singbox::outbound_of(object, node.host, node.port);
    lemma_shadowsocks_link(
        node,
        fields::string_field(object, "method"@)->0,
        fields::string_field(object, "password"@)->0,
        outbound.tag,
    );
}

/// A SIP008 server entry is a Shadowsocks node at its server, with its method and
/// password, under its remarks; and so is the node that is read back from its
/// link, if the host can stand in a link as it is and the method holds no `:`.
pub proof fn law_sip008_server(object: Seq<(Seq<char>, JsonValue)>, node: NodeView)
    requires
        singbox::sip008_node(object) == Ok::<NodeView, Seq<char>>(node),
        !node.host.contains('#') && !node.host.contains('?') && !node.host.contains('@'),
        fields::string_field(object, "method"@) matches Some(method) ==> !method.contains(':'),
    ensures
        node.protocol is Shadowsocks,
        fields::string_field(object, "server"@) == Some(node.host),
        fields::port_of(json::entry(object, "server_port"@)) == Some(node.port),
        strmap::value_of(node.params, "method"@) == fields::string_field(object, "method"@),
        strmap::value_of(node.params, "password"@) == fields::string_field(object, "password"@),
        reads_back_shadowsocks(
            node,
            fields::string_field(object, "method"@)->0,
            fields::string_field(object, "password"@)->0,
            match fields::string_field(object, "remarks"@) {
                Some(remarks) => remarks,
                None => "Unnamed"@,
            },
        ),
        node.raw_name == match fields::string_field(object, "remarks"@) {
            Some(remarks) => remarks,
            None => "Unnamed"@,
        },
{
    names::lemma_ss_keys();
    lemma_shadowsocks_link(
        node,
        fields::string_field(object, "method"@)->0,
        fields::string_field(object, "password"@)->0,
        node.raw_name,
    );
}

/// A SIP008 server entry is read just where it has a server, a port, a method
/// and a password.
pub proof fn law_sip008_is_read(object: Seq<(Seq<char>, JsonValue)>)
    ensures
        singbox::sip008_node(object) is Ok <==> fields::string_field(object, "server"@) is Some
            && fields::port_of(json::entry(object, "server_port"@)) is Some && fields::string_field(
            object,
            "method"@,
        ) is Some && fields::string_field(object, "password"@) is Some,
{
}

// ---------------------------------------------------------------------------
// Nodes of outbounds
// ---------------------------------------------------------------------------

/// Whether an outbound of a type has the credentials that it needs.
pub open spec fn has_credentials(object: Seq<(Seq<char>, JsonValue)>, name: Seq<char>) -> bool {
    let has = |key: Seq<char>| fields::string_field(object, key) is Some;
    if name == "vmess"@ || name == "vless"@ {
        has("uuid"@) || has("id"@)
    } else if name == "trojan"@ || name == "hysteria2"@ {
        has("password"@)
    } else if name == "shadowsocks"@ {
        has("method"@) && has("password"@)
    } else {
        has("uuid"@) && has("password"@)
    }
}

/// Whether a type is one of the six that are supported.
pub open spec fn is_supported_type(name: Seq<char>) -> bool {
    name == "vmess"@ || name == "vless"@ || name == "trojan"@ || name == "shadowsocks"@ || name
        == "hysteria2"@ || name == "tuic"@
}

/// An outbound is read as a node just where it has a supported type, a server, a
/// port and the credentials of its type; it is refused where it has no type, or
/// all but the credentials; and passed over otherwise.
pub proof fn law_outbound_is_read(object: Seq<(Seq<char>, JsonValue)>)
    ensures
        ({
            let name = fields::string_field(object, "type"@);
            let has_server = fields::string_field(object, "server"@) is Some && fields::port_of(
                json::entry(object, "server_port"@),
            ) is Some;
            let found = singbox::sing_box_node(object);
            &&& (found is Ok && found->Ok_0 is Some) <==> name is Some && is_supported_type(name->0)
                && has_server && has_credentials(object, name->0)
            &&& found is Err <==> name is None || (is_supported_type(name->0) && has_server
                && !has_credentials(object, name->0))
        }),
{
    names::lemma_types();
}

/// The node of an outbound has the protocol that the outbound's type names, its
/// server and port, and its tag, or `Unnamed`, for a name, and is not probed yet.
pub proof fn law_outbound_node(object: Seq<(Seq<char>, JsonValue)>, node: NodeView)
    requires
        singbox::sing_box_node(object) == Ok::<Option<NodeView>, Seq<char>>(Some(node)),
    ensures
        fields::string_field(object, "type"@) == Some(
            match node.protocol {
                Protocol::Vmess => "vmess"@,
                Protocol::Vless => "vless"@,
                Protocol::Trojan => "trojan"@,
                Protocol::Hysteria2 => "hysteria2"@,
                Protocol::Tuic => "tuic"@,
                _ => "shadowsocks"@,
            },
        ),
        !(node.protocol is ShadowsocksR),
        fields::string_field(object, "server"@) == Some(node.host),
        fields::port_of(json::entry(object, "server_port"@)) == Some(node.port),
        node.raw_name == match fields::string_field(object, "tag"@) {
            Some(tag) => tag,
            None => "Unnamed"@,
        },
        node.display_name == node.raw_name,
        !node.ping_ok && !node.tunnel_ok && node.ping_ms is None && node.tunnel_ms is None,
{
    names::lemma_types();
}

/// The node of an outbound has the parameters that the outbound says: under
/// `net` and `type` its network, its path, host, service name, mode, header type,
/// server name and ALPN where it says them, its security, and the credentials of
/// its protocol.
pub proof fn law_outbound_params(object: Seq<(Seq<char>, JsonValue)>, node: NodeView)
    requires
        singbox::sing_box_node(object) == Ok::<Option<NodeView>, Seq<char>>(Some(node)),
    ensures
        ({
            let transport = inner_entries(object, "transport"@);
            let of = |key: Seq<char>| strmap::value_of(node.params, key);
            let network = inner_text(object, "transport"@, "type"@);
            let path = fields::transport_path(transport);
            let host = fields::transport_host(transport);
            let service = inner_text(object, "transport"@, "service_name"@);
            let mode = inner_text(object, "transport"@, "mode"@);
            let header = fields::header_type_of(transport);
            let sni = inner_text(object, "tls"@, "server_name"@);
            let alpn = inner_text(object, "tls"@, "alpn"@);
            &&& network is Some ==> of("net"@) == network && of("type"@) == network
            &&& path is Some ==> of("path"@) == path
            &&& host is Some ==> of("host"@) == host
            &&& service is Some ==> of("serviceName"@) == service
            &&& mode is Some ==> of("mode"@) == mode
            &&& header is Some ==> of("headerType"@) == header
            &&& sni is Some ==> of("sni"@) == sni
            &&& alpn is Some ==> of("alpn"@) == alpn
            &&& says_security(object, of("security"@))
            &&& node.protocol is Vmess || node.protocol is Vless ==> of("id"@) == fields::or_text(
                fields::string_field(object, "uuid"@),
                fields::string_field(object, "id"@),
            )
            &&& node.protocol is Vmess ==> of("aid"@) == Some(
                match fields::string_field(object, "alter_id"@) {
                    Some(aid) => aid,
                    None => "0"@,
                },
            )
            &&& node.protocol is Trojan || node.protocol is Hysteria2 || node.protocol is Tuic
                || node.protocol is Shadowsocks ==> of("password"@) == fields::string_field(
                object,
                "password"@,
            )
            &&& node.protocol is Shadowsocks ==> of("method"@) == fields::string_field(
                object,
                "method"@,
            )
            &&& node.protocol is Tuic ==> of("uuid"@) == fields::string_field(object, "uuid"@)
            &&& node.protocol is Hysteria2 && deep_text(object, "obfs"@, "type"@) is Some ==> of(
                "obfs"@,
            ) == deep_text(object, "obfs"@, "type"@)
            &&& node.protocol is Hysteria2 && deep_text(object, "obfs"@, "password"@) is Some
                ==> of("obfs-password"@) == deep_text(object, "obfs"@, "password"@)
        }),
{
    let outbound = singbox::outbound_of(object, node.host, node.port);
    lemma_sections(object);
    lemma_security(object);
    lemma_deep_text(object, "obfs"@, "type"@);
    lemma_deep_text(object, "obfs"@, "password"@);
    assert(!(node.protocol is ShadowsocksR)) by {
        names::lemma_types();
    }
    lemma_common_said(object, outbound);
    lemma_links_leave(node.protocol, object, outbound);
    lemma_linked_said(node.protocol, object, outbound);
}

// ---------------------------------------------------------------------------
// Lists of outbounds
// ---------------------------------------------------------------------------

/// What every outbound says is said under the names of links.
proof fn lemma_common_said(object: Seq<(Seq<char>, JsonValue)>, outbound: OutboundView)
    ensures
        ({
            let of = |key: Seq<char>|
                strmap::value_of(singbox::common_params(object, outbound), key);
            &&& outbound.network is Some ==> of("net"@) == outbound.network && of("type"@)
                == outbound.network
            &&& outbound.path is Some ==> of("path"@) == outbound.path
            &&& outbound.host_header is Some ==> of("host"@) == outbound.host_header
            &&& outbound.service_name is Some ==> of("serviceName"@) == outbound.service_name
            &&& outbound.mode is Some ==> of("mode"@) == outbound.mode
            &&& outbound.header_type is Some ==> of("headerType"@) == outbound.header_type
            &&& outbound.sni is Some ==> of("sni"@) == outbound.sni
            &&& outbound.alpn is Some ==> of("alpn"@) == outbound.alpn
            &&& of("security"@) == Some(outbound.security)
        }),
{
    names::lemma_link_keys();
    let below = fields::flattened_part(
        "tls"@,
        json::entry(object, "tls"@),
        fields::flattened_part(
            "transport"@,
            json::entry(object, "transport"@),
            fields::scalar_fields(object),
        ),
    );
    let p1 = strmap::with_some(below, "net"@, outbound.network);
    let p2 = strmap::with_some(p1, "type"@, outbound.network);
    let p3 = strmap::with_some(p2, "path"@, outbound.path);
    let p4 = strmap::with_some(p3, "host"@, outbound.host_header);
    let p5 = strmap::with_some(p4, "serviceName"@, outbound.service_name);
    let p6 = strmap::with_some(p5, "mode"@, outbound.mode);
    let p7 = strmap::with_some(p6, "headerType"@, outbound.header_type);
    let p8 = p7.insert("security"@, outbound.security);
    let p9 = strmap::with_some(p8, "sni"@, outbound.sni);
    assert(singbox::common_params(object, outbound) == strmap::with_some(
        p9,
        "alpn"@,
        outbound.alpn,
    ));
}

/// The credentials of a protocol leave what every outbound says.
proof fn lemma_links_leave(
    protocol: Protocol,
    object: Seq<(Seq<char>, JsonValue)>,
    outbound: OutboundView,
)
    ensures
        singbox::linked_outbound(protocol, object, outbound) matches Ok((params, _)) ==> {
            let said = singbox::common_params(object, outbound);
            let stays = |key: Seq<char>| strmap::value_of(params, key) == strmap::value_of(said, key);
            &&& stays("net"@) && stays("type"@) && stays("path"@) && stays("host"@)
            &&& stays("serviceName"@) && stays("mode"@) && stays("headerType"@)
            &&& stays("security"@) && stays("sni"@) && stays("alpn"@)
        },
{
    names::lemma_link_keys();
    lemma_linked_left(protocol, object, outbound, "net"@);
    lemma_linked_left(protocol, object, outbound, "type"@);
    lemma_linked_left(protocol, object, outbound, "path"@);
    lemma_linked_left(protocol, object, outbound, "host"@);
    lemma_linked_left(protocol, object, outbound, "serviceName"@);
    lemma_linked_left(protocol, object, outbound, "mode"@);
    lemma_linked_left(protocol, object, outbound, "headerType"@);
    lemma_linked_left(protocol, object, outbound, "security"@);
    lemma_linked_left(protocol, object, outbound, "sni"@);
    lemma_linked_left(protocol, object, outbound, "alpn"@);
}

/// What an outbound says for its protocol.
proof fn lemma_linked_said(
    protocol: Protocol,
    object: Seq<(Seq<char>, JsonValue)>,
    outbound: OutboundView,
)
    requires
        !(protocol is ShadowsocksR),
    ensures
        singbox::linked_outbound(protocol, object, outbound) matches Ok((params, _)) ==> {
            let of = |key: Seq<char>| strmap::value_of(params, key);
            let said = |key: Seq<char>| fields::string_field(object, key);
            &&& protocol is Vmess || protocol is Vless ==> of("id"@) == singbox::identity(object)
            &&& protocol is Vmess ==> of("aid"@) == Some(
                singbox::text_or(said("alter_id"@), "0"@),
            )
            &&& !(protocol is Vmess || protocol is Vless) ==> of("password"@) == said("password"@)
            &&& protocol is Shadowsocks ==> of("method"@) == said("method"@)
            &&& protocol is Tuic ==> of("uuid"@) == said("uuid"@)
            &&& protocol is Hysteria2 && singbox::obfs_type(object) is Some ==> of("obfs"@)
                == singbox::obfs_type(object)
            &&& protocol is Hysteria2 && singbox::obfs_password(object) is Some ==> of(
                "obfs-password"@,
            ) == singbox::obfs_password(object)
        },
{
    names::lemma_link_keys();
}

/// Whether nothing but the fields and sections of an outbound, as they stand, says
/// a parameter of its node.
pub open spec fn is_left(
    object: Seq<(Seq<char>, JsonValue)>,
    protocol: Protocol,
    key: Seq<char>,
) -> bool {
    let transport = inner_entries(object, "transport"@);
    let has_id = protocol is Vmess || protocol is Vless;
    &&& key != "security"@
    &&& key == "net"@ || key == "type"@ ==> inner_text(object, "transport"@, "type"@) is None
    &&& key == "path"@ ==> fields::transport_path(transport) is None
    &&& key == "host"@ ==> fields::transport_host(transport) is None
    &&& key == "serviceName"@ ==> inner_text(object, "transport"@, "service_name"@) is None
    &&& key == "mode"@ ==> inner_text(object, "transport"@, "mode"@) is None
    &&& key == "headerType"@ ==> fields::header_type_of(transport) is None
    &&& key == "sni"@ ==> inner_text(object, "tls"@, "server_name"@) is None
    &&& key == "alpn"@ ==> inner_text(object, "tls"@, "alpn"@) is None
    &&& key == "id"@ ==> !has_id
    &&& key == "aid"@ ==> !(protocol is Vmess)
    &&& key == "password"@ ==> has_id
    &&& key == "method"@ ==> !(protocol is Shadowsocks)
    &&& key == "uuid"@ ==> !(protocol is Tuic)
    &&& key == "obfs"@ ==> !(protocol is Hysteria2) || deep_text(object, "obfs"@, "type"@) is None
    &&& key == "obfs-password"@ ==> !(protocol is Hysteria2) || deep_text(
        object,
        "obfs"@,
        "password"@,
    ) is None
}

/// A parameter stays where another is put, or nothing is.
proof fn lemma_other(
    map: Map<Seq<char>, Seq<char>>,
    name: Seq<char>,
    value: Option<Seq<char>>,
    key: Seq<char>,
)
    requires
        key == name ==> value is None,
    ensures
        strmap::value_of(strmap::with_some(map, name, value), key) == strmap::value_of(map, key),
{
}

/// What the names of links leave of the parameters of an outbound.
proof fn lemma_common_left(
    object: Seq<(Seq<char>, JsonValue)>,
    outbound: OutboundView,
    below: Map<Seq<char>, Seq<char>>,
    key: Seq<char>,
)
    requires
        below == fields::flattened_part(
            "tls"@,
            json::entry(object, "tls"@),
            fields::flattened_part(
                "transport"@,
                json::entry(object, "transport"@),
                fields::scalar_fields(object),
            ),
        ),
        key != "security"@,
        key == "net"@ || key == "type"@ ==> outbound.network is None,
        key == "path"@ ==> outbound.path is None,
        key == "host"@ ==> outbound.host_header is None,
        key == "serviceName"@ ==> outbound.service_name is None,
        key == "mode"@ ==> outbound.mode is None,
        key == "headerType"@ ==> outbound.header_type is None,
        key == "sni"@ ==> outbound.sni is None,
        key == "alpn"@ ==> outbound.alpn is None,
    ensures
        strmap::value_of(singbox::common_params(object, outbound), key) == strmap::value_of(
            below,
            key,
        ),
{
    let p1 = strmap::with_some(below, "net"@, outbound.network);
    let p2 = strmap::with_some(p1, "type"@, outbound.network);
    let p3 = strmap::with_some(p2, "path"@, outbound.path);
    let p4 = strmap::with_some(p3, "host"@, outbound.host_header);
    let p5 = strmap::with_some(p4, "serviceName"@, outbound.service_name);
    let p6 = strmap::with_some(p5, "mode"@, outbound.mode);
    let p7 = strmap::with_some(p6, "headerType"@, outbound.header_type);
    let p8 = p7.insert("security"@, outbound.security);
    let p9 = strmap::with_some(p8, "sni"@, outbound.sni);
    lemma_other(below, "net"@, outbound.network, key);
    lemma_other(p1, "type"@, outbound.network, key);
    lemma_other(p2, "path"@, outbound.path, key);
    lemma_other(p3, "host"@, outbound.host_header, key);
    lemma_other(p4, "serviceName"@, outbound.service_name, key);
    lemma_other(p5, "mode"@, outbound.mode, key);
    lemma_other(p6, "headerType"@, outbound.header_type, key);
    assert(strmap::value_of(p8, key) == strmap::value_of(p7, key));
    lemma_other(p8, "sni"@, outbound.sni, key);
    lemma_other(p9, "alpn"@, outbound.alpn, key);
}

/// What the credentials of a protocol leave of the parameters of an outbound.
proof fn lemma_linked_left(
    protocol: Protocol,
    object: Seq<(Seq<char>, JsonValue)>,
    outbound: OutboundView,
    key: Seq<char>,
)
    requires
        key == "id"@ ==> !(protocol is Vmess || protocol is Vless),
        key == "aid"@ ==> !(protocol is Vmess),
        key == "password"@ ==> protocol is Vmess || protocol is Vless,
        key == "method"@ ==> protocol is Vmess || protocol is Vless || protocol is Trojan
            || protocol is Hysteria2 || protocol is Tuic,
        key == "uuid"@ ==> !(protocol is Tuic),
        key == "obfs"@ ==> !(protocol is Hysteria2) || singbox::obfs_type(object) is None,
        key == "obfs-password"@ ==> !(protocol is Hysteria2) || singbox::obfs_password(
            object,
        ) is None,
    ensures
        singbox::linked_outbound(protocol, object, outbound) matches Ok((params, _))
            ==> strmap::value_of(params, key) == strmap::value_of(
            singbox::common_params(object, outbound),
            key,
        ),
{
    let params = singbox::common_params(object, outbound);
    if let Some(password) = fields::string_field(object, "password"@) {
        let p1 = params.insert("password"@, password);
        let p2 = strmap::with_some(p1, "obfs"@, singbox::obfs_type(object));
        if protocol is Hysteria2 {
            lemma_other(p1, "obfs"@, singbox::obfs_type(object), key);
            lemma_other(p2, "obfs-password"@, singbox::obfs_password(object), key);
        }
    }
}

/// A node has the fields of its outbound as parameters, and those of the transport
/// and TLS sections with the way to them before their names, the TLS section last;
/// a parameter that has a name in links gives way to what stands for it.
pub proof fn law_outbound_other_params(
    object: Seq<(Seq<char>, JsonValue)>,
    node: NodeView,
    key: Seq<char>,
)
    requires
        singbox::sing_box_node(object) == Ok::<Option<NodeView>, Seq<char>>(Some(node)),
        is_left(object, node.protocol, key),
    ensures
        ({
            let fields = fields::scalar_fields(object);
            let transport = match json::entry(object, "transport"@) {
                Some(value) => fields::flattened("transport"@, value, fields),
                None => fields,
            };
            let tls = match json::entry(object, "tls"@) {
                Some(value) => fields::flattened("tls"@, value, transport),
                None => transport,
            };
            strmap::value_of(node.params, key) == strmap::value_of(tls, key)
        }),
{
    lemma_sections(object);
    lemma_deep_text(object, "obfs"@, "type"@);
    lemma_deep_text(object, "obfs"@, "password"@);
    let outbound = singbox::outbound_of(object, node.host, node.port);
    let below = fields::flattened_part(
        "tls"@,
        json::entry(object, "tls"@),
        fields::flattened_part(
            "transport"@,
            json::entry(object, "transport"@),
            fields::scalar_fields(object),
        ),
    );
    lemma_common_left(object, outbound, below, key);
    assert(!(node.protocol is ShadowsocksR)) by {
        names::lemma_types();
    }
    lemma_linked_left(node.protocol, object, outbound, key);
}

/// An outbound is refused for its type where it has none, and else for the first
/// credential of its protocol that is missing.
pub proof fn law_outbound_refusal(object: Seq<(Seq<char>, JsonValue)>, message: Seq<char>)
    requires
        singbox::sing_box_node(object) == Err::<Option<NodeView>, Seq<char>>(message),
    ensures
        ({
            let name = fields::string_field(object, "type"@);
            let has = |key: Seq<char>| fields::string_field(object, key) is Some;
            &&& name is None ==> message == "sing-box outbound missing type"@
            &&& name == Some("vmess"@) ==> message == "vmess outbound missing uuid"@
            &&& name == Some("vless"@) ==> message == "vless outbound missing uuid"@
            &&& name == Some("trojan"@) ==> message == "trojan outbound missing password"@
            &&& name == Some("hysteria2"@) ==> message == "hysteria2 outbound missing password"@
            &&& name == Some("shadowsocks"@) ==> message == if has("method"@) {
                "shadowsocks outbound missing password"@
            } else {
                "shadowsocks outbound missing method"@
            }
            &&& name == Some("tuic"@) ==> message == if has("uuid"@) {
                "tuic outbound missing password"@
            } else {
                "tuic outbound missing uuid"@
            }
        }),
{
    names::lemma_types();
}

/// The nodes of two lists of outbounds, one behind the other, are the nodes of
/// the one and then those of the other.
pub proof fn law_outbounds_in_order(first: Seq<JsonValue>, second: Seq<JsonValue>)
    ensures
        singbox::sing_box_nodes(first + second) == singbox::sing_box_nodes(first)
            + singbox::sing_box_nodes(second),
    decreases second.len(),
{
    let all = first + second;
    if second.len() == 0 {
        assert(all =~= first);
        assert(singbox::sing_box_nodes(all) =~= singbox::sing_box_nodes(first)
            + singbox::sing_box_nodes(second));
    } else {
        law_outbounds_in_order(first, second.drop_last());
        assert(all.drop_last() =~= first + second.drop_last());
        assert(singbox::sing_box_nodes(all) =~= singbox::sing_box_nodes(first)
            + singbox::sing_box_nodes(second));
    }
}

/// A list of one outbound has its node, where it is read as one, and none
/// otherwise.
pub proof fn law_one_outbound(value: JsonValue)
    ensures
        singbox::sing_box_nodes(seq![value]) == match value {
            JsonValue::Object(object) => match singbox::sing_box_node(object) {
                Ok(Some(node)) => seq![node],
                _ => Seq::empty(),
            },
            _ => Seq::empty(),
        },
{
    assert(seq![value].drop_last() =~= Seq::empty());
    assert(singbox::sing_box_nodes(Seq::empty()) == Seq::<NodeView>::empty());
    if let JsonValue::Object(object) = value {
        if let Ok(Some(node)) = singbox::sing_box_node(object) {
            assert(Seq::<NodeView>::empty().push(node) =~= seq![node]);
        }
    }
}

/// The nodes of two lists of server entries, one behind the other, are the nodes
/// of the one and then those of the other.
pub proof fn law_servers_in_order(first: Seq<JsonValue>, second: Seq<JsonValue>)
    ensures
        singbox::sip008_nodes(first + second) == singbox::sip008_nodes(first)
            + singbox::sip008_nodes(second),
    decreases second.len(),
{
    let all = first + second;
    if second.len() == 0 {
        assert(all =~= first);
        assert(singbox::sip008_nodes(all) =~= singbox::sip008_nodes(first)
            + singbox::sip008_nodes(second));
    } else {
        law_servers_in_order(first, second.drop_last());
        assert(all.drop_last() =~= first + second.drop_last());
        assert(singbox::sip008_nodes(all) =~= singbox::sip008_nodes(first)
            + singbox::sip008_nodes(second));
    }
}

/// A list of one server entry has its node, where it is read as one, and none
/// otherwise.
pub proof fn law_one_server(value: JsonValue)
    ensures
        singbox::sip008_nodes(seq![value]) == match value {
            JsonValue::Object(object) => match singbox::sip008_node(object) {
                Ok(node) => seq![node],
                _ => Seq::empty(),
            },
            _ => Seq::empty(),
        },
{
    assert(seq![value].drop_last() =~= Seq::empty());
    assert(singbox::sip008_nodes(Seq::empty()) == Seq::<NodeView>::empty());
    if let JsonValue::Object(object) = value {
        if let Ok(node) = singbox::sip008_node(object) {
            assert(Seq::<NodeView>::empty().push(node) =~= seq![node]);
        }
    }
}

/// A sing-box or SIP008 subscription is refused just where none of its entries
/// is read as a node, and else has the nodes of them all.
pub proof fn law_json_subscriptions(list: Seq<JsonValue>)
    ensures
        singbox::sing_box_subscription(list) is Err <==> singbox::sing_box_nodes(list)
            == Seq::<NodeView>::empty(),
        singbox::sing_box_subscription(list) matches Ok(nodes) ==> nodes
            == singbox::sing_box_nodes(list),
        singbox::sip008_subscription(list) is Err <==> singbox::sip008_nodes(list) == Seq::<
            NodeView,
        >::empty(),
        singbox::sip008_subscription(list) matches Ok(nodes) ==> nodes == singbox::sip008_nodes(
            list,
        ),
{
    assert(singbox::sing_box_nodes(list).len() == 0 ==> singbox::sing_box_nodes(list)
        =~= Seq::empty());
    assert(singbox::sip008_nodes(list).len() == 0 ==> singbox::sip008_nodes(list) =~= Seq::empty());
}

/// The node of a server has every field of it that has a text as a parameter, and
/// the method and the password as they are.
pub proof fn law_sip008_params(
    object: Seq<(Seq<char>, JsonValue)>,
    node: NodeView,
    key: Seq<char>,
)
    requires
        singbox::sip008_node(object) == Ok::<NodeView, Seq<char>>(node),
        key != "method"@,
        key != "password"@,
    ensures
        strmap::value_of(node.params, key) == strmap::value_of(fields::scalar_fields(object), key),
{
}

/// A server is refused for the first that it lacks of its host, its port, its
/// method and its password.
pub proof fn law_sip008_refusal(object: Seq<(Seq<char>, JsonValue)>, message: Seq<char>)
    requires
        singbox::sip008_node(object) == Err::<NodeView, Seq<char>>(message),
    ensures
        ({
            let says = |key: Seq<char>| fields::string_field(object, key) is Some;
            let has_port = fields::port_of(json::entry(object, "server_port"@)) is Some;
            message == if !says("server"@) {
                "sip008 server missing host"@
            } else if !has_port {
                "sip008 server missing port"@
            } else if !says("method"@) {
                "sip008 server missing method"@
            } else {
                "sip008 server missing password"@
            }
        }),
{
}

/// A document is read by its `outbounds` where that is a list, else by its
/// `servers` where that is one, and else refused; a list without a node is refused
/// by its kind.
pub proof fn law_json_documents(value: JsonValue)
    ensures
        ({
            let read = parser::json_subscription(value);
            let outbounds = json::member(value, "outbounds"@);
            let servers = json::member(value, "servers"@);
            let has_outbounds = outbounds matches Some(JsonValue::Array(_));
            let has_servers = servers matches Some(JsonValue::Array(_));
            &&& outbounds matches Some(JsonValue::Array(list)) ==> read
                == singbox::sing_box_subscription(list)
            &&& !has_outbounds ==> (servers matches Some(JsonValue::Array(list)) ==> read
                == singbox::sip008_subscription(list))
            &&& !has_outbounds && !has_servers ==> read == Err::<Seq<NodeView>, Seq<char>>(
                "unsupported JSON subscription format"@,
            )
        }),
{
}

/// Lists without a node are refused by their kind.
pub proof fn law_empty_documents(list: Seq<JsonValue>)
    ensures
        singbox::sing_box_subscription(list) matches Err(message) ==> message
            == "sing-box subscription did not contain supported outbounds"@,
        singbox::sip008_subscription(list) matches Err(message) ==> message
            == "sip008 subscription did not contain supported servers"@,
{
}

/// Whether a link is written: its scheme, its credentials, `@`, the server, a query
/// where there is something to ask, and the name behind `#`.
pub open spec fn is_written(
    uri: Seq<char>,
    start: Seq<char>,
    node: NodeView,
    query: Map<Seq<char>, Seq<char>>,
) -> bool {
    let asked = codec::form_query(strmap::ordered_pairs(query));
    let name = codec::percent_encoded(encode_utf8(node.raw_name), Place::Fragment);
    let server = node.host + seq![':'] + text::decimal(node.port as nat);
    uri == start + seq!['@'] + server + (if asked.len() > 0 {
        seq!['?'] + asked
    } else {
        asked
    }) + seq!['#'] + name
}

/// A text of credentials, escaped.
pub open spec fn as_userinfo(text: Option<Seq<char>>) -> Seq<char> {
    codec::percent_encoded(encode_utf8(text->0), Place::Userinfo)
}

/// The link of an outbound is written from its credentials, its server and its
/// name, whatever these hold.
pub proof fn law_outbound_link_text(object: Seq<(Seq<char>, JsonValue)>, node: NodeView)
    requires
        singbox::sing_box_node(object) == Ok::<Option<NodeView>, Seq<char>>(Some(node)),
    ensures
        ({
            let said = |key: Seq<char>| strmap::value_of(node.params, key);
            let uri = node.original_uri;
            match node.protocol {
                Protocol::Vless => exists|query: Map<Seq<char>, Seq<char>>| #[trigger]
                    is_written(uri, "vless://"@ + as_userinfo(said("id"@)), node, query),
                Protocol::Trojan => exists|query: Map<Seq<char>, Seq<char>>| #[trigger]
                    is_written(uri, "trojan://"@ + as_userinfo(said("password"@)), node, query),
                Protocol::Hysteria2 => exists|query: Map<Seq<char>, Seq<char>>| #[trigger]
                    is_written(uri, "hysteria2://"@ + as_userinfo(said("password"@)), node, query),
                Protocol::Tuic => exists|query: Map<Seq<char>, Seq<char>>| #[trigger]
                    is_written(
                        uri,
                        "tuic://"@ + as_userinfo(said("uuid"@)) + seq![':'] + as_userinfo(
                            said("password"@),
                        ),
                        node,
                        query,
                    ),
                _ => true,
            }
        }),
{
    let outbound = singbox::outbound_of(object, node.host, node.port);
    assert(!(node.protocol is ShadowsocksR)) by {
        names::lemma_types();
    }
    lemma_linked_said(node.protocol, object, outbound);
    let said = |key: Seq<char>| strmap::value_of(node.params, key);
    let uri = node.original_uri;
    match node.protocol {
        Protocol::Vless => {
            let query = singbox::vless_query(object, outbound);
            lemma_written("vless"@, "vless://"@, said("id"@)->0, None, node, query);
            assert(is_written(uri, "vless://"@ + as_userinfo(said("id"@)), node, query));
        },
        Protocol::Trojan => {
            let query = singbox::trojan_query(outbound);
            lemma_written("trojan"@, "trojan://"@, said("password"@)->0, None, node, query);
            assert(is_written(uri, "trojan://"@ + as_userinfo(said("password"@)), node, query));
        },
        Protocol::Hysteria2 => {
            let query = singbox::hysteria2_query(object, outbound);
            lemma_written("hysteria2"@, "hysteria2://"@, said("password"@)->0, None, node, query);
            assert(is_written(uri, "hysteria2://"@ + as_userinfo(said("password"@)), node, query));
        },
        Protocol::Tuic => {
            let query = singbox::tuic_query(object, outbound);
            lemma_written("tuic"@, "tuic://"@, said("uuid"@)->0, said("password"@), node, query);
            assert(is_written(
                uri,
                "tuic://"@ + as_userinfo(said("uuid"@)) + seq![':'] + as_userinfo(
                    said("password"@),
                ),
                node,
                query,
            ));
        },
        _ => {},
    }
}

/// A link of a URL protocol, part by part.
proof fn lemma_written(
    scheme: Seq<char>,
    start: Seq<char>,
    username: Seq<char>,
    password: Option<Seq<char>>,
    node: NodeView,
    query: Map<Seq<char>, Seq<char>>,
)
    requires
        scheme == "vless"@ && start == "vless://"@ || scheme == "trojan"@ && start == "trojan://"@
            || scheme == "hysteria2"@ && start == "hysteria2://"@ || scheme == "tuic"@ && start
            == "tuic://"@,
    ensures
        is_written(
            link::standard_uri(
                scheme,
                username,
                password,
                node.host,
                node.port,
                query,
                node.raw_name,
            ),
            match password {
                Some(password) => start + as_userinfo(Some(username)) + seq![':'] + as_userinfo(
                    Some(password),
                ),
                None => start + as_userinfo(Some(username)),
            },
            node,
            query,
        ),
{
    reveal_strlit("vless");
    reveal_strlit("trojan");
    reveal_strlit("hysteria2");
    reveal_strlit("tuic");
    reveal_strlit("vless://");
    reveal_strlit("trojan://");
    reveal_strlit("hysteria2://");
    reveal_strlit("tuic://");
    reveal_strlit("://");
    reveal_strlit("@");
    reveal_strlit(":");
    reveal_strlit("#");
    reveal_strlit("?");
    assert(scheme + "://"@ =~= start);
    assert("@"@ =~= seq!['@'] && ":"@ =~= seq![':'] && "#"@ =~= seq!['#'] && "?"@ =~= seq!['?']);
    let asked = codec::form_query(strmap::ordered_pairs(query));
    let name = codec::percent_encoded(encode_utf8(node.raw_name), Place::Fragment);
    let server = node.host + seq![':'] + text::decimal(node.port as nat);
    let suffix = link::query_suffix(query);
    let user = link::userinfo(username, password);
    let first = match password {
        Some(password) => start + as_userinfo(Some(username)) + seq![':'] + as_userinfo(
            Some(password),
        ),
        None => start + as_userinfo(Some(username)),
    };
    assert(start + user =~= first);
    let uri = link::standard_uri(
        scheme,
        username,
        password,
        node.host,
        node.port,
        query,
        node.raw_name,
    );
    assert(uri =~= first + seq!['@'] + server + suffix + seq!['#'] + name);
    if asked.len() == 0 {
        assert(suffix =~= asked);
    }
}

/// The start of a Shadowsocks link: base64, in its standard form with padding, of
/// the method, `:` and the password.
pub open spec fn ss_start(node: NodeView) -> Seq<char> {
    "ss://"@ + codec::base64_encoded(
        (Base64Form { url_safe: false, padded: true }),
        encode_utf8(node.params["method"@] + seq![':'] + node.params["password"@]),
    )
}

/// A Shadowsocks link is written from the method, the password, the server and the
/// name, whatever these hold, for outbounds and servers alike.
pub proof fn law_shadowsocks_link_text(object: Seq<(Seq<char>, JsonValue)>, node: NodeView)
    requires
        singbox::sip008_node(object) == Ok::<NodeView, Seq<char>>(node) || (singbox::sing_box_node(
            object,
        ) == Ok::<Option<NodeView>, Seq<char>>(Some(node)) && node.protocol is Shadowsocks),
    ensures
        exists|query: Map<Seq<char>, Seq<char>>| #[trigger]
            is_written(node.original_uri, ss_start(node), node, query),
{
    names::lemma_ss_keys();
    names::lemma_types();
    reveal_strlit("@");
    reveal_strlit(":");
    reveal_strlit("#");
    reveal_strlit("?");
    assert("@"@ =~= seq!['@'] && ":"@ =~= seq![':'] && "#"@ =~= seq!['#'] && "?"@ =~= seq!['?']);
    let query = link::ss_query(node.params);
    let asked = codec::form_query(strmap::ordered_pairs(query));
    let name = codec::percent_encoded(encode_utf8(node.raw_name), Place::Fragment);
    let server = node.host + seq![':'] + text::decimal(node.port as nat);
    let suffix = link::query_suffix(query);
    assert(node.original_uri =~= ss_start(node) + seq!['@'] + server + suffix + seq!['#'] + name);
    if asked.len() == 0 {
        assert(suffix =~= asked);
    }
    assert(is_written(node.original_uri, ss_start(node), node, query));
}

} // verus!
