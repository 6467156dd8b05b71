//! Nodes out of JSON documents: sing-box outbounds and SIP008 servers.

use vstd::prelude::*;
use vstd::string::*;
use vstd::utf8::*;

use crate::codec;
use crate::failure;
use crate::failure::Failure;
use crate::fields;
use crate::items;
use crate::json;
use crate::json::{Json, JsonValue};
use crate::link;
use crate::node;
use crate::node::{Node, NodeView, Protocol};
use crate::roundtrip;
use crate::strmap;
use crate::strmap::StrMap;
use crate::text;
use crate::uri;

verus! {

// ---------------------------------------------------------------------------
// What an outbound says, whatever its protocol
// ---------------------------------------------------------------------------

/// A text, or another where there is none.
pub open spec fn text_or(text: Option<Seq<char>>, other: Seq<char>) -> Seq<char> {
    match text {
        Some(text) => text,
        None => other,
    }
}

/// A text, or another where there is none.
fn or_other(text: Option<String>, other: &str) -> (result: String)
    ensures
        result@ == text_or(text::text_view(text), other@),
{
    match text {
        Some(text) => text,
        None => other.to_string(),
    }
}

/// The fields of an outbound that links are made of.
pub struct OutboundView {
    pub tag: Seq<char>,
    pub host: Seq<char>,
    pub port: u16,
    pub network: Option<Seq<char>>,
    pub path: Option<Seq<char>>,
    pub host_header: Option<Seq<char>>,
    pub service_name: Option<Seq<char>>,
    pub mode: Option<Seq<char>>,
    pub header_type: Option<Seq<char>>,
    pub security: Seq<char>,
    pub sni: Option<Seq<char>>,
    pub alpn: Option<Seq<char>>,
}

/// The fields of an outbound that links are made of.
#[derive(Debug)]
pub struct Outbound {
    pub tag: String,
    pub host: String,
    pub port: u16,
    pub network: Option<String>,
    pub path: Option<String>,
    pub host_header: Option<String>,
    pub service_name: Option<String>,
    pub mode: Option<String>,
    pub header_type: Option<String>,
    pub security: String,
    pub sni: Option<String>,
    pub alpn: Option<String>,
}

impl View for Outbound {
    type V = OutboundView;

    open spec fn view(&self) -> OutboundView {
        OutboundView {
            tag: self.tag@,
            host: self.host@,
            port: self.port,
            network: text::text_view(self.network),
            path: text::text_view(self.path),
            host_header: text::text_view(self.host_header),
            service_name: text::text_view(self.service_name),
            mode: text::text_view(self.mode),
            header_type: text::text_view(self.header_type),
            security: self.security@,
            sni: text::text_view(self.sni),
            alpn: text::text_view(self.alpn),
        }
    }
}

/// The object under a key, with no entries where there is none.
pub open spec fn section(object: Seq<(Seq<char>, JsonValue)>, key: Seq<char>) -> Seq<
    (Seq<char>, JsonValue),
> {
    fields::entries_or_none(json::object_of(json::entry(object, key)))
}

/// Whether an outbound enables TLS.
pub open spec fn tls_enabled(object: Seq<(Seq<char>, JsonValue)>) -> bool {
    fields::flag_of(json::entry(section(object, "tls"@), "enabled"@)) == Some(true)
}

/// The security of an outbound: `tls` where TLS is enabled, else what it says.
pub open spec fn security_of(object: Seq<(Seq<char>, JsonValue)>) -> Seq<char> {
    if tls_enabled(object) {
        "tls"@
    } else {
        text_or(fields::string_field(object, "security"@), "none"@)
    }
}

/// The fields of an outbound at a server.
pub open spec fn outbound_of(
    object: Seq<(Seq<char>, JsonValue)>,
    host: Seq<char>,
    port: u16,
) -> OutboundView {
    let transport = section(object, "transport"@);
    let tls = section(object, "tls"@);
    OutboundView {
        tag: text_or(fields::string_field(object, "tag"@), "Unnamed"@),
        host,
        port,
        network: fields::string_field(transport, "type"@),
        path: fields::transport_path(transport),
        host_header: fields::transport_host(transport),
        service_name: fields::string_field(transport, "service_name"@),
        mode: fields::string_field(transport, "mode"@),
        header_type: fields::header_type_of(transport),
        security: security_of(object),
        sni: fields::string_field(tls, "server_name"@),
        alpn: fields::string_field(tls, "alpn"@),
    }
}

/// The entries of the object under a key, `none` where there is no such object.
fn find_section<'a>(
    object: &'a Vec<(String, Json)>,
    key: &str,
    none: &'a Vec<(String, Json)>,
) -> (entries: &'a Vec<(String, Json)>)
    requires
        none@.len() == 0,
    ensures
        json::entries_view(entries@) == section(json::entries_view(object@), key@),
{
    match json::as_object(json::find(object, key)) {
        Some(entries) => entries,
        None => {
            assert(json::entries_view(none@) =~= Seq::empty());
            none
        },
    }
}

/// The fields of an outbound at a server.
pub fn read_outbound(object: &Vec<(String, Json)>, host: String, port: u16) -> (outbound: Outbound)
    ensures
        outbound@ == outbound_of(json::entries_view(object@), host@, port),
{
    let none: Vec<(String, Json)> = Vec::new();
    let transport = find_section(object, "transport", &none);
    let tls = find_section(object, "tls", &none);
    let security = match fields::get_bool(tls, "enabled") {
        Some(true) => "tls".to_string(),
        _ => or_other(fields::get_string(object, "security"), "none"),
    };
    Outbound {
        tag: or_other(fields::get_string(object, "tag"), "Unnamed"),
        host,
        port,
        network: fields::get_string(transport, "type"),
        path: fields::extract_transport_path(transport),
        host_header: fields::extract_transport_host(transport),
        service_name: fields::get_string(transport, "service_name"),
        mode: fields::get_string(transport, "mode"),
        header_type: fields::extract_header_type(transport),
        security,
        sni: fields::get_string(tls, "server_name"),
        alpn: fields::get_string(tls, "alpn"),
    }
}

/// The parameters that every outbound gives its node: its scalars, its
/// transport and TLS sections with the path to each value as its name, and the
/// names by which links call them.
pub open spec fn common_params(
    object: Seq<(Seq<char>, JsonValue)>,
    outbound: OutboundView,
) -> Map<Seq<char>, Seq<char>> {
    let scalars = fields::scalar_fields(object);
    let with_transport = fields::flattened_part(
        "transport"@,
        json::entry(object, "transport"@),
        scalars,
    );
    let with_tls = fields::flattened_part("tls"@, json::entry(object, "tls"@), with_transport);
    let p1 = strmap::with_some(with_tls, "net"@, outbound.network);
    let p2 = strmap::with_some(p1, "type"@, outbound.network);
    let p3 = strmap::with_some(p2, "path"@, outbound.path);
    let p4 = strmap::with_some(p3, "host"@, outbound.host_header);
    let p5 = strmap::with_some(p4, "serviceName"@, outbound.service_name);
    let p6 = strmap::with_some(p5, "mode"@, outbound.mode);
    let p7 = strmap::with_some(p6, "headerType"@, outbound.header_type);
    let p8 = p7.insert("security"@, outbound.security);
    let p9 = strmap::with_some(p8, "sni"@, outbound.sni);
    strmap::with_some(p9, "alpn"@, outbound.alpn)
}

/// The parameters that every outbound gives its node.
pub fn read_common_params(object: &Vec<(String, Json)>, outbound: &Outbound) -> (params: StrMap<String>)
    ensures
        params@ == common_params(json::entries_view(object@), outbound@),
{
    let mut params = fields::collect_scalar_fields(Some(object));
    fields::flatten_value("transport", json::find(object, "transport"), &mut params);
    fields::flatten_value("tls", json::find(object, "tls"), &mut params);
    strmap::insert_some(&mut params, "net", &outbound.network);
    strmap::insert_some(&mut params, "type", &outbound.network);
    strmap::insert_some(&mut params, "path", &outbound.path);
    strmap::insert_some(&mut params, "host", &outbound.host_header);
    strmap::insert_some(&mut params, "serviceName", &outbound.service_name);
    strmap::insert_some(&mut params, "mode", &outbound.mode);
    strmap::insert_some(&mut params, "headerType", &outbound.header_type);
    strmap::put(&mut params, "security", outbound.security.as_str());
    strmap::insert_some(&mut params, "sni", &outbound.sni);
    strmap::insert_some(&mut params, "alpn", &outbound.alpn);
    params
}

// ---------------------------------------------------------------------------
// What it says for its protocol: the rest of the parameters, and a link
// ---------------------------------------------------------------------------

/// Whether reading the link of a Shadowsocks node gives the node back, with
/// those of its parameters that links carry.
pub open spec fn ss_reads_back(node: NodeView) -> bool {
    uri::uri_node(node.original_uri) == Ok::<NodeView, Seq<char>>(
        link::ss_node(
            node.host,
            node.port,
            node.params["method"@],
            node.params["password"@],
            node.params,
            node.raw_name,
            node.original_uri,
        ),
    )
}

/// Whether the server and the method of a Shadowsocks node can stand in a link
/// as they are.
pub open spec fn fits_ss_link(node: NodeView) -> bool {
    &&& link::is_plain_host(node.host)
    &&& !node.params["method"@].contains(':')
}

/// The view of parameters and a link.
pub open spec fn linked_view(result: Result<(StrMap<String>, String), Failure>) -> Result<
    (Map<Seq<char>, Seq<char>>, Seq<char>),
    Seq<char>,
> {
    match result {
        Ok((params, uri)) => Ok((params@, uri@)),
        Err(failure) => Err(failure@),
    }
}

/// The identity of an outbound.
pub open spec fn identity(object: Seq<(Seq<char>, JsonValue)>) -> Option<Seq<char>> {
    fields::or_text(fields::string_field(object, "uuid"@), fields::string_field(object, "id"@))
}

/// The identity of an outbound.
fn get_identity(object: &Vec<(String, Json)>) -> (id: Option<String>)
    ensures
        text::text_view(id) == identity(json::entries_view(object@)),
{
    let uuid = fields::get_string(object, "uuid");
    if uuid.is_some() {
        uuid
    } else {
        fields::get_string(object, "id")
    }
}

/// The document that the link of a vmess outbound holds.
pub open spec fn vmess_payload(
    object: Seq<(Seq<char>, JsonValue)>,
    outbound: OutboundView,
    id: Seq<char>,
    aid: Seq<char>,
) -> Map<Seq<char>, Seq<char>> {
    let payload = Map::<Seq<char>, Seq<char>>::empty().insert("v"@, "2"@).insert(
        "ps"@,
        outbound.tag,
    ).insert("add"@, outbound.host).insert("port"@, text::decimal(outbound.port as nat)).insert(
        "id"@,
        id,
    ).insert("aid"@, aid).insert(
        "scy"@,
        text_or(fields::string_field(object, "security"@), "auto"@),
    ).insert("net"@, text_or(outbound.network, "tcp"@)).insert(
        "type"@,
        text_or(outbound.header_type, "none"@),
    ).insert("host"@, text_or(outbound.host_header, ""@)).insert(
        "path"@,
        text_or(outbound.path, ""@),
    ).insert(
        "tls"@,
        if outbound.security == "tls"@ {
            "tls"@
        } else {
            ""@
        },
    );
    strmap::with_some(payload, "sni"@, outbound.sni)
}

/// The document that the link of a vmess outbound holds.
pub fn read_vmess_payload(
    object: &Vec<(String, Json)>,
    outbound: &Outbound,
    id: &str,
    aid: &str,
) -> (payload: StrMap<String>)
    ensures
        payload@ == vmess_payload(json::entries_view(object@), outbound@, id@, aid@),
{
    let mut payload: StrMap<String> = StrMap::new();
    strmap::put(&mut payload, "v", "2");
    strmap::put(&mut payload, "ps", outbound.tag.as_str());
    strmap::put(&mut payload, "add", outbound.host.as_str());
    strmap::put(&mut payload, "port", text::decimal_text(outbound.port as u64).as_str());
    strmap::put(&mut payload, "id", id);
    strmap::put(&mut payload, "aid", aid);
    let cipher = or_other(fields::get_string(object, "security"), "auto");
    strmap::put(&mut payload, "scy", cipher.as_str());
    let network = or_other(text::copy_text(&outbound.network), "tcp");
    strmap::put(&mut payload, "net", network.as_str());
    let header_type = or_other(text::copy_text(&outbound.header_type), "none");
    strmap::put(&mut payload, "type", header_type.as_str());
    let host_header = or_other(text::copy_text(&outbound.host_header), "");
    strmap::put(&mut payload, "host", host_header.as_str());
    let path = or_other(text::copy_text(&outbound.path), "");
    strmap::put(&mut payload, "path", path.as_str());
    let tls = if text::same_text(outbound.security.as_str(), "tls") {
        "tls"
    } else {
        ""
    };
    strmap::put(&mut payload, "tls", tls);
    strmap::insert_some(&mut payload, "sni", &outbound.sni);
    payload
}

/// What a vmess outbound adds.
pub open spec fn vmess_outbound(
    object: Seq<(Seq<char>, JsonValue)>,
    outbound: OutboundView,
    params: Map<Seq<char>, Seq<char>>,
) -> Result<(Map<Seq<char>, Seq<char>>, Seq<char>), Seq<char>> {
    match identity(object) {
        None => Err("vmess outbound missing uuid"@),
        Some(id) => {
            let aid = text_or(fields::string_field(object, "alter_id"@), "0"@);
            let document = json::object_text(
                strmap::ordered_pairs(vmess_payload(object, outbound, id, aid)),
            );
            Ok(
                (
                    params.insert("id"@, id).insert("aid"@, aid),
                    link::vmess_uri(codec::standard_encoded(encode_utf8(document))),
                ),
            )
        },
    }
}

/// What reading the link of a vmess outbound gives: the server of the outbound,
/// with the document in the link for parameters, under the name that the tag
/// writes.
pub open spec fn vmess_read_back(
    object: Seq<(Seq<char>, JsonValue)>,
    outbound: OutboundView,
    id: Seq<char>,
    uri: Seq<char>,
) -> NodeView {
    node::unprobed_node(
        Protocol::Vmess,
        outbound.host,
        outbound.port,
        vmess_payload(
            object,
            outbound,
            id,
            text_or(fields::string_field(object, "alter_id"@), "0"@),
        ),
        uri::escaped_name(Some(outbound.tag)),
        uri,
    )
}

/// The entries of a document with text values are those that it was made of.
proof fn lemma_text_entry(pairs: Seq<(Seq<char>, Seq<char>)>, i: int)
    requires
        strmap::strictly_ordered(pairs),
        0 <= i < pairs.len(),
    ensures
        json::member(json::text_object(pairs), pairs[i].0) == Some(JsonValue::Text(pairs[i].1)),
    decreases pairs.len(),
{
    let entries = pairs.map_values(
        |pair: (Seq<char>, Seq<char>)| (pair.0, JsonValue::Text(pair.1)),
    );
    assert(entries[0] == (pairs[0].0, JsonValue::Text(pairs[0].1)));
    if i > 0 {
        let rest = pairs.skip(1);
        assert(strmap::text_before(pairs[0].0, pairs[i].0));
        strmap::law_text_order_total(pairs[0].0, pairs[0].0);
        assert(pairs[0].0 != pairs[i].0);
        assert forall|a: int, b: int| 0 <= a < b < rest.len() implies strmap::text_before(
            #[trigger] rest[a].0,
            #[trigger] rest[b].0,
        ) by {
            assert(rest[a] == pairs[a + 1] && rest[b] == pairs[b + 1]);
        }
        lemma_text_entry(rest, i - 1);
        assert(rest[i - 1] == pairs[i]);
        assert(entries.skip(1) =~= rest.map_values(
            |pair: (Seq<char>, Seq<char>)| (pair.0, JsonValue::Text(pair.1)),
        ));
    }
}

/// The scalars of a document with text values are its entries.
proof fn lemma_text_scalars(pairs: Seq<(Seq<char>, Seq<char>)>)
    ensures
        fields::scalar_fields(
            pairs.map_values(|pair: (Seq<char>, Seq<char>)| (pair.0, JsonValue::Text(pair.1))),
        ) == strmap::pair_map(pairs),
    decreases pairs.len(),
{
    let entries = pairs.map_values(
        |pair: (Seq<char>, Seq<char>)| (pair.0, JsonValue::Text(pair.1)),
    );
    if pairs.len() > 0 {
        lemma_text_scalars(pairs.drop_last());
        assert(entries.drop_last() =~= pairs.drop_last().map_values(
            |pair: (Seq<char>, Seq<char>)| (pair.0, JsonValue::Text(pair.1)),
        ));
        assert(entries.last() == (pairs.last().0, JsonValue::Text(pairs.last().1)));
    }
}

/// The value under a key of a document that was made of `fields`.
proof fn lemma_text_member(fields: Map<Seq<char>, Seq<char>>, key: Seq<char>)
    requires
        fields.dom().finite(),
        fields.contains_key(key),
    ensures
        json::member(json::text_object(strmap::ordered_pairs(fields)), key) == Some(
            JsonValue::Text(fields[key]),
        ),
{
    let pairs = strmap::ordered_pairs(fields);
    strmap::law_ordered_pairs_exist(fields);
    strmap::lemma_pair_map_keys(pairs, key);
    let i = choose|i: int| 0 <= i < pairs.len() && (#[trigger] pairs[i]).0 == key;
    strmap::lemma_pair_map_value(pairs, i);
    lemma_text_entry(pairs, i);
}

/// The keys of the document of a vmess link are made of letters.
proof fn lemma_vmess_keys(
    object: Seq<(Seq<char>, JsonValue)>,
    outbound: OutboundView,
    id: Seq<char>,
    aid: Seq<char>,
)
    ensures
        json::plain_keys(strmap::ordered_pairs(vmess_payload(object, outbound, id, aid))),
{
    let payload = vmess_payload(object, outbound, id, aid);
    let pairs = strmap::ordered_pairs(payload);
    reveal_strlit("v");
    reveal_strlit("ps");
    reveal_strlit("add");
    reveal_strlit("port");
    reveal_strlit("id");
    reveal_strlit("aid");
    reveal_strlit("scy");
    reveal_strlit("net");
    reveal_strlit("type");
    reveal_strlit("host");
    reveal_strlit("path");
    reveal_strlit("tls");
    reveal_strlit("sni");
    strmap::law_ordered_pairs_exist(payload);
    assert forall|i: int| 0 <= i < pairs.len() implies json::is_plain_key(
        #[trigger] pairs[i].0,
    ) by {
        strmap::lemma_pair_map_keys(pairs, pairs[i].0);
        assert(payload.contains_key(pairs[i].0));
    }
}

/// Reading the document of a vmess link gives back what it was made of.
proof fn lemma_vmess_payload(
    object: Seq<(Seq<char>, JsonValue)>,
    outbound: OutboundView,
    id: Seq<char>,
    uri: Seq<char>,
)
    requires
        outbound.host.len() > 0,
    ensures
        uri::vmess_node(
            uri,
            json::text_object(
                strmap::ordered_pairs(
                    vmess_payload(
                        object,
                        outbound,
                        id,
                        text_or(fields::string_field(object, "alter_id"@), "0"@),
                    ),
                ),
            ),
        ) == Ok::<NodeView, Seq<char>>(vmess_read_back(object, outbound, id, uri)),
{
    let aid = text_or(fields::string_field(object, "alter_id"@), "0"@);
    let payload = vmess_payload(object, outbound, id, aid);
    let pairs = strmap::ordered_pairs(payload);
    let value = json::text_object(pairs);
    reveal_strlit("v");
    reveal_strlit("ps");
    reveal_strlit("add");
    reveal_strlit("port");
    reveal_strlit("id");
    reveal_strlit("aid");
    reveal_strlit("scy");
    reveal_strlit("net");
    reveal_strlit("type");
    reveal_strlit("host");
    reveal_strlit("path");
    reveal_strlit("tls");
    reveal_strlit("sni");
    assert("add"@[1] == 'd' && "aid"@[1] == 'i');
    assert("host"@[0] == 'h' && "port"@[0] == 'p' && "path"@[1] == 'a' && "port"@[1] == 'o'
        && "type"@[0] == 't');
    assert("net"@[0] == 'n' && "tls"@[0] == 't' && "sni"@[0] == 's' && "scy"@[0] == 's'
        && "aid"@[0] == 'a' && "add"@[0] == 'a');
    assert("ps"@[0] == 'p' && "id"@[0] == 'i');
    assert(payload["add"@] == outbound.host);
    assert(payload["port"@] == text::decimal(outbound.port as nat));
    assert(payload["ps"@] == outbound.tag);
    assert(payload["id"@] == id);
    assert(payload["aid"@] == aid);
    lemma_text_member(payload, "add"@);
    lemma_text_member(payload, "port"@);
    lemma_text_member(payload, "ps"@);
    lemma_text_member(payload, "id"@);
    lemma_text_member(payload, "aid"@);
    lemma_text_member(payload, "net"@);
    lemma_text_member(payload, "path"@);
    lemma_text_member(payload, "host"@);
    text::lemma_decimal_digits(outbound.port as nat);
    text::law_decimal_round_trip(outbound.port as nat, u16::MAX as nat);
    strmap::law_ordered_pairs_exist(payload);
    lemma_text_scalars(pairs);
    assert(uri::vmess_params(value) =~= payload);
}

/// A link that starts with `vmess://` is read as a vmess link.
proof fn lemma_vmess_scheme(encoded: Seq<char>)
    ensures
        uri::uri_node(link::vmess_uri(encoded)) == uri::vmess_link(
            link::vmess_uri(encoded),
            encoded,
        ),
{
    let whole = link::vmess_uri(encoded);
    assert("vmess://"@.is_prefix_of(whole));
    assert(whole.skip("vmess://"@.len() as int) =~= encoded);
}

/// Adds what a vmess outbound adds.
fn link_vmess(object: &Vec<(String, Json)>, outbound: &Outbound, params: StrMap<String>) -> (result:
    Result<(StrMap<String>, String), Failure>)
    requires
        outbound.host@.len() > 0,
    ensures
        linked_view(result) == vmess_outbound(json::entries_view(object@), outbound@, params@),
        result matches Ok((_, uri)) ==> uri::uri_node(uri@) == Ok::<NodeView, Seq<char>>(
            vmess_read_back(
                json::entries_view(object@),
                outbound@,
                identity(json::entries_view(object@))->0,
                uri@,
            ),
        ),
{
    let mut params = params;
    let id = match get_identity(object) {
        Some(id) => id,
        None => {
            return Err(Failure::of("vmess outbound missing uuid"));
        },
    };
    let aid = or_other(fields::get_string(object, "alter_id"), "0");
    let payload = read_vmess_payload(object, outbound, id.as_str(), aid.as_str());
    let document = json::text_object_document(&payload);
    strmap::put(&mut params, "id", id.as_str());
    strmap::put(&mut params, "aid", aid.as_str());
    let encoded = codec::encode_base64(document.as_str());
    let uri = link::build_vmess_uri(encoded.as_str());
    proof {
        codec::law_utf8_round_trip(document@);
        roundtrip::law_base64_round_trip(codec::standard_form(), encode_utf8(document@));
        lemma_vmess_scheme(encoded@);
        lemma_vmess_keys(json::entries_view(object@), outbound@, id@, aid@);
        lemma_vmess_payload(json::entries_view(object@), outbound@, id@, uri@);
    }
    Ok((params, uri))
}

/// The query of the link of a vless outbound.
pub open spec fn vless_query(
    object: Seq<(Seq<char>, JsonValue)>,
    outbound: OutboundView,
) -> Map<Seq<char>, Seq<char>> {
    let q1 = strmap::with_some(Map::empty(), "type"@, outbound.network);
    let q2 = strmap::with_some(q1, "path"@, outbound.path);
    let q3 = strmap::with_some(q2, "host"@, outbound.host_header);
    let q4 = strmap::with_some(q3, "serviceName"@, outbound.service_name);
    let q5 = strmap::with_some(q4, "mode"@, outbound.mode);
    let q6 = strmap::with_some(q5, "headerType"@, outbound.header_type);
    let q7 = strmap::with_some(q6, "flow"@, fields::string_field(object, "flow"@));
    let q8 = q7.insert("security"@, outbound.security);
    let q9 = strmap::with_some(q8, "sni"@, outbound.sni);
    strmap::with_some(q9, "alpn"@, outbound.alpn)
}

/// What a vless outbound adds.
pub open spec fn vless_outbound(
    object: Seq<(Seq<char>, JsonValue)>,
    outbound: OutboundView,
    params: Map<Seq<char>, Seq<char>>,
) -> Result<(Map<Seq<char>, Seq<char>>, Seq<char>), Seq<char>> {
    match identity(object) {
        None => Err("vless outbound missing uuid"@),
        Some(id) => Ok(
            (
                params.insert("id"@, id),
                link::standard_uri(
                    "vless"@,
                    id,
                    None,
                    outbound.host,
                    outbound.port,
                    vless_query(object, outbound),
                    outbound.tag,
                ),
            ),
        ),
    }
}

/// Adds what a vless outbound adds.
fn link_vless(object: &Vec<(String, Json)>, outbound: &Outbound, params: StrMap<String>) -> (result:
    Result<(StrMap<String>, String), Failure>)
    ensures
        linked_view(result) == vless_outbound(json::entries_view(object@), outbound@, params@),
{
    let mut params = params;
    let id = match get_identity(object) {
        Some(id) => id,
        None => {
            return Err(Failure::of("vless outbound missing uuid"));
        },
    };
    strmap::put(&mut params, "id", id.as_str());
    let mut query: StrMap<String> = StrMap::new();
    strmap::insert_some(&mut query, "type", &outbound.network);
    strmap::insert_some(&mut query, "path", &outbound.path);
    strmap::insert_some(&mut query, "host", &outbound.host_header);
    strmap::insert_some(&mut query, "serviceName", &outbound.service_name);
    strmap::insert_some(&mut query, "mode", &outbound.mode);
    strmap::insert_some(&mut query, "headerType", &outbound.header_type);
    strmap::insert_some(&mut query, "flow", &fields::get_string(object, "flow"));
    strmap::put(&mut query, "security", outbound.security.as_str());
    strmap::insert_some(&mut query, "sni", &outbound.sni);
    strmap::insert_some(&mut query, "alpn", &outbound.alpn);
    let uri = link::build_standard_uri(
        "vless",
        id.as_str(),
        None,
        outbound.host.as_str(),
        outbound.port,
        &query,
        outbound.tag.as_str(),
    );
    Ok((params, uri))
}

/// The query of the link of a trojan outbound.
pub open spec fn trojan_query(outbound: OutboundView) -> Map<Seq<char>, Seq<char>> {
    let q1 = strmap::with_some(Map::empty(), "type"@, outbound.network);
    let q2 = strmap::with_some(q1, "path"@, outbound.path);
    let q3 = strmap::with_some(q2, "host"@, outbound.host_header);
    let q4 = strmap::with_some(q3, "sni"@, outbound.sni);
    strmap::with_some(q4, "alpn"@, outbound.alpn)
}

/// What a trojan outbound adds.
pub open spec fn trojan_outbound(
    object: Seq<(Seq<char>, JsonValue)>,
    outbound: OutboundView,
    params: Map<Seq<char>, Seq<char>>,
) -> Result<(Map<Seq<char>, Seq<char>>, Seq<char>), Seq<char>> {
    match fields::string_field(object, "password"@) {
        None => Err("trojan outbound missing password"@),
        Some(password) => Ok(
            (
                params.insert("password"@, password),
                link::standard_uri(
                    "trojan"@,
                    password,
                    None,
                    outbound.host,
                    outbound.port,
                    trojan_query(outbound),
                    outbound.tag,
                ),
            ),
        ),
    }
}

/// Adds what a trojan outbound adds.
fn link_trojan(object: &Vec<(String, Json)>, outbound: &Outbound, params: StrMap<String>) -> (result:
    Result<(StrMap<String>, String), Failure>)
    ensures
        linked_view(result) == trojan_outbound(json::entries_view(object@), outbound@, params@),
{
    let mut params = params;
    let password = match fields::get_string(object, "password") {
        Some(password) => password,
        None => {
            return Err(Failure::of("trojan outbound missing password"));
        },
    };
    strmap::put(&mut params, "password", password.as_str());
    let mut query: StrMap<String> = StrMap::new();
    strmap::insert_some(&mut query, "type", &outbound.network);
    strmap::insert_some(&mut query, "path", &outbound.path);
    strmap::insert_some(&mut query, "host", &outbound.host_header);
    strmap::insert_some(&mut query, "sni", &outbound.sni);
    strmap::insert_some(&mut query, "alpn", &outbound.alpn);
    let uri = link::build_standard_uri(
        "trojan",
        password.as_str(),
        None,
        outbound.host.as_str(),
        outbound.port,
        &query,
        outbound.tag.as_str(),
    );
    Ok((params, uri))
}

/// What a Shadowsocks outbound adds.
pub open spec fn shadowsocks_outbound(
    object: Seq<(Seq<char>, JsonValue)>,
    outbound: OutboundView,
    params: Map<Seq<char>, Seq<char>>,
) -> Result<(Map<Seq<char>, Seq<char>>, Seq<char>), Seq<char>> {
    match fields::string_field(object, "method"@) {
        None => Err("shadowsocks outbound missing method"@),
        Some(method) => match fields::string_field(object, "password"@) {
            None => Err("shadowsocks outbound missing password"@),
            Some(password) => {
                let all = params.insert("method"@, method).insert("password"@, password);
                Ok(
                    (
                        all,
                        link::ss_uri(
                            outbound.host,
                            outbound.port,
                            method,
                            password,
                            all,
                            outbound.tag,
                        ),
                    ),
                )
            },
        },
    }
}

/// `method` and `password` are two names, and so are `id` and `aid`.
proof fn lemma_two_names()
    ensures
        "method"@ != "password"@,
        "id"@ != "aid"@,
{
    reveal_strlit("method");
    reveal_strlit("password");
    reveal_strlit("id");
    reveal_strlit("aid");
    assert("method"@[0] != "password"@[0]);
    assert("id"@.len() != "aid"@.len());
}

/// Adds what a Shadowsocks outbound adds.
fn link_shadowsocks(
    object: &Vec<(String, Json)>,
    outbound: &Outbound,
    params: StrMap<String>,
) -> (result: Result<(StrMap<String>, String), Failure>)
    ensures
        linked_view(result) == shadowsocks_outbound(
            json::entries_view(object@),
            outbound@,
            params@,
        ),
        result matches Ok((all, uri)) ==> link::is_plain_host(outbound.host@)
            && !all@["method"@].contains(':') ==> ss_reads_back(
            node::unprobed_node(
                Protocol::Shadowsocks,
                outbound.host@,
                outbound.port,
                all@,
                outbound.tag@,
                uri@,
            ),
        ),
{
    let mut params = params;
    let method = match fields::get_string(object, "method") {
        Some(method) => method,
        None => {
            return Err(Failure::of("shadowsocks outbound missing method"));
        },
    };
    let password = match fields::get_string(object, "password") {
        Some(password) => password,
        None => {
            return Err(Failure::of("shadowsocks outbound missing password"));
        },
    };
    strmap::put(&mut params, "method", method.as_str());
    strmap::put(&mut params, "password", password.as_str());
    proof {
        lemma_two_names();
    }
    let uri = link::build_ss_uri(
        outbound.host.as_str(),
        outbound.port,
        method.as_str(),
        password.as_str(),
        &params,
        outbound.tag.as_str(),
    );
    Ok((params, uri))
}

/// The obfuscation of a hysteria2 outbound.
pub open spec fn obfs_type(object: Seq<(Seq<char>, JsonValue)>) -> Option<Seq<char>> {
    fields::nested_text(object, seq!["obfs"@, "type"@])
}

/// The password of the obfuscation of a hysteria2 outbound.
pub open spec fn obfs_password(object: Seq<(Seq<char>, JsonValue)>) -> Option<Seq<char>> {
    fields::nested_text(object, seq!["obfs"@, "password"@])
}

/// The query of the link of a hysteria2 outbound.
pub open spec fn hysteria2_query(
    object: Seq<(Seq<char>, JsonValue)>,
    outbound: OutboundView,
) -> Map<Seq<char>, Seq<char>> {
    let q1 = strmap::with_some(Map::empty(), "sni"@, outbound.sni);
    let q2 = strmap::with_some(q1, "alpn"@, outbound.alpn);
    let q3 = strmap::with_some(q2, "obfs"@, obfs_type(object));
    strmap::with_some(q3, "obfs-password"@, obfs_password(object))
}

/// What a hysteria2 outbound adds.
pub open spec fn hysteria2_outbound(
    object: Seq<(Seq<char>, JsonValue)>,
    outbound: OutboundView,
    params: Map<Seq<char>, Seq<char>>,
) -> Result<(Map<Seq<char>, Seq<char>>, Seq<char>), Seq<char>> {
    match fields::string_field(object, "password"@) {
        None => Err("hysteria2 outbound missing password"@),
        Some(password) => {
            let query = hysteria2_query(object, outbound);
            let p1 = params.insert("password"@, password);
            let p2 = strmap::with_some(p1, "obfs"@, obfs_type(object));
            Ok(
                (
                    strmap::with_some(p2, "obfs-password"@, obfs_password(object)),
                    link::standard_uri(
                        "hysteria2"@,
                        password,
                        None,
                        outbound.host,
                        outbound.port,
                        query,
                        outbound.tag,
                    ),
                ),
            )
        },
    }
}

/// Adds what a hysteria2 outbound adds.
fn link_hysteria2(
    object: &Vec<(String, Json)>,
    outbound: &Outbound,
    params: StrMap<String>,
) -> (result: Result<(StrMap<String>, String), Failure>)
    ensures
        linked_view(result) == hysteria2_outbound(json::entries_view(object@), outbound@, params@),
{
    let mut params = params;
    let password = match fields::get_string(object, "password") {
        Some(password) => password,
        None => {
            return Err(Failure::of("hysteria2 outbound missing password"));
        },
    };
    strmap::put(&mut params, "password", password.as_str());
    let mut query: StrMap<String> = StrMap::new();
    strmap::insert_some(&mut query, "sni", &outbound.sni);
    strmap::insert_some(&mut query, "alpn", &outbound.alpn);
    let type_path: Vec<&str> = vec!["obfs", "type"];
    assert(fields::path_view(type_path@) =~= seq!["obfs"@, "type"@]);
    let obfs = fields::get_nested_string(object, &type_path);
    strmap::insert_some(&mut query, "obfs", &obfs);
    strmap::insert_some(&mut params, "obfs", &obfs);
    let password_path: Vec<&str> = vec!["obfs", "password"];
    assert(fields::path_view(password_path@) =~= seq!["obfs"@, "password"@]);
    let obfs_password = fields::get_nested_string(object, &password_path);
    strmap::insert_some(&mut query, "obfs-password", &obfs_password);
    strmap::insert_some(&mut params, "obfs-password", &obfs_password);
    let uri = link::build_standard_uri(
        "hysteria2",
        password.as_str(),
        None,
        outbound.host.as_str(),
        outbound.port,
        &query,
        outbound.tag.as_str(),
    );
    Ok((params, uri))
}

/// The query of the link of a tuic outbound.
pub open spec fn tuic_query(
    object: Seq<(Seq<char>, JsonValue)>,
    outbound: OutboundView,
) -> Map<Seq<char>, Seq<char>> {
    let q1 = strmap::with_some(
        Map::empty(),
        "congestion_control"@,
        fields::string_field(object, "congestion_control"@),
    );
    let q2 = strmap::with_some(
        q1,
        "udp_relay_mode"@,
        fields::string_field(object, "udp_relay_mode"@),
    );
    let q3 = strmap::with_some(q2, "sni"@, outbound.sni);
    strmap::with_some(q3, "alpn"@, outbound.alpn)
}

/// What a tuic outbound adds.
pub open spec fn tuic_outbound(
    object: Seq<(Seq<char>, JsonValue)>,
    outbound: OutboundView,
    params: Map<Seq<char>, Seq<char>>,
) -> Result<(Map<Seq<char>, Seq<char>>, Seq<char>), Seq<char>> {
    match fields::string_field(object, "uuid"@) {
        None => Err("tuic outbound missing uuid"@),
        Some(uuid) => match fields::string_field(object, "password"@) {
            None => Err("tuic outbound missing password"@),
            Some(password) => {
                Ok(
                    (
                        params.insert("uuid"@, uuid).insert("password"@, password),
                        link::standard_uri(
                            "tuic"@,
                            uuid,
                            Some(password),
                            outbound.host,
                            outbound.port,
                            tuic_query(object, outbound),
                            outbound.tag,
                        ),
                    ),
                )
            },
        },
    }
}

/// Adds what a tuic outbound adds.
fn link_tuic(object: &Vec<(String, Json)>, outbound: &Outbound, params: StrMap<String>) -> (result:
    Result<(StrMap<String>, String), Failure>)
    ensures
        linked_view(result) == tuic_outbound(json::entries_view(object@), outbound@, params@),
{
    let mut params = params;
    let uuid = match fields::get_string(object, "uuid") {
        Some(uuid) => uuid,
        None => {
            return Err(Failure::of("tuic outbound missing uuid"));
        },
    };
    let password = match fields::get_string(object, "password") {
        Some(password) => password,
        None => {
            return Err(Failure::of("tuic outbound missing password"));
        },
    };
    strmap::put(&mut params, "uuid", uuid.as_str());
    strmap::put(&mut params, "password", password.as_str());
    let mut query: StrMap<String> = StrMap::new();
    strmap::insert_some(
        &mut query,
        "congestion_control",
        &fields::get_string(object, "congestion_control"),
    );
    strmap::insert_some(&mut query, "udp_relay_mode", &fields::get_string(object, "udp_relay_mode"));
    strmap::insert_some(&mut query, "sni", &outbound.sni);
    strmap::insert_some(&mut query, "alpn", &outbound.alpn);
    let uri = link::build_standard_uri(
        "tuic",
        uuid.as_str(),
        Some(password.as_str()),
        outbound.host.as_str(),
        outbound.port,
        &query,
        outbound.tag.as_str(),
    );
    Ok((params, uri))
}

// ---------------------------------------------------------------------------
// Outbounds
// ---------------------------------------------------------------------------

/// The protocol that an outbound type names.
pub open spec fn outbound_protocol(name: Seq<char>) -> Option<Protocol> {
    if name == "vmess"@ {
        Some(Protocol::Vmess)
    } else if name == "vless"@ {
        Some(Protocol::Vless)
    } else if name == "trojan"@ {
        Some(Protocol::Trojan)
    } else if name == "shadowsocks"@ {
        Some(Protocol::Shadowsocks)
    } else if name == "hysteria2"@ {
        Some(Protocol::Hysteria2)
    } else if name == "tuic"@ {
        Some(Protocol::Tuic)
    } else {
        None
    }
}

/// The protocol that an outbound type names.
fn protocol_of_type(name: &str) -> (protocol: Option<Protocol>)
    ensures
        protocol == outbound_protocol(name@),
{
    if text::same_text(name, "vmess") {
        Some(Protocol::Vmess)
    } else if text::same_text(name, "vless") {
        Some(Protocol::Vless)
    } else if text::same_text(name, "trojan") {
        Some(Protocol::Trojan)
    } else if text::same_text(name, "shadowsocks") {
        Some(Protocol::Shadowsocks)
    } else if text::same_text(name, "hysteria2") {
        Some(Protocol::Hysteria2)
    } else if text::same_text(name, "tuic") {
        Some(Protocol::Tuic)
    } else {
        None
    }
}

/// The parameters and the link of an outbound of a protocol.
pub open spec fn linked_outbound(
    protocol: Protocol,
    object: Seq<(Seq<char>, JsonValue)>,
    outbound: OutboundView,
) -> Result<(Map<Seq<char>, Seq<char>>, Seq<char>), Seq<char>> {
    let params = common_params(object, outbound);
    match protocol {
        Protocol::Vmess => vmess_outbound(object, outbound, params),
        Protocol::Vless => vless_outbound(object, outbound, params),
        Protocol::Trojan => trojan_outbound(object, outbound, params),
        Protocol::Hysteria2 => hysteria2_outbound(object, outbound, params),
        Protocol::Tuic => tuic_outbound(object, outbound, params),
        _ => shadowsocks_outbound(object, outbound, params),
    }
}

/// The node that a sing-box outbound describes: none where it has no server,
/// no port or no supported type; a message where it has no type, or lacks what
/// its protocol needs.
pub open spec fn sing_box_node(object: Seq<(Seq<char>, JsonValue)>) -> Result<
    Option<NodeView>,
    Seq<char>,
> {
    match fields::string_field(object, "type"@) {
        None => Err("sing-box outbound missing type"@),
        Some(name) => match fields::string_field(object, "server"@) {
            None => Ok(None),
            Some(host) => match fields::port_of(json::entry(object, "server_port"@)) {
                None => Ok(None),
                Some(port) => match outbound_protocol(name) {
                    None => Ok(None),
                    Some(protocol) => {
                        let outbound = outbound_of(object, host, port);
                        match linked_outbound(protocol, object, outbound) {
                            Err(message) => Err(message),
                            Ok((params, uri)) => Ok(
                                Some(
                                    node::unprobed_node(
                                        protocol,
                                        host,
                                        port,
                                        params,
                                        outbound.tag,
                                        uri,
                                    ),
                                ),
                            ),
                        }
                    },
                },
            },
        },
    }
}

/// The view of an optional node.
pub open spec fn node_view(result: Result<Option<Node>, Failure>) -> Result<
    Option<NodeView>,
    Seq<char>,
> {
    match result {
        Ok(Some(node)) => Ok(Some(node@)),
        Ok(None) => Ok(None),
        Err(failure) => Err(failure@),
    }
}

/// The node that a sing-box outbound describes. Reading the link that it gets
/// gives it back, with the parameters that links carry: of a vmess node always,
/// of a Shadowsocks node if its host and method can stand in a link as they
/// are.
pub fn parse_sing_box_outbound(object: &Vec<(String, Json)>) -> (result: Result<
    Option<Node>,
    Failure,
>)
    ensures
        node_view(result) == sing_box_node(json::entries_view(object@)),
        result matches Ok(Some(node)) ==> node.protocol is Vmess ==> uri::uri_node(
            node.original_uri@,
        ) == Ok::<NodeView, Seq<char>>(
            vmess_read_back(
                json::entries_view(object@),
                outbound_of(json::entries_view(object@), node.host@, node.port),
                node.params@["id"@],
                node.original_uri@,
            ),
        ),
        result matches Ok(Some(node)) ==> node.protocol is Shadowsocks && fits_ss_link(node@)
            ==> ss_reads_back(node@),
{
    let outbound_type = match fields::get_string(object, "type") {
        Some(outbound_type) => outbound_type,
        None => {
            return Err(Failure::of("sing-box outbound missing type"));
        },
    };
    let host = match fields::get_string(object, "server") {
        Some(host) => host,
        None => {
            return Ok(None);
        },
    };
    let port = match fields::get_u16(object, "server_port") {
        Some(port) => port,
        None => {
            return Ok(None);
        },
    };
    let protocol = match protocol_of_type(outbound_type.as_str()) {
        Some(protocol) => protocol,
        None => {
            return Ok(None);
        },
    };
    let outbound = read_outbound(object, host, port);
    let params = read_common_params(object, &outbound);
    proof {
        lemma_two_names();
    }
    let linked = match protocol {
        Protocol::Vmess => link_vmess(object, &outbound, params),
        Protocol::Vless => link_vless(object, &outbound, params),
        Protocol::Trojan => link_trojan(object, &outbound, params),
        Protocol::Hysteria2 => link_hysteria2(object, &outbound, params),
        Protocol::Tuic => link_tuic(object, &outbound, params),
        _ => link_shadowsocks(object, &outbound, params),
    };
    match linked {
        Err(failure) => Err(failure),
        Ok((params, uri)) => Ok(
            Some(
                Node::unprobed(protocol, outbound.host, outbound.port, params, outbound.tag, uri),
            ),
        ),
    }
}

/// Whether two nodes have the same credentials, as their protocol calls them.
pub open spec fn same_credentials(a: NodeView, b: NodeView) -> bool {
    match a.protocol {
        Protocol::Vless => a.params["id"@] == b.params["id"@],
        Protocol::Tuic => a.params["uuid"@] == b.params["uuid"@] && a.params["password"@]
            == b.params["password"@],
        _ => a.params["password"@] == b.params["password"@],
    }
}

/// The link of a vless, trojan, hysteria2 or tuic outbound describes the node of
/// the outbound: the same protocol, server and name, and the same credentials,
/// if the host is made of letters, digits, dots and hyphens, and the link without
/// its fragment has no more than 4,294,967,295 characters: longer ones are no
/// URLs. `parse_uri_node` of the link makes known what this needs to know of it.
pub proof fn law_outbound_link_reads_back(object: Seq<(Seq<char>, JsonValue)>, node: NodeView)
    requires
        sing_box_node(object) == Ok::<Option<NodeView>, Seq<char>>(Some(node)),
        link::is_url_protocol(node.protocol),
        codec::is_host_name(node.host),
        codec::before_fragment(node.original_uri).len() <= u32::MAX,
        uri::known_link(node.original_uri),
    ensures
        uri::uri_node(node.original_uri) matches Ok(back) && back.protocol == node.protocol
            && back.host == node.host && back.port == node.port && back.raw_name == node.raw_name
            && same_credentials(node, back),
{
    let outbound = outbound_of(object, node.host, node.port);
    let tag = outbound.tag;
    reveal_strlit("Unnamed");
    reveal_strlit("uuid");
    reveal_strlit("password");
    reveal_strlit("obfs");
    reveal_strlit("obfs-password");
    assert("uuid"@.len() != "password"@.len());
    assert("obfs"@.len() != "password"@.len());
    assert("obfs-password"@.len() != "password"@.len());
    let (username, password, query) = match node.protocol {
        Protocol::Vless => (identity(object)->0, None, vless_query(object, outbound)),
        Protocol::Trojan => (
            fields::string_field(object, "password"@)->0,
            None,
            trojan_query(outbound),
        ),
        Protocol::Hysteria2 => (
            fields::string_field(object, "password"@)->0,
            None,
            hysteria2_query(object, outbound),
        ),
        _ => (
            fields::string_field(object, "uuid"@)->0,
            Some(fields::string_field(object, "password"@)->0),
            tuic_query(object, outbound),
        ),
    };
    link::law_written_url_is_read(
        node.protocol,
        username,
        password,
        node.host,
        node.port,
        query,
        tag,
    );
    link::law_standard_link(node.protocol, username, password, node.host, node.port, query, tag);
}

/// The nodes that a list of outbounds describes, in its order.
pub open spec fn sing_box_nodes(outbounds: Seq<JsonValue>) -> Seq<NodeView>
    decreases outbounds.len(),
{
    if outbounds.len() == 0 {
        Seq::empty()
    } else {
        let earlier = sing_box_nodes(outbounds.drop_last());
        match json::object_of(Some(outbounds.last())) {
            Some(object) => match sing_box_node(object) {
                Ok(Some(node)) => earlier.push(node),
                _ => earlier,
            },
            None => earlier,
        }
    }
}

/// The nodes of a sing-box subscription, of which there must be one.
pub open spec fn sing_box_subscription(outbounds: Seq<JsonValue>) -> Result<
    Seq<NodeView>,
    Seq<char>,
> {
    if sing_box_nodes(outbounds).len() == 0 {
        Err("sing-box subscription did not contain supported outbounds"@)
    } else {
        Ok(sing_box_nodes(outbounds))
    }
}

/// The view of a list of nodes.
pub open spec fn nodes_view(result: Result<Vec<Node>, Failure>) -> Result<
    Seq<NodeView>,
    Seq<char>,
> {
    match result {
        Ok(nodes) => Ok(items::views(nodes@)),
        Err(failure) => Err(failure@),
    }
}

/// The nodes of a sing-box subscription.
pub fn parse_sing_box(outbounds: &Vec<Json>) -> (result: Result<Vec<Node>, Failure>)
    ensures
        nodes_view(result) == sing_box_subscription(json::items_view(outbounds@)),
{
    let ghost all = json::items_view(outbounds@);
    let mut nodes: Vec<Node> = Vec::new();
    let mut i: usize = 0;
    assert(items::views(nodes@) =~= sing_box_nodes(all.take(0)));
    while i < outbounds.len()
        invariant
            i <= outbounds@.len(),
            all == json::items_view(outbounds@),
            items::views(nodes@) == sing_box_nodes(all.take(i as int)),
        decreases outbounds@.len() - i,
    {
        let ghost seen = all.take(i + 1);
        let ghost before = nodes@;
        assert(seen.drop_last() =~= all.take(i as int));
        assert(seen.last() == outbounds@[i as int]@);
        match json::as_object(Some(&outbounds[i])) {
            Some(object) => match parse_sing_box_outbound(object) {
                Ok(Some(node)) => {
                    nodes.push(node);
                    assert(items::views(nodes@) =~= items::views(before).push(node@));
                },
                _ => {},
            },
            None => {},
        }
        i = i + 1;
    }
    assert(all.take(i as int) =~= all);
    if nodes.len() == 0 {
        assert(items::views(nodes@).len() == 0);
        return Err(Failure::of("sing-box subscription did not contain supported outbounds"));
    }
    Ok(nodes)
}

// ---------------------------------------------------------------------------
// SIP008
// ---------------------------------------------------------------------------

/// The node that a SIP008 server entry describes.
pub open spec fn sip008_node(object: Seq<(Seq<char>, JsonValue)>) -> Result<NodeView, Seq<char>> {
    match fields::string_field(object, "server"@) {
        None => Err("sip008 server missing host"@),
        Some(host) => match fields::port_of(json::entry(object, "server_port"@)) {
            None => Err("sip008 server missing port"@),
            Some(port) => match fields::string_field(object, "method"@) {
                None => Err("sip008 server missing method"@),
                Some(method) => match fields::string_field(object, "password"@) {
                    None => Err("sip008 server missing password"@),
                    Some(password) => {
                        let name = text_or(fields::string_field(object, "remarks"@), "Unnamed"@);
                        let params = fields::scalar_fields(object).insert("method"@, method).insert(
                            "password"@,
                            password,
                        );
                        Ok(
                            node::unprobed_node(
                                Protocol::Shadowsocks,
                                host,
                                port,
                                params,
                                name,
                                link::ss_uri(host, port, method, password, params, name),
                            ),
                        )
                    },
                },
            },
        },
    }
}

/// The node that a SIP008 server entry describes. Reading the link that it gets
/// gives it back, with the parameters that links carry, if its host and method
/// can stand in a link as they are.
pub fn parse_sip008_server(object: &Vec<(String, Json)>) -> (result: Result<Node, Failure>)
    ensures
        failure::outcome(result) == sip008_node(json::entries_view(object@)),
        result matches Ok(node) ==> fits_ss_link(node@) ==> ss_reads_back(node@),
{
    let host = match fields::get_string(object, "server") {
        Some(host) => host,
        None => {
            return Err(Failure::of("sip008 server missing host"));
        },
    };
    let port = match fields::get_u16(object, "server_port") {
        Some(port) => port,
        None => {
            return Err(Failure::of("sip008 server missing port"));
        },
    };
    let method = match fields::get_string(object, "method") {
        Some(method) => method,
        None => {
            return Err(Failure::of("sip008 server missing method"));
        },
    };
    let password = match fields::get_string(object, "password") {
        Some(password) => password,
        None => {
            return Err(Failure::of("sip008 server missing password"));
        },
    };
    let name = or_other(fields::get_string(object, "remarks"), "Unnamed");
    let mut params = fields::collect_scalar_fields(Some(object));
    strmap::put(&mut params, "method", method.as_str());
    strmap::put(&mut params, "password", password.as_str());
    proof {
        lemma_two_names();
    }
    let uri = link::build_ss_uri(
        host.as_str(),
        port,
        method.as_str(),
        password.as_str(),
        &params,
        name.as_str(),
    );
    Ok(Node::unprobed(Protocol::Shadowsocks, host, port, params, name, uri))
}

/// The nodes that a list of server entries describes, in its order.
pub open spec fn sip008_nodes(servers: Seq<JsonValue>) -> Seq<NodeView>
    decreases servers.len(),
{
    if servers.len() == 0 {
        Seq::empty()
    } else {
        let earlier = sip008_nodes(servers.drop_last());
        match json::object_of(Some(servers.last())) {
            Some(object) => match sip008_node(object) {
                Ok(node) => earlier.push(node),
                Err(_) => earlier,
            },
            None => earlier,
        }
    }
}

/// The nodes of a SIP008 subscription, of which there must be one.
pub open spec fn sip008_subscription(servers: Seq<JsonValue>) -> Result<Seq<NodeView>, Seq<char>> {
    if sip008_nodes(servers).len() == 0 {
        Err("sip008 subscription did not contain supported servers"@)
    } else {
        Ok(sip008_nodes(servers))
    }
}

/// The nodes of a SIP008 subscription.
pub fn parse_sip008(servers: &Vec<Json>) -> (result: Result<Vec<Node>, Failure>)
    ensures
        nodes_view(result) == sip008_subscription(json::items_view(servers@)),
{
    let ghost all = json::items_view(servers@);
    let mut nodes: Vec<Node> = Vec::new();
    let mut i: usize = 0;
    assert(items::views(nodes@) =~= sip008_nodes(all.take(0)));
    while i < servers.len()
        invariant
            i <= servers@.len(),
            all == json::items_view(servers@),
            items::views(nodes@) == sip008_nodes(all.take(i as int)),
        decreases servers@.len() - i,
    {
        let ghost seen = all.take(i + 1);
        let ghost before = nodes@;
        assert(seen.drop_last() =~= all.take(i as int));
        assert(seen.last() == servers@[i as int]@);
        match json::as_object(Some(&servers[i])) {
            Some(object) => match parse_sip008_server(object) {
                Ok(node) => {
                    nodes.push(node);
                    assert(items::views(nodes@) =~= items::views(before).push(node@));
                },
                Err(_) => {},
            },
            None => {},
        }
        i = i + 1;
    }
    assert(all.take(i as int) =~= all);
    if nodes.len() == 0 {
        assert(items::views(nodes@).len() == 0);
        return Err(Failure::of("sip008 subscription did not contain supported servers"));
    }
    Ok(nodes)
}

} // verus!
