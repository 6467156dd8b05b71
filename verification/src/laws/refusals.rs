//! Links that say less than others, and links that cannot be read.

use vstd::prelude::*;
use vstd::string::*;
use vstd::utf8::*;

use crate::codec;
use crate::codec::Base64Form;
use crate::fields;
use crate::json;
use crate::json::JsonValue;
use crate::laws::links;
use crate::laws::names;
use crate::link;
use crate::node;
use crate::node::{NodeView, Protocol};
use crate::roundtrip;
use crate::strmap;
use crate::text;
use crate::uri;

verus! {

/// A text that starts with the scheme of no protocol is no link.
pub proof fn law_other_scheme(uri: Seq<char>)
    requires
        forall|protocol: Protocol| !(#[trigger] links::scheme_of(protocol)).is_prefix_of(uri),
    ensures
        uri::uri_node(uri) == Err::<NodeView, Seq<char>>("unsupported URI scheme"@),
        !uri::is_supported(uri),
{
    assert(!links::scheme_of(Protocol::Vmess).is_prefix_of(uri));
    assert(!links::scheme_of(Protocol::Vless).is_prefix_of(uri));
    assert(!links::scheme_of(Protocol::Trojan).is_prefix_of(uri));
    assert(!links::scheme_of(Protocol::Shadowsocks).is_prefix_of(uri));
    assert(!links::scheme_of(Protocol::ShadowsocksR).is_prefix_of(uri));
    assert(!links::scheme_of(Protocol::Hysteria2).is_prefix_of(uri));
    assert(!links::scheme_of(Protocol::Tuic).is_prefix_of(uri));
}

/// A text that starts with the scheme of a protocol is taken for a link.
pub proof fn law_scheme_is_supported(uri: Seq<char>, protocol: Protocol)
    requires
        links::scheme_of(protocol).is_prefix_of(uri),
    ensures
        uri::is_supported(uri),
{
}

/// A URL link is refused for what it lacks: the URL, the host, the port, or the
/// credential.
pub proof fn law_url_link_refused(uri: Seq<char>, protocol: Protocol, message: Seq<char>)
    requires
        link::is_url_protocol(protocol),
        links::scheme_of(protocol).is_prefix_of(uri),
        uri::uri_node(uri) == Err::<NodeView, Seq<char>>(message),
    ensures
        ({
            let parts = codec::url_parts(uri);
            let has_host = parts is Some && parts->0.host is Some && parts->0.host->0.len() > 0;
            &&& parts is None ==> message == "invalid "@ + node::protocol_name(protocol)
                + " URI"@
            &&& parts is Some && !has_host ==> message == "node missing host"@
            &&& has_host && parts->0.port is None ==> message == "node missing port"@
            &&& has_host && parts->0.port is Some ==> message == match protocol {
                Protocol::Vless => "vless node missing UUID"@,
                Protocol::Tuic => "tuic node missing UUID"@,
                _ => "node missing password"@,
            }
        }),
{
    lemma_url_scheme(uri, protocol);
}

/// A URL link is read as one of its protocol.
proof fn lemma_url_scheme(uri: Seq<char>, protocol: Protocol)
    requires
        link::is_url_protocol(protocol),
        links::scheme_of(protocol).is_prefix_of(uri),
    ensures
        uri::uri_node(uri) == uri::standard_link(uri, protocol),
{
    if "vmess://"@.is_prefix_of(uri) {
        links::lemma_one_scheme(protocol, Protocol::Vmess, uri);
    }
    if "vless://"@.is_prefix_of(uri) {
        links::lemma_one_scheme(protocol, Protocol::Vless, uri);
    }
    if "trojan://"@.is_prefix_of(uri) {
        links::lemma_one_scheme(protocol, Protocol::Trojan, uri);
    }
    if "hysteria2://"@.is_prefix_of(uri) {
        links::lemma_one_scheme(protocol, Protocol::Hysteria2, uri);
    }
    if "tuic://"@.is_prefix_of(uri) {
        links::lemma_one_scheme(protocol, Protocol::Tuic, uri);
    }
}

/// What follows the scheme of a vmess link must be base64, of a text, of a JSON
/// object.
pub proof fn law_vmess_refused(encoded: Seq<char>)
    ensures
        ({
            let found = uri::uri_node("vmess://"@ + encoded);
            let refused = |message: Seq<char>| found == Err::<NodeView, Seq<char>>(message);
            match codec::base64_decoded(encoded) {
                None => refused("failed to decode vmess payload"@),
                Some(bytes) => if !valid_utf8(bytes) {
                    refused("vmess payload is not valid UTF-8"@)
                } else {
                    match json::document_of(decode_utf8(bytes)) {
                        None => refused("invalid vmess JSON payload"@),
                        Some(JsonValue::Object(entries)) => found is Err ==> refused(
                            if json::entry(entries, "add"@) matches Some(JsonValue::Text(host))
                                && host.len() > 0 {
                                "vmess node missing port field"@
                            } else {
                                "vmess node missing add field"@
                            },
                        ),
                        Some(_) => refused("vmess node missing add field"@),
                    }
                },
            }
        }),
{
    let uri = "vmess://"@ + encoded;
    assert("vmess://"@.is_prefix_of(uri));
    assert(uri.skip("vmess://"@.len() as int) =~= encoded);
}

/// Whether a field of a vmess document is taken by its text alone.
pub open spec fn is_text_field(key: Seq<char>) -> bool {
    key == "id"@ || key == "net"@ || key == "path"@ || key == "host"@
}

/// The node of a vmess link has every field of the document as a parameter; its
/// `aid` is taken even where it has no text, as an empty one.
pub proof fn law_vmess_params(
    form: Base64Form,
    document: Seq<char>,
    entries: Seq<(Seq<char>, JsonValue)>,
    key: Seq<char>,
)
    requires
        json::document_of(document) == Some(JsonValue::Object(entries)),
    ensures
        uri::uri_node("vmess://"@ + codec::base64_encoded(form, encode_utf8(document))) matches Ok(
            node,
        ) ==> strmap::value_of(node.params, key) == if key == "aid"@ && json::entry(
            entries,
            "aid"@,
        ) is Some {
            Some(fields::scalar_text(json::entry(entries, "aid"@)->0))
        } else if is_text_field(key) && json::entry(entries, key) matches Some(
            JsonValue::Text(said),
        ) {
            Some(json::entry(entries, key)->0->Text_0)
        } else {
            strmap::value_of(fields::scalar_fields(entries), key)
        },
{
    let encoded = codec::base64_encoded(form, encode_utf8(document));
    let uri = "vmess://"@ + encoded;
    roundtrip::law_base64_round_trip(form, encode_utf8(document));
    codec::law_utf8_round_trip(document);
    assert("vmess://"@.is_prefix_of(uri));
    assert(uri.skip("vmess://"@.len() as int) =~= encoded);
    names::lemma_vmess_keys();
}

/// Whether a text ends in `:` and a port.
pub open spec fn ends_in_port(server: Seq<char>) -> bool {
    exists|i: int| #[trigger] is_port_from(server, i)
}

/// Whether a port follows the `:` at a place, the last one of a text.
pub open spec fn is_port_from(server: Seq<char>, i: int) -> bool {
    &&& 0 <= i < server.len()
    &&& server[i] == ':'
    &&& !server.skip(i + 1).contains(':')
    &&& fields::port_value(server.skip(i + 1)) is Some
}

/// A server is read where it ends in `:` and a port.
proof fn lemma_host_port(server: Seq<char>)
    ensures
        uri::host_port(server) is Ok <==> ends_in_port(server),
{
    let at = text::last_index_of(server, ':');
    text::lemma_last_index_of(server, ':');
    if uri::host_port(server) is Ok {
        let tail = server.skip(at + 1);
        assert(!tail.contains(':')) by {
            if tail.contains(':') {
                let k = choose|k: int| 0 <= k < tail.len() && tail[k] == ':';
                assert(server[at + 1 + k] == ':');
            }
        }
        assert(is_port_from(server, at));
    }
    if ends_in_port(server) {
        let i = choose|i: int| #[trigger] is_port_from(server, i);
        assert forall|k: int| i < k < server.len() implies #[trigger] server[k] != ':' by {
            assert(server.skip(i + 1)[k - i - 1] == server[k]);
            if server[k] == ':' {
                assert(server.skip(i + 1).contains(':'));
            }
        }
        text::lemma_last_index_of_is(server, ':', i);
    }
}

/// A Shadowsocks link without options is read just where what stands before its
/// last `@` is base64 of a text with a `:`, and what stands behind it ends in a
/// port; without a `#` the node has no name.
pub proof fn law_bare_shadowsocks_link(encoded: Seq<char>, server: Seq<char>)
    requires
        !encoded.contains('#') && !encoded.contains('?'),
        !server.contains('#') && !server.contains('?') && !server.contains('@'),
    ensures
        ({
            let found = uri::uri_node("ss://"@ + encoded + seq!['@'] + server);
            let bytes = codec::base64_decoded(encoded);
            &&& found is Ok <==> bytes is Some && valid_utf8(bytes->0) && decode_utf8(
                bytes->0,
            ).contains(':') && ends_in_port(server)
            &&& found matches Ok(node) ==> node.raw_name == "Unnamed"@ && forall|key: Seq<char>|
                #[trigger]
                node.params.contains_key(key) ==> key == "method"@ || key == "password"@
            &&& bytes is None ==> found == Err::<NodeView, Seq<char>>(
                "failed to decode ss credentials"@,
            )
        }),
{
    let main = encoded + seq!['@'] + server;
    let whole = "ss://"@ + encoded + seq!['@'] + server;
    assert(whole =~= "ss://"@ + main);
    link::lemma_ss_scheme(main);
    lemma_bare(main, encoded, server);
    lemma_host_port(server);
    crate::laws::texts::law_split(encoded, server, '@');
    if let Some(bytes) = codec::base64_decoded(encoded) {
        text::lemma_index_of(decode_utf8(bytes), ':');
    }
    lemma_no_query();
}

/// A text without `#` and `?` is neither cut at the one nor at the other.
proof fn lemma_bare(main: Seq<char>, encoded: Seq<char>, server: Seq<char>)
    requires
        main == encoded + seq!['@'] + server,
        !encoded.contains('#') && !encoded.contains('?'),
        !server.contains('#') && !server.contains('?'),
    ensures
        uri::fragment_split(main) == (main, "Unnamed"@),
        uri::query_split(main) == (main, Seq::<char>::empty()),
{
    assert forall|k: int| 0 <= k < main.len() implies main[k] != '#' && main[k] != '?' by {
        if k < encoded.len() {
            assert(main[k] == encoded[k]);
            assert(encoded.contains(encoded[k]));
        } else if k > encoded.len() {
            assert(main[k] == server[k - encoded.len() - 1]);
            assert(server.contains(server[k - encoded.len() - 1]));
        }
    }
    assert(!main.contains('#') && !main.contains('?'));
    text::lemma_index_of(main, '#');
    text::lemma_index_of(main, '?');
}

/// Nothing is said by an empty query.
proof fn lemma_no_query()
    ensures
        codec::form_entries(Seq::empty()) == Seq::<(Seq<char>, Seq<char>)>::empty(),
        uri::query_params(Seq::empty()) == Map::<Seq<char>, Seq<char>>::empty(),
{
    let none = Seq::<char>::empty();
    let pieces = text::pieces(none, '&');
    assert(pieces =~= seq![none]);
    let kept = pieces.filter(|piece: Seq<char>| piece.len() > 0);
    reveal_with_fuel(Seq::filter, 2);
    assert(pieces.drop_last() =~= Seq::empty());
    assert(kept =~= Seq::empty());
    assert(codec::form_entries(none) =~= Seq::empty());
    assert(strmap::pair_map(codec::form_entries(none)) =~= Map::empty());
}

/// A Shadowsocks link without `@` and options is read just where all of it is
/// base64 of a text that holds such a link.
pub proof fn law_bare_encoded_shadowsocks_link(encoded: Seq<char>)
    requires
        !encoded.contains('#') && !encoded.contains('?') && !encoded.contains('@'),
    ensures
        ({
            let found = uri::uri_node("ss://"@ + encoded);
            let bytes = codec::base64_decoded(encoded);
            &&& bytes is None ==> found == Err::<NodeView, Seq<char>>("failed to decode ss payload"@)
            &&& bytes is Some && !valid_utf8(bytes->0) ==> found == Err::<NodeView, Seq<char>>(
                "ss payload is not valid UTF-8"@,
            )
            &&& bytes is Some && valid_utf8(bytes->0) ==> match text::split_at_last(
                decode_utf8(bytes->0),
                '@',
            ) {
                None => found == Err::<NodeView, Seq<char>>("invalid ss URI payload"@),
                Some((credentials, server)) => found is Ok <==> credentials.contains(':')
                    && ends_in_port(server),
            }
            &&& found matches Ok(node) ==> node.raw_name == "Unnamed"@
        }),
{
    link::lemma_ss_scheme(encoded);
    text::lemma_index_of(encoded, '#');
    text::lemma_index_of(encoded, '?');
    text::lemma_last_index_of(encoded, '@');
    if let Some(bytes) = codec::base64_decoded(encoded) {
        if let Some((credentials, server)) = text::split_at_last(decode_utf8(bytes), '@') {
            lemma_host_port(server);
            text::lemma_index_of(credentials, ':');
        }
    }
}

/// No options follow in a text without `?`.
proof fn lemma_no_options(text: Seq<char>)
    requires
        !text.contains('?'),
    ensures
        uri::options_index(text) == text.len(),
    decreases text.len(),
{
    if text.len() >= 2 {
        assert(text.contains(text[1]));
        let rest = text.skip(1);
        assert(!rest.contains('?')) by {
            if rest.contains('?') {
                let k = choose|k: int| 0 <= k < rest.len() && rest[k] == '?';
                assert(text[k + 1] == '?');
            }
        }
        lemma_no_options(rest);
    }
}

/// A ShadowsocksR link without options is read just where it is base64 of a text
/// of six parts or more, the second a port and the sixth base64 of a text; the
/// node then has no name, and just its four parameters.
pub proof fn law_bare_shadowsocksr_link(form: Base64Form, parts: Seq<Seq<char>>)
    requires
        parts.len() > 0,
        forall|i: int|
            0 <= i < parts.len() ==> !(#[trigger] parts[i]).contains(':') && !parts[i].contains(
                '?',
            ),
    ensures
        ({
            let found = uri::uri_node(
                "ssr://"@ + codec::base64_encoded(
                    form,
                    encode_utf8(text::joined(parts, seq![':'])),
                ),
            );
            let secret = codec::base64_decoded(parts[5]);
            &&& found is Ok <==> parts.len() >= 6 && fields::port_value(parts[1]) is Some
                && secret is Some && valid_utf8(secret->0)
            &&& parts.len() < 6 ==> found == Err::<NodeView, Seq<char>>("invalid ssr URI payload"@)
            &&& found matches Ok(node) ==> {
                &&& node.host == parts[0]
                &&& fields::port_value(parts[1]) == Some(node.port)
                &&& node.raw_name == "Unnamed"@
                &&& strmap::value_of(node.params, "protocol"@) == Some(parts[2])
                &&& strmap::value_of(node.params, "method"@) == Some(parts[3])
                &&& strmap::value_of(node.params, "obfs"@) == Some(parts[4])
                &&& strmap::value_of(node.params, "password"@) == Some(decode_utf8(secret->0))
                &&& forall|key: Seq<char>| #[trigger]
                    node.params.contains_key(key) ==> key == "protocol"@ || key == "method"@ || key
                        == "obfs"@ || key == "password"@
            }
        }),
{
    let payload = text::joined(parts, seq![':']);
    let encoded = codec::base64_encoded(form, encode_utf8(payload));
    let uri = "ssr://"@ + encoded;
    names::lemma_ssr_keys();
    assert("ssr://"@.is_prefix_of(uri));
    assert(uri.skip("ssr://"@.len() as int) =~= encoded);
    links::lemma_ssr_scheme(uri);
    roundtrip::law_base64_round_trip(form, encode_utf8(payload));
    codec::law_utf8_round_trip(payload);
    roundtrip::law_split_join(parts, ':');
    roundtrip::lemma_joined_without(parts, seq![':'], '?');
    lemma_no_options(payload);
    lemma_no_query();
    assert(uri::decoded_options(codec::form_entries(Seq::empty())) =~= Seq::empty());
}

/// Protocols are called by the schemes of their links.
pub proof fn law_protocol_name(protocol: Protocol)
    ensures
        links::scheme_of(protocol) == node::protocol_name(protocol) + seq![':', '/', '/'],
{
    reveal_strlit("vmess");
    reveal_strlit("vless");
    reveal_strlit("trojan");
    reveal_strlit("ss");
    reveal_strlit("ssr");
    reveal_strlit("hysteria2");
    reveal_strlit("tuic");
    reveal_strlit("vmess://");
    reveal_strlit("vless://");
    reveal_strlit("trojan://");
    reveal_strlit("ss://");
    reveal_strlit("ssr://");
    reveal_strlit("hysteria2://");
    reveal_strlit("tuic://");
    assert(links::scheme_of(protocol) =~= node::protocol_name(protocol) + seq![':', '/', '/']);
}

} // verus!
