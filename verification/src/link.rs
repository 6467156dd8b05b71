//! Writing node links.

use vstd::prelude::*;
use vstd::string::*;
use vstd::utf8::*;

use crate::codec;
use crate::codec::{Base64Form, Place, PlainUrl};
use crate::fields;
use crate::node;
use crate::node::{NodeView, Protocol};
use crate::roundtrip;
use crate::strmap;
use crate::strmap::StrMap;
use crate::text;
use crate::uri;

verus! {

/// The query of a link, with its `?`: the parameters in the order of their
/// names, or nothing where there are none.
pub open spec fn query_suffix(params: Map<Seq<char>, Seq<char>>) -> Seq<char> {
    let query = codec::form_query(strmap::ordered_pairs(params));
    if query.len() == 0 {
        Seq::empty()
    } else {
        "?"@ + query
    }
}

/// The query of a link, with its `?`.
fn write_query(params: &StrMap<String>) -> (suffix: String)
    ensures
        suffix@ == query_suffix(params@),
{
    let pairs = strmap::pairs_of(params);
    let query = codec::write_form(&pairs);
    if query.as_str().is_empty() {
        String::new()
    } else {
        let mut suffix = "?".to_string();
        suffix.append(query.as_str());
        suffix
    }
}

/// What a link ends with: its query and its fragment.
pub open spec fn link_tail(params: Map<Seq<char>, Seq<char>>, tag: Seq<char>) -> Seq<char> {
    query_suffix(params) + "#"@ + codec::percent_encoded(encode_utf8(tag), Place::Fragment)
}

/// What a link ends with.
fn write_tail(params: &StrMap<String>, tag: &str) -> (tail: String)
    ensures
        tail@ == link_tail(params@, tag@),
{
    let mut tail = write_query(params);
    tail.append("#");
    tail.append(uri::encode_fragment_component(tag).as_str());
    tail
}

/// A host and a port with a `:` between them.
pub open spec fn server_text(host: Seq<char>, port: u16) -> Seq<char> {
    host + ":"@ + text::decimal(port as nat)
}

/// A host and a port with a `:` between them.
pub fn write_server(host: &str, port: u16) -> (server: String)
    ensures
        server@ == server_text(host@, port),
{
    let mut server = host.to_string();
    server.append(":");
    server.append(text::decimal_text(port as u64).as_str());
    server
}

/// The user information of a link: a user name, and a password behind a `:`
/// where there is one.
pub open spec fn userinfo(username: Seq<char>, password: Option<Seq<char>>) -> Seq<char> {
    let name = codec::percent_encoded(encode_utf8(username), Place::Userinfo);
    match password {
        Some(password) => name + ":"@ + codec::percent_encoded(
            encode_utf8(password),
            Place::Userinfo,
        ),
        None => name,
    }
}

/// A link that is a plain URL.
pub open spec fn standard_uri(
    scheme: Seq<char>,
    username: Seq<char>,
    password: Option<Seq<char>>,
    host: Seq<char>,
    port: u16,
    params: Map<Seq<char>, Seq<char>>,
    tag: Seq<char>,
) -> Seq<char> {
    scheme + "://"@ + userinfo(username, password) + "@"@ + server_text(host, port) + link_tail(
        params,
        tag,
    )
}

/// A link that is a plain URL.
pub fn build_standard_uri(
    scheme: &str,
    username: &str,
    password: Option<&str>,
    host: &str,
    port: u16,
    params: &StrMap<String>,
    tag: &str,
) -> (uri: String)
    ensures
        uri@ == standard_uri(
            scheme@,
            username@,
            text::slice_view(password),
            host@,
            port,
            params@,
            tag@,
        ),
{
    let mut credentials = uri::encode_userinfo(username);
    match password {
        Some(password) => {
            credentials.append(":");
            credentials.append(uri::encode_userinfo(password).as_str());
        },
        None => {},
    }
    let mut uri = scheme.to_string();
    uri.append("://");
    uri.append(credentials.as_str());
    uri.append("@");
    uri.append(write_server(host, port).as_str());
    uri.append(write_tail(params, tag).as_str());
    uri
}

/// A link that is a plain URL, as what it is written with.
pub open spec fn written_url(
    scheme: Seq<char>,
    username: Seq<char>,
    password: Option<Seq<char>>,
    host: Seq<char>,
    port: u16,
    params: Map<Seq<char>, Seq<char>>,
    tag: Seq<char>,
) -> PlainUrl {
    PlainUrl {
        scheme,
        username: codec::percent_encoded(encode_utf8(username), Place::Userinfo),
        password: match password {
            Some(password) => Some(codec::percent_encoded(encode_utf8(password), Place::Userinfo)),
            None => None,
        },
        host,
        port,
        query: codec::form_query(strmap::ordered_pairs(params)),
        fragment: codec::percent_encoded(encode_utf8(tag), Place::Fragment),
    }
}

/// Whether the links of a protocol are plain URLs.
pub open spec fn is_url_protocol(protocol: Protocol) -> bool {
    protocol is Vless || protocol is Trojan || protocol is Hysteria2 || protocol is Tuic
}

/// The parameters that a link gives its node: those of its query, and the
/// credentials as its protocol calls them.
pub open spec fn with_credentials(
    protocol: Protocol,
    params: Map<Seq<char>, Seq<char>>,
    username: Seq<char>,
    password: Option<Seq<char>>,
) -> Map<Seq<char>, Seq<char>> {
    match protocol {
        Protocol::Vless => params.insert("id"@, username),
        Protocol::Tuic => strmap::with_some(
            params.insert("uuid"@, username),
            "password"@,
            password,
        ),
        _ => params.insert("password"@, username),
    }
}

/// A link that was written as a plain URL is read as it was written, if its host
/// is made of letters, digits, dots and hyphens, user name and password are not
/// empty, and it is not longer than URLs can be.
pub proof fn law_written_url_is_read(
    protocol: Protocol,
    username: Seq<char>,
    password: Option<Seq<char>>,
    host: Seq<char>,
    port: u16,
    params: Map<Seq<char>, Seq<char>>,
    tag: Seq<char>,
)
    requires
        is_url_protocol(protocol),
        username.len() > 0,
        password matches Some(password) ==> password.len() > 0,
        codec::is_host_name(host),
        ({
            let uri = standard_uri(
                node::protocol_name(protocol),
                username,
                password,
                host,
                port,
                params,
                tag,
            );
            codec::before_fragment(uri).len() <= u32::MAX && uri::known_link(uri)
        }),
    ensures
        codec::url_parts(
            standard_uri(
                node::protocol_name(protocol),
                username,
                password,
                host,
                port,
                params,
                tag,
            ),
        ) == Some(
            codec::plain_parts(
                written_url(
                    node::protocol_name(protocol),
                    username,
                    password,
                    host,
                    port,
                    params,
                    tag,
                ),
            ),
        ),
{
    let scheme = node::protocol_name(protocol);
    let uri = standard_uri(scheme, username, password, host, port, params, tag);
    let url = written_url(scheme, username, password, host, port, params, tag);
    roundtrip::law_userinfo_is_plain(username);
    match password {
        Some(password) => {
            roundtrip::law_userinfo_is_plain(password);
        },
        None => {},
    }
    roundtrip::law_form_is_form_text(strmap::ordered_pairs(params));
    roundtrip::law_fragment_is_visible(tag);
    let rest = uri.skip(scheme.len() as int + 3);
    reveal_strlit("://");
    assert(uri =~= scheme + "://"@ + rest);
    lemma_url_scheme(protocol, rest);
    assert(uri =~= codec::url_text(url));
    assert(codec::is_plain_url(url));
}

/// A link that was written as a plain URL describes the node that it was written
/// for, where it is read with the parts that it was written with: protocol, host
/// and port, the name that its tag writes, and the parameters and credentials.
pub proof fn law_standard_link(
    protocol: Protocol,
    username: Seq<char>,
    password: Option<Seq<char>>,
    host: Seq<char>,
    port: u16,
    params: Map<Seq<char>, Seq<char>>,
    tag: Seq<char>,
)
    requires
        is_url_protocol(protocol),
        username.len() > 0,
        host.len() > 0,
        params.dom().finite(),
        codec::url_parts(
            standard_uri(
                node::protocol_name(protocol),
                username,
                password,
                host,
                port,
                params,
                tag,
            ),
        ) == Some(
            codec::plain_parts(
                written_url(
                    node::protocol_name(protocol),
                    username,
                    password,
                    host,
                    port,
                    params,
                    tag,
                ),
            ),
        ),
    ensures
        ({
            let uri = standard_uri(
                node::protocol_name(protocol),
                username,
                password,
                host,
                port,
                params,
                tag,
            );
            uri::uri_node(uri) == Ok::<NodeView, Seq<char>>(
                node::unprobed_node(
                    protocol,
                    host,
                    port,
                    with_credentials(protocol, params, username, password),
                    uri::name_or_unnamed(Some(tag)),
                    uri,
                ),
            )
        }),
{
    let scheme = node::protocol_name(protocol);
    let uri = standard_uri(scheme, username, password, host, port, params, tag);
    roundtrip::law_percent_round_trip(username, Place::Userinfo);
    roundtrip::law_percent_round_trip(tag, Place::Fragment);
    match password {
        Some(password) => {
            roundtrip::law_percent_round_trip(password, Place::Userinfo);
        },
        None => {},
    }
    law_query_round_trip(params);
    let rest = uri.skip(scheme.len() as int + 3);
    reveal_strlit("://");
    assert(uri =~= scheme + "://"@ + rest);
    lemma_url_scheme(protocol, rest);
}

/// A link is read as its scheme says.
proof fn lemma_url_scheme(protocol: Protocol, rest: Seq<char>)
    requires
        is_url_protocol(protocol),
    ensures
        codec::is_url_link(node::protocol_name(protocol) + "://"@ + rest),
        uri::uri_node(node::protocol_name(protocol) + "://"@ + rest) == uri::standard_link(
            node::protocol_name(protocol) + "://"@ + rest,
            protocol,
        ),
{
    let uri = node::protocol_name(protocol) + "://"@ + rest;
    reveal_strlit("://");
    reveal_strlit("vless");
    reveal_strlit("trojan");
    reveal_strlit("hysteria2");
    reveal_strlit("tuic");
    reveal_strlit("vmess://");
    reveal_strlit("vless://");
    reveal_strlit("trojan://");
    reveal_strlit("hysteria2://");
    reveal_strlit("tuic://");
    let prefix = match protocol {
        Protocol::Vless => "vless://"@,
        Protocol::Trojan => "trojan://"@,
        Protocol::Hysteria2 => "hysteria2://"@,
        _ => "tuic://"@,
    };
    assert(prefix =~= node::protocol_name(protocol) + "://"@);
    assert(uri.subrange(0, prefix.len() as int) =~= prefix);
    assert(uri[0] == prefix[0] && uri[1] == prefix[1]);
    if "vmess://"@.is_prefix_of(uri) {
        assert(uri.subrange(0, 8)[0] == 'v' && uri.subrange(0, 8)[1] == 'm');
    }
    if "vless://"@.is_prefix_of(uri) {
        assert(uri.subrange(0, 8)[0] == 'v');
    }
    if "trojan://"@.is_prefix_of(uri) {
        assert(uri.subrange(0, 9)[0] == 't' && uri.subrange(0, 9)[1] == 'r');
    }
    if "hysteria2://"@.is_prefix_of(uri) {
        assert(uri.subrange(0, 12)[0] == 'h');
    }
}

/// The parameters of a Shadowsocks node that its link carries in the query.
pub open spec fn ss_query(params: Map<Seq<char>, Seq<char>>) -> Map<Seq<char>, Seq<char>> {
    let plugin = strmap::with_some(
        Map::empty(),
        "plugin"@,
        strmap::value_of(params, "plugin"@),
    );
    let options = strmap::with_some(
        plugin,
        "plugin_opts"@,
        strmap::value_of(params, "plugin_opts"@),
    );
    strmap::with_some(options, "udp_over_tcp"@, strmap::value_of(params, "udp_over_tcp"@))
}

/// A Shadowsocks link with encoded credentials.
pub open spec fn ss_uri_with(
    credentials: Seq<char>,
    host: Seq<char>,
    port: u16,
    params: Map<Seq<char>, Seq<char>>,
    tag: Seq<char>,
) -> Seq<char> {
    "ss://"@ + credentials + "@"@ + server_text(host, port) + link_tail(ss_query(params), tag)
}

/// A Shadowsocks link with encoded credentials.
pub fn build_ss_uri_with(
    credentials: &str,
    host: &str,
    port: u16,
    params: &StrMap<String>,
    tag: &str,
) -> (uri: String)
    ensures
        uri@ == ss_uri_with(credentials@, host@, port, params@, tag@),
{
    let mut query: StrMap<String> = StrMap::new();
    strmap::insert_some(&mut query, "plugin", &strmap::get_text(params, "plugin"));
    strmap::insert_some(&mut query, "plugin_opts", &strmap::get_text(params, "plugin_opts"));
    strmap::insert_some(&mut query, "udp_over_tcp", &strmap::get_text(params, "udp_over_tcp"));
    let mut uri = "ss://".to_string();
    uri.append(credentials);
    uri.append("@");
    uri.append(write_server(host, port).as_str());
    uri.append(write_tail(&query, tag).as_str());
    uri
}

/// The credentials of a Shadowsocks link before they are encoded.
pub open spec fn ss_credentials(method: Seq<char>, password: Seq<char>) -> Seq<char> {
    method + ":"@ + password
}

/// A Shadowsocks link.
pub open spec fn ss_uri(
    host: Seq<char>,
    port: u16,
    method: Seq<char>,
    password: Seq<char>,
    params: Map<Seq<char>, Seq<char>>,
    tag: Seq<char>,
) -> Seq<char> {
    ss_uri_with(
        codec::standard_encoded(encode_utf8(ss_credentials(method, password))),
        host,
        port,
        params,
        tag,
    )
}

/// Whether a host can stand in a link as it is.
pub open spec fn is_plain_host(host: Seq<char>) -> bool {
    !host.contains('#') && !host.contains('?') && !host.contains('@')
}

/// A Shadowsocks link. Where the host can stand in a link as it is and the
/// method holds no `:`, reading the link gives back what it was built of.
pub fn build_ss_uri(
    host: &str,
    port: u16,
    method: &str,
    password: &str,
    params: &StrMap<String>,
    tag: &str,
) -> (uri: String)
    ensures
        uri@ == ss_uri(host@, port, method@, password@, params@, tag@),
        is_plain_host(host@) && !method@.contains(':') ==> uri::uri_node(uri@) == Ok::<
            NodeView,
            Seq<char>,
        >(ss_node(host@, port, method@, password@, params@, tag@, uri@)),
{
    let mut credentials = method.to_string();
    credentials.append(":");
    credentials.append(password);
    let encoded = codec::encode_base64(credentials.as_str());
    proof {
        if is_plain_host(host@) && !method@.contains(':') {
            law_ss_link_in_any_form(
                codec::standard_form(),
                host@,
                port,
                method@,
                password@,
                params@,
                tag@,
            );
        }
    }
    build_ss_uri_with(encoded.as_str(), host, port, params, tag)
}

/// A vmess link with an encoded document.
pub open spec fn vmess_uri(encoded: Seq<char>) -> Seq<char> {
    "vmess://"@ + encoded
}

/// A vmess link with an encoded document.
pub fn build_vmess_uri(encoded: &str) -> (uri: String)
    ensures
        uri@ == vmess_uri(encoded@),
{
    let mut uri = "vmess://".to_string();
    uri.append(encoded);
    uri
}

/// The node that a Shadowsocks link describes.
pub open spec fn ss_node(
    host: Seq<char>,
    port: u16,
    method: Seq<char>,
    password: Seq<char>,
    params: Map<Seq<char>, Seq<char>>,
    tag: Seq<char>,
    uri: Seq<char>,
) -> NodeView {
    node::unprobed_node(
        Protocol::Shadowsocks,
        host,
        port,
        ss_query(params).insert("method"@, method).insert("password"@, password),
        tag,
        uri,
    )
}

/// The parameters that a query was written with are read back from it, and
/// nothing is read where there is none.
pub proof fn law_query_round_trip(params: Map<Seq<char>, Seq<char>>)
    requires
        params.dom().finite(),
    ensures
        uri::query_params(codec::form_query(strmap::ordered_pairs(params))) == params,
{
    strmap::law_ordered_pairs_exist(params);
    roundtrip::law_form_round_trip(strmap::ordered_pairs(params));
}

/// What stands before the query of a link stays when the link is cut at its
/// fragment and its query.
pub proof fn lemma_cut_tail(main: Seq<char>, params: Map<Seq<char>, Seq<char>>, tag: Seq<char>)
    requires
        !main.contains('#'),
        !main.contains('?'),
        params.dom().finite(),
    ensures
        uri::fragment_split(main + link_tail(params, tag)).1 == tag,
        uri::query_split(uri::fragment_split(main + link_tail(params, tag)).0).0 == main,
        uri::query_params(uri::query_split(uri::fragment_split(main + link_tail(params, tag)).0).1)
            == params,
{
    let query = codec::form_query(strmap::ordered_pairs(params));
    let suffix = query_suffix(params);
    let before = main + suffix;
    let fragment = codec::percent_encoded(encode_utf8(tag), Place::Fragment);
    let whole = main + link_tail(params, tag);
    reveal_strlit("#");
    reveal_strlit("?");
    roundtrip::law_form_is_plain(strmap::ordered_pairs(params));
    law_query_round_trip(params);
    assert(whole =~= before + "#"@ + fragment);
    assert forall|j: int| 0 <= j < before.len() implies before[j] != '#' by {
        if j < main.len() {
            assert(before[j] == main[j]);
        } else if j > main.len() {
            assert(before[j] == query[j - main.len() - 1]);
        }
    }
    assert forall|j: int| 0 <= j < before.len() implies whole[j] == before[j] by {}
    assert(whole[before.len() as int] == '#');
    text::lemma_index_of_is(whole, '#', before.len() as int);
    assert(whole.take(before.len() as int) =~= before);
    assert(whole.skip(before.len() as int + 1) =~= fragment);
    roundtrip::law_percent_round_trip(tag, Place::Fragment);
    assert forall|j: int| 0 <= j < main.len() implies before[j] != '?' by {
        assert(before[j] == main[j]);
    }
    text::lemma_index_of_is(before, '?', main.len() as int);
    if query.len() == 0 {
        assert(before =~= main);
        assert(query =~= Seq::empty());
    } else {
        assert(before.take(main.len() as int) =~= main);
        assert(before.skip(main.len() as int + 1) =~= query);
    }
}

/// A port in decimal is read back, and holds neither `:` nor `@`, `#` nor `?`.
pub proof fn lemma_port_text(port: u16)
    ensures
        fields::port_value(text::decimal(port as nat)) == Some(port),
        forall|j: int|
            0 <= j < text::decimal(port as nat).len() ==> {
                let ch = #[trigger] text::decimal(port as nat)[j];
                ch != ':' && ch != '@' && ch != '#' && ch != '?'
            },
{
    text::lemma_decimal_digits(port as nat);
    text::law_decimal_round_trip(port as nat, u16::MAX as nat);
}

/// A server is cut at its last `:`.
pub proof fn lemma_server(host: Seq<char>, port: u16)
    ensures
        uri::host_port(server_text(host, port)) == Ok::<(Seq<char>, u16), Seq<char>>((host, port)),
{
    let server = server_text(host, port);
    let digits = text::decimal(port as nat);
    reveal_strlit(":");
    lemma_port_text(port);
    assert forall|j: int| host.len() < j < server.len() implies server[j] != ':' by {
        assert(server[j] == digits[j - host.len() - 1]);
    }
    assert(server[host.len() as int] == ':');
    text::lemma_last_index_of_is(server, ':', host.len() as int);
    assert(server.take(host.len() as int) =~= host);
    assert(server.skip(host.len() as int + 1) =~= digits);
}

/// The credentials of a link are cut at their first `:`.
pub proof fn lemma_credentials(method: Seq<char>, password: Seq<char>)
    requires
        !method.contains(':'),
    ensures
        text::split_at_first(ss_credentials(method, password), ':') == Some((method, password)),
{
    let whole = ss_credentials(method, password);
    reveal_strlit(":");
    assert forall|j: int| 0 <= j < method.len() implies whole[j] != ':' by {
        assert(whole[j] == method[j]);
    }
    assert(whole[method.len() as int] == ':');
    text::lemma_index_of_is(whole, ':', method.len() as int);
    assert(whole.take(method.len() as int) =~= method);
    assert(whole.skip(method.len() as int + 1) =~= password);
}

/// Reading a Shadowsocks link gives back what it was built of.
proof fn lemma_ss_uri(
    credentials: Seq<char>,
    host: Seq<char>,
    port: u16,
    method: Seq<char>,
    password: Seq<char>,
    params: Map<Seq<char>, Seq<char>>,
    tag: Seq<char>,
)
    requires
        codec::is_base64_text(credentials),
        codec::base64_decoded(credentials) == Some(encode_utf8(ss_credentials(method, password))),
        is_plain_host(host),
        !method.contains(':'),
    ensures
        uri::uri_node(ss_uri_with(credentials, host, port, params, tag)) == Ok::<
            NodeView,
            Seq<char>,
        >(
            ss_node(
                host,
                port,
                method,
                password,
                params,
                tag,
                ss_uri_with(credentials, host, port, params, tag),
            ),
        ),
{
    let server = server_text(host, port);
    let digits = text::decimal(port as nat);
    let main = credentials + "@"@ + server;
    let whole = ss_uri_with(credentials, host, port, params, tag);
    reveal_strlit("@");
    reveal_strlit(":");
    lemma_port_text(port);
    assert forall|j: int| 0 <= j < server.len() implies server[j] != '#' && server[j] != '?'
        && server[j] != '@' by {
        if j < host.len() {
            assert(server[j] == host[j]);
        } else if j > host.len() {
            assert(server[j] == digits[j - host.len() - 1]);
        }
    }
    assert forall|j: int| 0 <= j < main.len() implies main[j] != '#' && main[j] != '?' by {
        if j < credentials.len() {
            assert(codec::is_base64_char(credentials[j]));
            assert(main[j] == credentials[j]);
        } else if j > credentials.len() {
            assert(main[j] == server[j - credentials.len() - 1]);
        }
    }
    assert forall|j: int| credentials.len() < j < main.len() implies main[j] != '@' by {
        assert(main[j] == server[j - credentials.len() - 1]);
    }
    assert(main[credentials.len() as int] == '@');
    text::lemma_last_index_of_is(main, '@', credentials.len() as int);
    assert(main.take(credentials.len() as int) =~= credentials);
    assert(main.skip(credentials.len() as int + 1) =~= server);
    codec::law_utf8_round_trip(ss_credentials(method, password));
    lemma_server(host, port);
    lemma_credentials(method, password);
    lemma_cut_tail(main, ss_query(params), tag);
    lemma_ss_scheme(main + link_tail(ss_query(params), tag));
    assert(whole =~= "ss://"@ + (main + link_tail(ss_query(params), tag)));
}

/// Reading a Shadowsocks link gives back what it was built of, in whatever form
/// of base64 its credentials are, if the host can stand in a link as it is and
/// the method holds no `:`.
pub proof fn law_ss_link_in_any_form(
    form: Base64Form,
    host: Seq<char>,
    port: u16,
    method: Seq<char>,
    password: Seq<char>,
    params: Map<Seq<char>, Seq<char>>,
    tag: Seq<char>,
)
    requires
        is_plain_host(host),
        !method.contains(':'),
    ensures
        ({
            let encoded = codec::base64_encoded(
                form,
                encode_utf8(ss_credentials(method, password)),
            );
            let uri = ss_uri_with(encoded, host, port, params, tag);
            uri::uri_node(uri) == Ok::<NodeView, Seq<char>>(
                ss_node(host, port, method, password, params, tag, uri),
            )
        }),
{
    let bytes = encode_utf8(ss_credentials(method, password));
    roundtrip::lemma_base64_chars(form, bytes);
    roundtrip::law_base64_round_trip(form, bytes);
    lemma_ss_uri(
        codec::base64_encoded(form, bytes),
        host,
        port,
        method,
        password,
        params,
        tag,
    );
}

/// A link that starts with `ss://` is read as a Shadowsocks link.
pub proof fn lemma_ss_scheme(content: Seq<char>)
    ensures
        uri::uri_node("ss://"@ + content) == uri::shadowsocks_link("ss://"@ + content, content),
{
    let whole = "ss://"@ + content;
    reveal_strlit("ss://");
    reveal_strlit("vmess://");
    reveal_strlit("vless://");
    reveal_strlit("trojan://");
    reveal_strlit("hysteria2://");
    reveal_strlit("tuic://");
    assert(whole[0] == 's');
    text::lemma_not_prefix("vmess://"@, whole);
    text::lemma_not_prefix("vless://"@, whole);
    text::lemma_not_prefix("trojan://"@, whole);
    text::lemma_not_prefix("hysteria2://"@, whole);
    text::lemma_not_prefix("tuic://"@, whole);
    assert("ss://"@.is_prefix_of(whole));
    assert(whole.skip(5) =~= content);
}

} // verus!
