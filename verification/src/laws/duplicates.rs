//! Duplicates: which nodes are taken for one, and which of them is kept.

use vstd::prelude::*;
use vstd::string::*;
use vstd::utf8::*;

use crate::codec;
use crate::dedup;
use crate::laws::names;
use crate::node;
use crate::node::{NodeView, Protocol};
use crate::roundtrip;
use crate::strmap;
use crate::text;

verus! {

// ---------------------------------------------------------------------------
// What nodes are told apart by
// ---------------------------------------------------------------------------

/// A parameter of a node, or nothing where it has none.
pub open spec fn param(node: NodeView, key: Seq<char>) -> Seq<char> {
    if node.params.contains_key(key) {
        node.params[key]
    } else {
        ""@
    }
}

/// Whether two nodes have a parameter in common, or both have nothing for it.
pub open spec fn agree(a: NodeView, b: NodeView, key: Seq<char>) -> bool {
    param(a, key) == param(b, key)
}

/// Whether two nodes have the same credentials, as their protocol calls them.
pub open spec fn same_credentials(a: NodeView, b: NodeView) -> bool {
    match a.protocol {
        Protocol::Vmess | Protocol::Vless => agree(a, b, "id"@),
        Protocol::Trojan | Protocol::Hysteria2 => agree(a, b, "password"@),
        Protocol::Shadowsocks | Protocol::ShadowsocksR => agree(a, b, "method"@) && agree(
            a,
            b,
            "password"@,
        ),
        Protocol::Tuic => agree(a, b, "uuid"@) && agree(a, b, "password"@),
    }
}

/// Whether two nodes of one protocol go the same way, as far as this tells nodes
/// of the protocol apart.
pub open spec fn same_way(a: NodeView, b: NodeView) -> bool {
    match a.protocol {
        Protocol::Vmess => agree(a, b, "aid"@) && agree(a, b, "net"@) && agree(a, b, "path"@)
            && agree(a, b, "host"@),
        Protocol::Vless => agree(a, b, "type"@) && agree(a, b, "path"@) && agree(a, b, "host"@)
            && agree(a, b, "security"@) && agree(a, b, "sni"@) && agree(a, b, "serviceName"@)
            && agree(a, b, "flow"@) && agree(a, b, "mode"@) && agree(a, b, "headerType"@),
        Protocol::Trojan => agree(a, b, "sni"@) && agree(a, b, "type"@) && agree(a, b, "path"@)
            && agree(a, b, "host"@),
        Protocol::Shadowsocks => a.host == b.host,
        Protocol::ShadowsocksR => a.host == b.host && agree(a, b, "protocol"@) && agree(
            a,
            b,
            "obfs"@,
        ),
        Protocol::Hysteria2 => a.host == b.host && agree(a, b, "obfs"@) && agree(
            a,
            b,
            "obfs-password"@,
        ) && agree(a, b, "sni"@),
        Protocol::Tuic => a.host == b.host,
    }
}

/// The fields that a fingerprint is made of hold every critical parameter.
proof fn lemma_with_keys(
    fields: Map<Seq<char>, Seq<char>>,
    keys: Seq<Seq<char>>,
    node: NodeView,
    key: Seq<char>,
)
    ensures
        strmap::value_of(dedup::with_keys(fields, keys, node.params), key) == if keys.contains(
            key,
        ) {
            Some(param(node, key))
        } else {
            strmap::value_of(fields, key)
        },
    decreases keys.len(),
{
    if keys.len() > 0 {
        lemma_with_keys(fields, keys.drop_last(), node, key);
        if keys.last() == key {
            assert(keys[keys.len() - 1] == key);
        } else if keys.contains(key) {
            let i = choose|i: int| 0 <= i < keys.len() && keys[i] == key;
            assert(keys.drop_last()[i] == key);
        } else if keys.drop_last().contains(key) {
            let i = choose|i: int| 0 <= i < keys.drop_last().len() && keys.drop_last()[i] == key;
            assert(keys[i] == key);
        }
    }
}

/// What a node is told apart by: its port always, and under each critical
/// parameter of its protocol the node's value.
proof fn lemma_identity(node: NodeView, key: Seq<char>)
    ensures
        strmap::value_of(dedup::identity_fields(node), key) == if dedup::critical_keys(
            node.protocol,
        ).contains(key) {
            Some(param(node, key))
        } else if key == "protocol"@ {
            Some(node::protocol_name(node.protocol))
        } else if key == "host"@ {
            Some(node.host)
        } else if key == "port"@ {
            Some(text::decimal(node.port as nat))
        } else {
            None
        },
{
    let base = Map::<Seq<char>, Seq<char>>::empty().insert(
        "protocol"@,
        node::protocol_name(node.protocol),
    ).insert("host"@, node.host).insert("port"@, text::decimal(node.port as nat));
    names::lemma_print_keys();
    lemma_with_keys(base, dedup::critical_keys(node.protocol), node, key);
}

/// Which parameters are critical for a protocol.
pub open spec fn is_critical(protocol: Protocol, key: Seq<char>) -> bool {
    match protocol {
        Protocol::Vmess => key == "id"@ || key == "aid"@ || key == "net"@ || key == "path"@ || key
            == "host"@,
        Protocol::Vless => key == "id"@ || key == "type"@ || key == "path"@ || key == "host"@ || key
            == "security"@ || key == "sni"@ || key == "serviceName"@ || key == "flow"@ || key
            == "mode"@ || key == "headerType"@,
        Protocol::Trojan => key == "password"@ || key == "sni"@ || key == "type"@ || key == "path"@
            || key == "host"@,
        Protocol::Shadowsocks => key == "method"@ || key == "password"@,
        Protocol::ShadowsocksR => key == "method"@ || key == "password"@ || key == "protocol"@
            || key == "obfs"@,
        Protocol::Hysteria2 => key == "password"@ || key == "obfs"@ || key == "obfs-password"@
            || key == "sni"@,
        Protocol::Tuic => key == "uuid"@ || key == "password"@,
    }
}

/// The critical parameters of a protocol.
proof fn lemma_critical(protocol: Protocol, key: Seq<char>)
    ensures
        dedup::critical_keys(protocol).contains(key) <==> is_critical(protocol, key),
{
    let keys = dedup::critical_keys(protocol);
    match protocol {
        Protocol::Vmess => {
            assert(keys[0] == "id"@ && keys[1] == "aid"@ && keys[2] == "net"@ && keys[3]
                == "path"@ && keys[4] == "host"@);
        },
        Protocol::Vless => {
            assert(keys[0] == "id"@ && keys[1] == "type"@ && keys[2] == "path"@ && keys[3]
                == "host"@ && keys[4] == "security"@ && keys[5] == "sni"@ && keys[6]
                == "serviceName"@ && keys[7] == "flow"@ && keys[8] == "mode"@ && keys[9]
                == "headerType"@);
        },
        Protocol::Trojan => {
            assert(keys[0] == "password"@ && keys[1] == "sni"@ && keys[2] == "type"@ && keys[3]
                == "path"@ && keys[4] == "host"@);
        },
        Protocol::Shadowsocks => {
            assert(keys[0] == "method"@ && keys[1] == "password"@);
        },
        Protocol::ShadowsocksR => {
            assert(keys[0] == "method"@ && keys[1] == "password"@ && keys[2] == "protocol"@
                && keys[3] == "obfs"@);
        },
        Protocol::Hysteria2 => {
            assert(keys[0] == "password"@ && keys[1] == "obfs"@ && keys[2] == "obfs-password"@
                && keys[3] == "sni"@);
        },
        Protocol::Tuic => {
            assert(keys[0] == "uuid"@ && keys[1] == "password"@);
        },
    }
}

/// Two nodes of one protocol have the same fields for their fingerprints just
/// where they have the same port, the same credentials, and go the same way.
pub proof fn law_same_fields(a: NodeView, b: NodeView)
    requires
        a.protocol == b.protocol,
    ensures
        dedup::identity_fields(a) == dedup::identity_fields(b) <==> a.port == b.port
            && same_credentials(a, b) && same_way(a, b),
{
    let first = dedup::identity_fields(a);
    let second = dedup::identity_fields(b);
    names::lemma_print_keys();
    text::law_decimal_round_trip(a.port as nat, u16::MAX as nat);
    text::law_decimal_round_trip(b.port as nat, u16::MAX as nat);
    assert forall|key: Seq<char>| #[trigger]
        strmap::value_of(first, key) == (if is_critical(a.protocol, key) {
            Some(param(a, key))
        } else if key == "protocol"@ {
            Some(node::protocol_name(a.protocol))
        } else if key == "host"@ {
            Some(a.host)
        } else if key == "port"@ {
            Some(text::decimal(a.port as nat))
        } else {
            None
        }) by {
        lemma_identity(a, key);
        lemma_critical(a.protocol, key);
    }
    assert forall|key: Seq<char>| #[trigger]
        strmap::value_of(second, key) == (if is_critical(b.protocol, key) {
            Some(param(b, key))
        } else if key == "protocol"@ {
            Some(node::protocol_name(b.protocol))
        } else if key == "host"@ {
            Some(b.host)
        } else if key == "port"@ {
            Some(text::decimal(b.port as nat))
        } else {
            None
        }) by {
        lemma_identity(b, key);
        lemma_critical(b.protocol, key);
    }
    if first == second {
        assert(strmap::value_of(first, "port"@) == strmap::value_of(second, "port"@));
        assert(strmap::value_of(first, "host"@) == strmap::value_of(second, "host"@));
        assert forall|key: Seq<char>| is_critical(a.protocol, key) implies #[trigger] param(a, key)
            == param(b, key) by {
            assert(strmap::value_of(first, key) == strmap::value_of(second, key));
        }
    }
    if a.port == b.port && same_credentials(a, b) && same_way(a, b) {
        assert forall|key: Seq<char>| #[trigger]
            first.contains_key(key) == second.contains_key(key) && (first.contains_key(key)
                ==> first[key] == second[key]) by {
            assert(strmap::value_of(first, key) == strmap::value_of(second, key));
        }
        assert(first =~= second);
    }
}

/// Nodes of two protocols have different fields for their fingerprints, where
/// neither is one of ShadowsocksR.
pub proof fn law_protocols_are_told_apart(a: NodeView, b: NodeView)
    requires
        a.protocol != b.protocol,
        !(a.protocol is ShadowsocksR) && !(b.protocol is ShadowsocksR),
    ensures
        dedup::identity_fields(a) != dedup::identity_fields(b),
{
    names::lemma_print_keys();
    names::lemma_types();
    lemma_critical(a.protocol, "protocol"@);
    lemma_critical(b.protocol, "protocol"@);
    lemma_identity(a, "protocol"@);
    lemma_identity(b, "protocol"@);
    reveal_strlit("ss");
    reveal_strlit("vmess");
    reveal_strlit("vless");
    reveal_strlit("trojan");
    reveal_strlit("hysteria2");
    reveal_strlit("tuic");
    assert("ss"@.len() == 2 && "vmess"@.len() == 5 && "vless"@.len() == 5 && "trojan"@.len() == 6
        && "hysteria2"@.len() == 9 && "tuic"@.len() == 4);
}

// ---------------------------------------------------------------------------
// Fingerprints
// ---------------------------------------------------------------------------

/// Whether fields can be told apart when they are written one behind the other:
/// no key and no value holds a `|`, and no key an `=`.
pub open spec fn are_plain(fields: Map<Seq<char>, Seq<char>>) -> bool {
    &&& fields.dom().finite()
    &&& forall|key: Seq<char>| #[trigger]
        fields.contains_key(key) ==> !key.contains('|') && !key.contains('=')
            && !fields[key].contains('|')
}

/// Fields that differ are written differently.
pub proof fn law_canonical_tells_apart(
    a: Map<Seq<char>, Seq<char>>,
    b: Map<Seq<char>, Seq<char>>,
)
    requires
        are_plain(a),
        are_plain(b),
        a.len() > 0,
        b.len() > 0,
        dedup::canonical(a) == dedup::canonical(b),
    ensures
        a == b,
{
    lemma_assignments(a);
    lemma_assignments(b);
    let first = strmap::ordered_pairs(a);
    let second = strmap::ordered_pairs(b);
    let write = |pair: (Seq<char>, Seq<char>)| dedup::assignment(pair);
    assert(first.map_values(write) == second.map_values(write));
    assert(first.len() == first.map_values(write).len());
    assert(second.len() == second.map_values(write).len());
    assert forall|i: int| 0 <= i < first.len() implies first[i] == second[i] by {
        assert(first.map_values(write)[i] == dedup::assignment(first[i]));
        assert(second.map_values(write)[i] == dedup::assignment(second[i]));
    }
    assert(first =~= second);
    strmap::law_ordered_pairs_exist(a);
    strmap::law_ordered_pairs_exist(b);
}

/// The assignments that fields are written as are read back from them.
proof fn lemma_assignments(fields: Map<Seq<char>, Seq<char>>)
    requires
        are_plain(fields),
        fields.len() > 0,
    ensures
        text::pieces(dedup::canonical(fields), '|') == strmap::ordered_pairs(fields).map_values(
            |pair: (Seq<char>, Seq<char>)| dedup::assignment(pair),
        ),
        forall|i: int|
            0 <= i < strmap::ordered_pairs(fields).len() ==> text::split_at_first(
                dedup::assignment(#[trigger] strmap::ordered_pairs(fields)[i]),
                '=',
            ) == Some(strmap::ordered_pairs(fields)[i]),
{
    let pairs = strmap::ordered_pairs(fields);
    let list = pairs.map_values(|pair: (Seq<char>, Seq<char>)| dedup::assignment(pair));
    strmap::law_ordered_pairs_exist(fields);
    reveal_strlit("=");
    reveal_strlit("|");
    assert forall|i: int| 0 <= i < pairs.len() implies !dedup::assignment(
        #[trigger] pairs[i],
    ).contains('|') && text::split_at_first(dedup::assignment(pairs[i]), '=') == Some(pairs[i]) by {
        let pair = pairs[i];
        let whole = dedup::assignment(pair);
        strmap::lemma_pair_map_value(pairs, i);
        assert(fields.contains_key(pair.0));
        assert forall|j: int| 0 <= j < whole.len() implies whole[j] != '|' by {
            if j < pair.0.len() {
                assert(whole[j] == pair.0[j]);
            } else if j > pair.0.len() {
                assert(whole[j] == pair.1[j - pair.0.len() - 1]);
            }
        }
        assert forall|j: int| 0 <= j < pair.0.len() implies whole[j] != '=' by {
            assert(whole[j] == pair.0[j]);
        }
        text::lemma_index_of_is(whole, '=', pair.0.len() as int);
        assert(whole.take(pair.0.len() as int) =~= pair.0);
        assert(whole.skip(pair.0.len() as int + 1) =~= pair.1);
    }
    if pairs.len() == 0 {
        assert(strmap::pair_map(pairs) == Map::<Seq<char>, Seq<char>>::empty());
    }
    assert forall|i: int| 0 <= i < list.len() implies !(#[trigger] list[i]).contains('|') by {
        assert(list[i] == dedup::assignment(pairs[i]));
    }
    roundtrip::law_split_join(list, '|');
    assert("|"@ =~= seq!['|']);
}

/// Bytes that differ are written differently in hexadecimal.
pub proof fn law_hex_tells_apart(a: Seq<u8>, b: Seq<u8>)
    requires
        dedup::hex_text(a) == dedup::hex_text(b),
    ensures
        a == b,
    decreases a.len(),
{
    lemma_hex_length(a);
    lemma_hex_length(b);
    if a.len() > 0 {
        let first = dedup::hex_text(a);
        let second = dedup::hex_text(b);
        assert(first.last() == second.last());
        assert(first.drop_last() == second.drop_last());
        assert(first.drop_last() =~= dedup::hex_text(a.drop_last()).push(
            dedup::low_hex_digit(a.last() as int / 16),
        ));
        assert(second.drop_last() =~= dedup::hex_text(b.drop_last()).push(
            dedup::low_hex_digit(b.last() as int / 16),
        ));
        assert(first.drop_last().last() == second.drop_last().last());
        assert(first.drop_last().drop_last() =~= dedup::hex_text(a.drop_last()));
        assert(second.drop_last().drop_last() =~= dedup::hex_text(b.drop_last()));
        law_hex_tells_apart(a.drop_last(), b.drop_last());
        lemma_hex_digits(a.last() as int / 16, b.last() as int / 16);
        lemma_hex_digits(a.last() as int % 16, b.last() as int % 16);
        assert(a.last() as int == a.last() as int / 16 * 16 + a.last() as int % 16);
        assert(b.last() as int == b.last() as int / 16 * 16 + b.last() as int % 16);
        assert(a =~= a.drop_last().push(a.last()));
        assert(b =~= b.drop_last().push(b.last()));
    } else {
        assert(a =~= b);
    }
}

/// A byte takes two digits.
proof fn lemma_hex_length(bytes: Seq<u8>)
    ensures
        dedup::hex_text(bytes).len() == 2 * bytes.len(),
    decreases bytes.len(),
{
    if bytes.len() > 0 {
        lemma_hex_length(bytes.drop_last());
    }
}

/// Digits of different values differ.
proof fn lemma_hex_digits(a: int, b: int)
    requires
        0 <= a < 16,
        0 <= b < 16,
        dedup::low_hex_digit(a) == dedup::low_hex_digit(b),
    ensures
        a == b,
{
}

/// Whether the digests of two nodes' fields are the same only where the fields
/// are written the same.
pub open spec fn digests_differ(a: NodeView, b: NodeView) -> bool {
    let first = dedup::canonical(dedup::identity_fields(a));
    let second = dedup::canonical(dedup::identity_fields(b));
    codec::sha256_digest(encode_utf8(first)) == codec::sha256_digest(encode_utf8(second)) ==> first
        == second
}

/// Two nodes of one protocol have the same fingerprint just where they have the
/// same port, the same credentials, and go the same way, if the digests of
/// different texts differ and no value holds a `|`.
pub proof fn law_same_fingerprint(a: NodeView, b: NodeView)
    requires
        a.protocol == b.protocol,
        digests_differ(a, b),
        has_no_bars(a),
        has_no_bars(b),
    ensures
        dedup::fingerprint(a) == dedup::fingerprint(b) <==> a.port == b.port && same_credentials(
            a,
            b,
        ) && same_way(a, b),
{
    law_same_fields(a, b);
    if dedup::fingerprint(a) == dedup::fingerprint(b) {
        let first = dedup::identity_fields(a);
        let second = dedup::identity_fields(b);
        law_hex_tells_apart(
            codec::sha256_digest(encode_utf8(dedup::canonical(first))),
            codec::sha256_digest(encode_utf8(dedup::canonical(second))),
        );
        lemma_plain_fields(a);
        lemma_plain_fields(b);
        law_canonical_tells_apart(first, second);
    }
}

/// Whether neither the host nor a parameter of a node holds a `|`.
pub open spec fn has_no_bars(node: NodeView) -> bool {
    &&& !node.host.contains('|')
    &&& forall|key: Seq<char>| #[trigger]
        node.params.contains_key(key) ==> !node.params[key].contains('|')
}

/// The fields of a fingerprint can be told apart.
proof fn lemma_plain_fields(node: NodeView)
    requires
        has_no_bars(node),
    ensures
        are_plain(dedup::identity_fields(node)),
        dedup::identity_fields(node).len() > 0,
{
    let fields = dedup::identity_fields(node);
    lemma_finite(
        Map::<Seq<char>, Seq<char>>::empty().insert(
            "protocol"@,
            node::protocol_name(node.protocol),
        ).insert("host"@, node.host).insert("port"@, text::decimal(node.port as nat)),
        dedup::critical_keys(node.protocol),
        node.params,
    );
    lemma_plain_names();
    text::lemma_decimal_digits(node.port as nat);
    assert forall|key: Seq<char>| #[trigger] fields.contains_key(key) implies !key.contains('|')
        && !key.contains('=') && !fields[key].contains('|') by {
        lemma_identity(node, key);
        lemma_critical(node.protocol, key);
        assert(strmap::value_of(fields, key) == Some(fields[key]));
        let digits = text::decimal(node.port as nat);
        assert forall|j: int| 0 <= j < digits.len() implies digits[j] != '|' by {}
        assert(!digits.contains('|'));
        reveal_strlit("");
        assert(!""@.contains('|'));
    }
    lemma_identity(node, "port"@);
    lemma_critical(node.protocol, "port"@);
    names::lemma_print_keys();
    assert(strmap::value_of(fields, "port"@) is Some);
    assert(fields.dom().contains("port"@));
    assert(fields.dom().len() > 0) by {
        if fields.dom().len() == 0 {
            assert(fields.dom() =~= Set::empty());
        }
    }
}

/// Fields stay finitely many.
proof fn lemma_finite(
    fields: Map<Seq<char>, Seq<char>>,
    keys: Seq<Seq<char>>,
    params: Map<Seq<char>, Seq<char>>,
)
    requires
        fields.dom().finite(),
    ensures
        dedup::with_keys(fields, keys, params).dom().finite(),
    decreases keys.len(),
{
    if keys.len() > 0 {
        lemma_finite(fields, keys.drop_last(), params);
    }
}

/// Neither the names of the fields nor those of the protocols hold a `|` or an
/// `=`.
proof fn lemma_plain_names()
    ensures
        !"protocol"@.contains('|') && !"protocol"@.contains('='),
        !"host"@.contains('|') && !"host"@.contains('='),
        !"port"@.contains('|') && !"port"@.contains('='),
        !"id"@.contains('|') && !"id"@.contains('='),
        !"aid"@.contains('|') && !"aid"@.contains('='),
        !"net"@.contains('|') && !"net"@.contains('='),
        !"path"@.contains('|') && !"path"@.contains('='),
        !"type"@.contains('|') && !"type"@.contains('='),
        !"security"@.contains('|') && !"security"@.contains('='),
        !"sni"@.contains('|') && !"sni"@.contains('='),
        !"serviceName"@.contains('|') && !"serviceName"@.contains('='),
        !"flow"@.contains('|') && !"flow"@.contains('='),
        !"mode"@.contains('|') && !"mode"@.contains('='),
        !"headerType"@.contains('|') && !"headerType"@.contains('='),
        !"password"@.contains('|') && !"password"@.contains('='),
        !"method"@.contains('|') && !"method"@.contains('='),
        !"obfs"@.contains('|') && !"obfs"@.contains('='),
        !"obfs-password"@.contains('|') && !"obfs-password"@.contains('='),
        !"uuid"@.contains('|') && !"uuid"@.contains('='),
        !"vmess"@.contains('|') && !"vmess"@.contains('='),
        !"vless"@.contains('|') && !"vless"@.contains('='),
        !"trojan"@.contains('|') && !"trojan"@.contains('='),
        !"ss"@.contains('|') && !"ss"@.contains('='),
        !"ssr"@.contains('|') && !"ssr"@.contains('='),
        !"hysteria2"@.contains('|') && !"hysteria2"@.contains('='),
        !"tuic"@.contains('|') && !"tuic"@.contains('='),
{
    reveal_strlit("protocol");
    reveal_strlit("host");
    reveal_strlit("port");
    reveal_strlit("id");
    reveal_strlit("aid");
    reveal_strlit("net");
    reveal_strlit("path");
    reveal_strlit("type");
    reveal_strlit("security");
    reveal_strlit("sni");
    reveal_strlit("serviceName");
    reveal_strlit("flow");
    reveal_strlit("mode");
    reveal_strlit("headerType");
    reveal_strlit("password");
    reveal_strlit("method");
    reveal_strlit("obfs");
    reveal_strlit("obfs-password");
    reveal_strlit("uuid");
    reveal_strlit("vmess");
    reveal_strlit("vless");
    reveal_strlit("trojan");
    reveal_strlit("ss");
    reveal_strlit("ssr");
    reveal_strlit("hysteria2");
    reveal_strlit("tuic");
}

// ---------------------------------------------------------------------------
// Which nodes are kept
// ---------------------------------------------------------------------------

/// Of nodes with one fingerprint the first is kept, at the place that it has
/// among those that are kept: what is kept of the nodes before a node comes
/// first, then the node, just where no node before it has its fingerprint.
pub proof fn law_first_is_kept(nodes: Seq<NodeView>, i: int)
    requires
        0 <= i < nodes.len(),
    ensures
        ({
            let kept = dedup::first_of_each(nodes);
            let before = dedup::first_of_each(nodes.take(i));
            let upto = dedup::first_of_each(nodes.take(i + 1));
            let is_new = forall|j: int|
                0 <= j < i ==> dedup::fingerprint(#[trigger] nodes[j]) != dedup::fingerprint(
                    nodes[i],
                );
            &&& before.is_prefix_of(kept)
            &&& is_new ==> upto == before.push(nodes[i])
            &&& is_new ==> before.len() < kept.len() && kept[before.len() as int] == nodes[i]
            &&& !is_new ==> upto == before
        }),
{
    let before = nodes.take(i);
    let upto = nodes.take(i + 1);
    assert(upto.drop_last() =~= before);
    assert(upto.last() == nodes[i]);
    let is_new = forall|j: int|
        0 <= j < i ==> dedup::fingerprint(#[trigger] nodes[j]) != dedup::fingerprint(nodes[i]);
    if is_new {
        assert forall|j: int| 0 <= j < before.len() implies dedup::fingerprint(
            #[trigger] before[j],
        ) != dedup::fingerprint(nodes[i]) by {
            assert(before[j] == nodes[j]);
        }
    } else {
        let j = choose|j: int|
            0 <= j < i && dedup::fingerprint(#[trigger] nodes[j]) == dedup::fingerprint(nodes[i]);
        assert(before[j] == nodes[j]);
    }
    lemma_kept_grows(nodes, i);
    lemma_kept_grows(nodes, i + 1);
    if is_new {
        let kept = dedup::first_of_each(nodes);
        let some = dedup::first_of_each(upto);
        assert(some == kept.subrange(0, some.len() as int));
        assert(some[some.len() - 1] == nodes[i]);
    }
}

/// What is kept of the first nodes comes first.
proof fn lemma_kept_grows(nodes: Seq<NodeView>, i: int)
    requires
        0 <= i <= nodes.len(),
    ensures
        dedup::first_of_each(nodes.take(i)).is_prefix_of(dedup::first_of_each(nodes)),
    decreases nodes.len() - i,
{
    if i < nodes.len() {
        lemma_kept_grows(nodes, i + 1);
        let some = dedup::first_of_each(nodes.take(i));
        let more = dedup::first_of_each(nodes.take(i + 1));
        let all = dedup::first_of_each(nodes);
        assert(nodes.take(i + 1).drop_last() =~= nodes.take(i));
        assert(some =~= more.subrange(0, some.len() as int));
        assert(some =~= all.subrange(0, some.len() as int));
    } else {
        assert(nodes.take(i) =~= nodes);
        let all = dedup::first_of_each(nodes);
        assert(all =~= all.subrange(0, all.len() as int));
    }
}

} // verus!
