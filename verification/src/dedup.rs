//! Removing nodes that lead to the same server in the same way.

use vstd::prelude::*;
use vstd::string::*;
use vstd::utf8::*;

use crate::codec;
use crate::items;
use crate::node;
use crate::node::{Node, NodeView, Protocol};
use crate::strmap;
use crate::strmap::StrMap;
use crate::text;

verus! {

// ---------------------------------------------------------------------------
// Fingerprints
// ---------------------------------------------------------------------------

/// The parameters that tell nodes of a protocol apart.
pub open spec fn critical_keys(protocol: Protocol) -> Seq<Seq<char>> {
    match protocol {
        Protocol::Vmess => seq!["id"@, "aid"@, "net"@, "path"@, "host"@],
        Protocol::Vless => seq![
            "id"@,
            "type"@,
            "path"@,
            "host"@,
            "security"@,
            "sni"@,
            "serviceName"@,
            "flow"@,
            "mode"@,
            "headerType"@,
        ],
        Protocol::Trojan => seq!["password"@, "sni"@, "type"@, "path"@, "host"@],
        Protocol::Shadowsocks => seq!["method"@, "password"@],
        Protocol::ShadowsocksR => seq!["method"@, "password"@, "protocol"@, "obfs"@],
        Protocol::Hysteria2 => seq!["password"@, "obfs"@, "obfs-password"@, "sni"@],
        Protocol::Tuic => seq!["uuid"@, "password"@],
    }
}

/// The views of a list of text slices.
pub open spec fn slice_views(list: Seq<&str>) -> Seq<Seq<char>> {
    list.map_values(|item: &str| item@)
}

/// The parameters that tell nodes of a protocol apart.
pub fn critical_param_keys(protocol: &Protocol) -> (keys: Vec<&'static str>)
    ensures
        slice_views(keys@) == critical_keys(*protocol),
{
    let keys: Vec<&'static str> = match protocol {
        Protocol::Vmess => vec!["id", "aid", "net", "path", "host"],
        Protocol::Vless => vec![
            "id",
            "type",
            "path",
            "host",
            "security",
            "sni",
            "serviceName",
            "flow",
            "mode",
            "headerType",
        ],
        Protocol::Trojan => vec!["password", "sni", "type", "path", "host"],
        Protocol::Shadowsocks => vec!["method", "password"],
        Protocol::ShadowsocksR => vec!["method", "password", "protocol", "obfs"],
        Protocol::Hysteria2 => vec!["password", "obfs", "obfs-password", "sni"],
        Protocol::Tuic => vec!["uuid", "password"],
    };
    assert(slice_views(keys@) =~= critical_keys(*protocol));
    keys
}

/// `fields` with the parameters under `keys`, each empty where it is missing.
pub open spec fn with_keys(
    fields: Map<Seq<char>, Seq<char>>,
    keys: Seq<Seq<char>>,
    params: Map<Seq<char>, Seq<char>>,
) -> Map<Seq<char>, Seq<char>>
    decreases keys.len(),
{
    if keys.len() == 0 {
        fields
    } else {
        let value = match strmap::value_of(params, keys.last()) {
            Some(value) => value,
            None => ""@,
        };
        with_keys(fields, keys.drop_last(), params).insert(keys.last(), value)
    }
}

/// The fields by which a node is told from others: protocol, host, port and the
/// parameters of its protocol. A parameter that is called like one of the first
/// three takes its place.
pub open spec fn identity_fields(node: NodeView) -> Map<Seq<char>, Seq<char>> {
    with_keys(
        Map::<Seq<char>, Seq<char>>::empty().insert(
            "protocol"@,
            node::protocol_name(node.protocol),
        ).insert("host"@, node.host).insert("port"@, text::decimal(node.port as nat)),
        critical_keys(node.protocol),
        node.params,
    )
}

/// A name and a value with a `=` between them.
pub open spec fn assignment(pair: (Seq<char>, Seq<char>)) -> Seq<char> {
    pair.0 + "="@ + pair.1
}

/// Fields as one text: `name=value` in the order of the names, with `|`
/// between them.
pub open spec fn canonical(fields: Map<Seq<char>, Seq<char>>) -> Seq<char> {
    text::joined(
        strmap::ordered_pairs(fields).map_values(|pair: (Seq<char>, Seq<char>)| assignment(pair)),
        "|"@,
    )
}

/// The lower-case hexadecimal digit of `value`, which is less than sixteen.
pub open spec fn low_hex_digit(value: int) -> char {
    if value < 10 {
        ('0' as u32 + value) as char
    } else {
        ('a' as u32 + value - 10) as char
    }
}

/// Bytes as lower-case hexadecimal digits, two for each.
pub open spec fn hex_text(bytes: Seq<u8>) -> Seq<char>
    decreases bytes.len(),
{
    if bytes.len() == 0 {
        Seq::empty()
    } else {
        hex_text(bytes.drop_last()).push(low_hex_digit(bytes.last() as int / 16)).push(
            low_hex_digit(bytes.last() as int % 16),
        )
    }
}

/// What nodes are compared by: the SHA-256 digest of their fields.
pub open spec fn fingerprint(node: NodeView) -> Seq<char> {
    hex_text(codec::sha256_digest(encode_utf8(canonical(identity_fields(node)))))
}

/// The fields by which a node is told from others.
pub fn read_identity_fields(node: &Node) -> (fields: StrMap<String>)
    ensures
        fields@ == identity_fields(node@),
{
    let mut fields: StrMap<String> = StrMap::new();
    strmap::put(&mut fields, "protocol", node.protocol.as_str());
    strmap::put(&mut fields, "host", node.host.as_str());
    strmap::put(&mut fields, "port", text::decimal_text(node.port as u64).as_str());
    let ghost start = fields@;
    let keys = critical_param_keys(&node.protocol);
    let ghost all = slice_views(keys@);
    let mut i: usize = 0;
    assert(all.take(0) =~= Seq::empty());
    while i < keys.len()
        invariant
            i <= keys@.len(),
            all == slice_views(keys@),
            fields@ == with_keys(start, all.take(i as int), node.params@),
        decreases keys@.len() - i,
    {
        let ghost seen = all.take(i + 1);
        assert(seen.drop_last() =~= all.take(i as int));
        assert(seen.last() == keys@[i as int]@);
        match strmap::get_text(&node.params, keys[i]) {
            Some(value) => strmap::put(&mut fields, keys[i], value.as_str()),
            None => strmap::put(&mut fields, keys[i], ""),
        }
        i = i + 1;
    }
    assert(all.take(i as int) =~= all);
    fields
}

/// Fields as one text.
pub fn canonical_text(fields: &StrMap<String>) -> (result: String)
    ensures
        result@ == canonical(fields@),
{
    let pairs = strmap::pairs_of(fields);
    let ghost all = codec::pair_views(pairs@);
    let ghost parts = all.map_values(|pair: (Seq<char>, Seq<char>)| assignment(pair));
    let mut list: Vec<String> = Vec::new();
    let mut i: usize = 0;
    while i < pairs.len()
        invariant
            i <= pairs@.len(),
            all == codec::pair_views(pairs@),
            parts == all.map_values(|pair: (Seq<char>, Seq<char>)| assignment(pair)),
            list@.len() == i,
            forall|j: int| 0 <= j < i ==> (#[trigger] list@[j])@ == parts[j],
        decreases pairs@.len() - i,
    {
        assert(all[i as int] == (pairs@[i as int].0@, pairs@[i as int].1@));
        let mut part = pairs[i].0.clone();
        part.append("=");
        part.append(pairs[i].1.as_str());
        assert(part@ == parts[i as int]);
        list.push(part);
        i = i + 1;
    }
    assert(items::views(list@) =~= parts);
    text::join(&list, "|")
}

/// The lower-case hexadecimal digit of `value`.
fn low_hex(value: u8) -> (digit: char)
    requires
        value < 16,
    ensures
        digit == low_hex_digit(value as int),
{
    if value < 10 {
        (48 + value) as char
    } else {
        (87 + value) as char
    }
}

/// Bytes as lower-case hexadecimal digits.
pub fn write_hex(bytes: &Vec<u8>) -> (hex: String)
    ensures
        hex@ == hex_text(bytes@),
{
    let mut hex = String::new();
    let mut i: usize = 0;
    assert(bytes@.take(0) =~= Seq::empty());
    while i < bytes.len()
        invariant
            i <= bytes@.len(),
            hex@ == hex_text(bytes@.take(i as int)),
        decreases bytes@.len() - i,
    {
        let ghost seen = bytes@.take(i + 1);
        assert(seen.drop_last() =~= bytes@.take(i as int));
        hex.push(low_hex(bytes[i] / 16));
        hex.push(low_hex(bytes[i] % 16));
        i = i + 1;
    }
    assert(bytes@.take(i as int) =~= bytes@);
    hex
}

/// What nodes are compared by.
pub fn fingerprint_node(node: &Node) -> (result: String)
    ensures
        result@ == fingerprint(node@),
{
    let fields = read_identity_fields(node);
    let canonical = canonical_text(&fields);
    let digest = codec::sha256(canonical.as_str());
    write_hex(&digest)
}

// ---------------------------------------------------------------------------
// Removing nodes
// ---------------------------------------------------------------------------

/// Whether some node has a fingerprint.
pub open spec fn has_fingerprint(nodes: Seq<NodeView>, print: Seq<char>) -> bool {
    exists|i: int| 0 <= i < nodes.len() && fingerprint(#[trigger] nodes[i]) == print
}

/// The first node of each fingerprint, in their order.
pub open spec fn first_of_each(nodes: Seq<NodeView>) -> Seq<NodeView>
    decreases nodes.len(),
{
    if nodes.len() == 0 {
        Seq::empty()
    } else {
        let earlier = nodes.drop_last();
        if has_fingerprint(earlier, fingerprint(nodes.last())) {
            first_of_each(earlier)
        } else {
            first_of_each(earlier).push(nodes.last())
        }
    }
}

/// The first node of each fingerprint, in their order.
pub fn dedup_nodes(nodes: Vec<Node>) -> (unique: Vec<Node>)
    ensures
        items::views(unique@) == first_of_each(items::views(nodes@)),
{
    let ghost all = items::views(nodes@);
    let mut seen: StrMap<String> = StrMap::new();
    let mut unique: Vec<Node> = Vec::new();
    assert(items::views(unique@) =~= first_of_each(all.take(0)));
    for node in it: nodes
        invariant
            it.seq() == nodes@,
            all == items::views(nodes@),
            items::views(unique@) == first_of_each(all.take(it.index() as int)),
            forall|print: Seq<char>| #[trigger]
                seen@.contains_key(print) <==> has_fingerprint(all.take(it.index() as int), print),
    {
        let ghost done = all.take(it.index() as int);
        let ghost next = all.take(it.index() + 1);
        let ghost before = unique@;
        assert(next.drop_last() =~= done);
        assert(next.last() == node@);
        let print = fingerprint_node(&node);
        proof {
            assert forall|p: Seq<char>| has_fingerprint(next, p) <==> (has_fingerprint(done, p) || p
                == print@) by {
                if has_fingerprint(next, p) && p != print@ {
                    let i = choose|i: int|
                        0 <= i < next.len() && fingerprint(#[trigger] next[i]) == p;
                    assert(done[i] == next[i]);
                }
                if has_fingerprint(done, p) {
                    let i = choose|i: int|
                        0 <= i < done.len() && fingerprint(#[trigger] done[i]) == p;
                    assert(next[i] == done[i]);
                }
                if p == print@ {
                    assert(fingerprint(next[next.len() - 1]) == p);
                }
            }
        }
        if !seen.contains_key(print.as_str()) {
            seen.insert(print, String::new());
            unique.push(node);
            assert(items::views(unique@) =~= items::views(before).push(node@));
        }
    }
    assert(all.take(nodes@.len() as int) =~= all);
    unique
}

// ---------------------------------------------------------------------------
// Laws
// ---------------------------------------------------------------------------

/// Removing duplicates keeps the fingerprints that there are, each once.
pub proof fn law_dedup_keeps_each_once(nodes: Seq<NodeView>)
    ensures
        forall|print: Seq<char>| #[trigger]
            has_fingerprint(first_of_each(nodes), print) <==> has_fingerprint(nodes, print),
        forall|i: int, j: int|
            0 <= i < j < first_of_each(nodes).len() ==> fingerprint(
                #[trigger] first_of_each(nodes)[i],
            ) != fingerprint(#[trigger] first_of_each(nodes)[j]),
    decreases nodes.len(),
{
    if nodes.len() > 0 {
        let earlier = nodes.drop_last();
        let kept = first_of_each(earlier);
        let result = first_of_each(nodes);
        law_dedup_keeps_each_once(earlier);
        assert forall|print: Seq<char>| #[trigger]
            has_fingerprint(result, print) <==> has_fingerprint(nodes, print) by {
            if has_fingerprint(nodes, print) {
                let i = choose|i: int|
                    0 <= i < nodes.len() && fingerprint(#[trigger] nodes[i]) == print;
                if i < nodes.len() - 1 {
                    assert(earlier[i] == nodes[i]);
                    assert(has_fingerprint(kept, print));
                    let j = choose|j: int|
                        0 <= j < kept.len() && fingerprint(#[trigger] kept[j]) == print;
                    assert(result[j] == kept[j]);
                } else if has_fingerprint(earlier, print) {
                    assert(has_fingerprint(kept, print));
                } else {
                    assert(fingerprint(result[result.len() - 1]) == print);
                }
            }
            if has_fingerprint(result, print) {
                let i = choose|i: int|
                    0 <= i < result.len() && fingerprint(#[trigger] result[i]) == print;
                if i < kept.len() {
                    assert(kept[i] == result[i]);
                    assert(has_fingerprint(kept, print));
                    assert(has_fingerprint(earlier, print));
                    let j = choose|j: int|
                        0 <= j < earlier.len() && fingerprint(#[trigger] earlier[j]) == print;
                    assert(nodes[j] == earlier[j]);
                } else {
                    assert(fingerprint(nodes[nodes.len() - 1]) == print);
                }
            }
        }
        assert forall|i: int, j: int| 0 <= i < j < result.len() implies fingerprint(
            #[trigger] result[i],
        ) != fingerprint(#[trigger] result[j]) by {
            assert(result[i] == kept[i]);
            if j < kept.len() {
                assert(result[j] == kept[j]);
            } else {
                assert(fingerprint(kept[i]) != fingerprint(nodes.last())) by {
                    if fingerprint(kept[i]) == fingerprint(nodes.last()) {
                        assert(has_fingerprint(kept, fingerprint(nodes.last())));
                        assert(has_fingerprint(earlier, fingerprint(nodes.last())));
                    }
                }
            }
        }
    }
}

/// Where no fingerprint occurs twice, removing duplicates changes nothing.
pub proof fn law_dedup_keeps_distinct(nodes: Seq<NodeView>)
    requires
        forall|i: int, j: int|
            0 <= i < j < nodes.len() ==> fingerprint(#[trigger] nodes[i]) != fingerprint(
                #[trigger] nodes[j],
            ),
    ensures
        first_of_each(nodes) == nodes,
    decreases nodes.len(),
{
    if nodes.len() > 0 {
        let earlier = nodes.drop_last();
        assert forall|i: int, j: int| 0 <= i < j < earlier.len() implies fingerprint(
            #[trigger] earlier[i],
        ) != fingerprint(#[trigger] earlier[j]) by {
            assert(earlier[i] == nodes[i] && earlier[j] == nodes[j]);
        }
        law_dedup_keeps_distinct(earlier);
        if has_fingerprint(earlier, fingerprint(nodes.last())) {
            let i = choose|i: int|
                0 <= i < earlier.len() && fingerprint(#[trigger] earlier[i]) == fingerprint(
                    nodes.last(),
                );
            assert(nodes[i] == earlier[i]);
            assert(nodes[nodes.len() - 1] == nodes.last());
        }
        assert(first_of_each(nodes) =~= nodes);
    }
}

/// Removing duplicates twice removes no more than removing them once.
pub proof fn law_dedup_idempotent(nodes: Seq<NodeView>)
    ensures
        first_of_each(first_of_each(nodes)) == first_of_each(nodes),
{
    law_dedup_keeps_each_once(nodes);
    law_dedup_keeps_distinct(first_of_each(nodes));
}

/// A node counts as a duplicate of another where both agree in protocol, host,
/// port and the parameters that tell nodes of the protocol apart; names, links
/// and probe results count for nothing.
pub proof fn law_same_fields_same_fingerprint(a: NodeView, b: NodeView)
    requires
        a.protocol == b.protocol,
        a.host == b.host,
        a.port == b.port,
        forall|i: int|
            0 <= i < critical_keys(a.protocol).len() ==> strmap::value_of(
                a.params,
                #[trigger] critical_keys(a.protocol)[i],
            ) == strmap::value_of(b.params, critical_keys(a.protocol)[i]),
    ensures
        fingerprint(a) == fingerprint(b),
{
    lemma_with_keys_same(
        Map::<Seq<char>, Seq<char>>::empty().insert(
            "protocol"@,
            node::protocol_name(a.protocol),
        ).insert("host"@, a.host).insert("port"@, text::decimal(a.port as nat)),
        critical_keys(a.protocol),
        a.params,
        b.params,
    );
}

/// Parameters that agree under `keys` give the same fields.
proof fn lemma_with_keys_same(
    fields: Map<Seq<char>, Seq<char>>,
    keys: Seq<Seq<char>>,
    a: Map<Seq<char>, Seq<char>>,
    b: Map<Seq<char>, Seq<char>>,
)
    requires
        forall|i: int|
            0 <= i < keys.len() ==> strmap::value_of(a, #[trigger] keys[i]) == strmap::value_of(
                b,
                keys[i],
            ),
    ensures
        with_keys(fields, keys, a) == with_keys(fields, keys, b),
    decreases keys.len(),
{
    if keys.len() > 0 {
        let earlier = keys.drop_last();
        assert forall|i: int| 0 <= i < earlier.len() implies strmap::value_of(
            a,
            #[trigger] earlier[i],
        ) == strmap::value_of(b, earlier[i]) by {
            assert(earlier[i] == keys[i]);
        }
        lemma_with_keys_same(fields, earlier, a, b);
        assert(keys.last() == keys[keys.len() - 1]);
    }
}

} // verus!
