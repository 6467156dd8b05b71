//! Duplicates, names and the order of nodes.

use xray_sub_manager::branch::sort_by_delay;
use xray_sub_manager::dedup::{canonical_text, critical_param_keys, dedup_nodes, fingerprint_node, read_identity_fields, write_hex};
use xray_sub_manager::node::{Node, Protocol};
use xray_sub_manager::renamer::{
    country_label, country_name, extract_flag, is_regional_indicator, regional_indicator_to_ascii,
    rename_nodes,
};
use xray_sub_manager::strmap::StrMap;

fn node(protocol: Protocol, host: &str, name: &str, pairs: &[(&str, &str)]) -> Node {
    let mut params = StrMap::new();
    for (key, value) in pairs {
        params.insert(key.to_string(), value.to_string());
    }
    Node::unprobed(protocol, host.to_string(), 80, params, name.to_string(), "u".to_string())
}

fn names(nodes: &[Node]) -> Vec<&str> {
    nodes.iter().map(|node| node.display_name.as_str()).collect()
}

#[test]
fn protocols_have_names() {
    let all = [
        (Protocol::Vmess, "vmess"),
        (Protocol::Vless, "vless"),
        (Protocol::Trojan, "trojan"),
        (Protocol::Shadowsocks, "ss"),
        (Protocol::ShadowsocksR, "ssr"),
        (Protocol::Hysteria2, "hysteria2"),
        (Protocol::Tuic, "tuic"),
    ];
    for (protocol, name) in all {
        assert_eq!(protocol.as_str(), name);
    }
}

#[test]
fn fingerprint_is_a_digest_of_the_fields() {
    let pairs = [("method", "aes-256-gcm"), ("password", "pw"), ("plugin", "x")];
    let ss = node(Protocol::Shadowsocks, "1.1.1.1", "n", &pairs);
    assert_eq!(
        canonical_text(&read_identity_fields(&ss)),
        "host=1.1.1.1|method=aes-256-gcm|password=pw|port=80|protocol=ss"
    );
    assert_eq!(
        fingerprint_node(&ss),
        "17eb58e9d04864c550e8c792b2026a188ecbb802de0b8f3dd5461b7f3985b48a"
    );
    assert_eq!(write_hex(&vec![0, 15, 16, 255]), "000f10ff");
}

#[test]
fn critical_parameters_take_the_place_of_fields() {
    let ssr = node(Protocol::ShadowsocksR, "h", "n", &[("protocol", "auth")]);
    assert_eq!(
        canonical_text(&read_identity_fields(&ssr)),
        "host=h|method=|obfs=|password=|port=80|protocol=auth"
    );
    let vmess = node(Protocol::Vmess, "h", "n", &[("host", "cdn")]);
    assert_eq!(
        canonical_text(&read_identity_fields(&vmess)),
        "aid=|host=cdn|id=|net=|path=|port=80|protocol=vmess"
    );
    assert_eq!(critical_param_keys(&Protocol::Tuic), vec!["uuid", "password"]);
    assert_eq!(critical_param_keys(&Protocol::Vless).len(), 10);
}

#[test]
fn the_first_of_duplicates_is_kept() {
    let nodes = vec![
        node(Protocol::Tuic, "a", "first", &[("uuid", "1")]),
        node(Protocol::Tuic, "b", "second", &[("uuid", "1")]),
        node(Protocol::Tuic, "a", "third", &[("uuid", "1"), ("sni", "x")]),
        node(Protocol::Tuic, "a", "fourth", &[("uuid", "2")]),
        node(Protocol::Trojan, "a", "fifth", &[]),
    ];
    let unique = dedup_nodes(nodes);
    assert_eq!(names(&unique), vec!["first", "second", "fourth", "fifth"]);
    let again = dedup_nodes(unique.clone());
    assert_eq!(names(&again), names(&unique));
    assert_eq!(dedup_nodes(Vec::new()).len(), 0);
}

#[test]
fn flags_are_found() {
    assert_eq!(
        extract_flag("x \u{1F1E9}\u{1F1EA}\u{1F1EB} y"),
        Some(("\u{1F1E9}\u{1F1EA}".to_string(), "DE".to_string()))
    );
    assert_eq!(extract_flag("\u{1F1E9} \u{1F1EA}"), None);
    assert_eq!(extract_flag(""), None);
    assert!(is_regional_indicator('\u{1F1E6}') && is_regional_indicator('\u{1F1FF}'));
    assert!(!is_regional_indicator('\u{1F1E5}') && !is_regional_indicator('\u{1F200}'));
    assert_eq!(regional_indicator_to_ascii('\u{1F1E6}'), Some('A'));
    assert_eq!(regional_indicator_to_ascii('\u{1F1FF}'), Some('Z'));
    assert_eq!(regional_indicator_to_ascii('A'), None);
    assert_eq!(regional_indicator_to_ascii('\u{2C9A5}'), None);
}

#[test]
fn labels_name_countries() {
    assert_eq!(country_label("\u{1F1FF}\u{1F1FC} fast"), "\u{1F1FF}\u{1F1FC} Zimbabwe");
    assert_eq!(country_label("a\u{1F1E6}\u{1F1E8}"), "\u{1F1E6}\u{1F1E8} Ascension Island");
    assert_eq!(country_label("\u{1F1E6}\u{1F1E6}"), "\u{1F1E6}\u{1F1E6} Unknown");
    assert_eq!(country_label("Germany"), "\u{1F310} Unknown");
    assert_eq!(country_name("GS"), "South Georgia and the South Sandwich Islands");
    assert_eq!(country_name("de"), "Unknown");
}

#[test]
fn nodes_are_numbered_by_country() {
    let of = |name: &str| node(Protocol::Trojan, "h", name, &[]);
    let mut nodes = vec![
        of("\u{1F1E9}\u{1F1EA} 1"),
        of("nothing"),
        of("x \u{1F1E9}\u{1F1EA}"),
        of("\u{1F1EB}\u{1F1F7}"),
    ];
    rename_nodes(&mut nodes);
    let expected = vec![
        "\u{1F1E9}\u{1F1EA} Germany #1",
        "\u{1F310} Unknown",
        "\u{1F1E9}\u{1F1EA} Germany #2",
        "\u{1F1EB}\u{1F1F7} France",
    ];
    assert_eq!(names(&nodes), expected);
    assert_eq!(nodes[0].raw_name, "\u{1F1E9}\u{1F1EA} 1");
    rename_nodes(&mut nodes);
    assert_eq!(names(&nodes), expected);
}

#[test]
fn display_names_are_distinct() {
    let mut nodes: Vec<Node> =
        (0..12).map(|_| node(Protocol::Trojan, "h", "same", &[])).collect();
    rename_nodes(&mut nodes);
    for i in 0..nodes.len() {
        for j in 0..i {
            assert_ne!(nodes[i].display_name, nodes[j].display_name);
        }
    }
    assert_eq!(nodes[11].display_name, "\u{1F310} Unknown #12");
}

#[test]
fn quick_nodes_come_first() {
    let of = |name: &str, millis: Option<u64>| {
        let mut node = node(Protocol::Trojan, "h", name, &[]);
        node.tunnel_ms = millis;
        node
    };
    let nodes = vec![
        of("a", None),
        of("b", Some(20)),
        of("c", Some(10)),
        of("d", Some(20)),
        of("e", Some(u64::MAX)),
    ];
    let sorted = sort_by_delay(nodes);
    assert_eq!(names(&sorted), vec!["c", "b", "d", "a", "e"]);
}
