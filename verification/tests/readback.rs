//! What is written is read back.

use base64::engine::general_purpose::{STANDARD, STANDARD_NO_PAD, URL_SAFE, URL_SAFE_NO_PAD};
use base64::Engine;
use xray_sub_manager::codec::decode_base64_flexible;
use xray_sub_manager::encoder::{encode_subscription, replace_fragment};
use xray_sub_manager::json::{parse_document, text_object_document, write_document, Json};
use xray_sub_manager::link::build_standard_uri;
use xray_sub_manager::node::{Node, Protocol};
use xray_sub_manager::parser::{decode_possible_base64_list, parse_subscription};
use xray_sub_manager::singbox::parse_sing_box_outbound;
use xray_sub_manager::strmap::StrMap;
use xray_sub_manager::tunnel::write_sing_box_config;
use xray_sub_manager::uri::parse_uri_node;

fn param(node: &Node, key: &str) -> String {
    node.params.get(key).cloned().unwrap_or_default()
}

fn params(node: &Node) -> Vec<(String, String)> {
    (0..node.params.len())
        .map(|i| (node.params.key_at(i).clone(), node.params.value_at(i).clone()))
        .collect()
}

fn outbound(text: &str) -> Node {
    match parse_document(text) {
        Some(Json::Object(entries)) => parse_sing_box_outbound(&entries).unwrap().unwrap(),
        _ => panic!("no object"),
    }
}

#[test]
fn outbounds_of_urls_are_read_back() {
    let rest = "\"server\":\"Ex-1.example.COM\",\"server_port\":0,\"tag\":\"\u{1F1E9}\u{1F1EA} a%b #\\\"<>`|\"";
    let extra = "\"transport\":{\"type\":\"ws\",\"path\":\"/a?b&c=d e\",\"host\":\"h\"},\"tls\":{\"enabled\":true,\"server_name\":\"s\",\"alpn\":[\"h2\",\"h3\"]}";
    for (kind, credentials, keys) in [
        ("vless", "\"uuid\":\"u:/@?#%\u{e9} \"", vec!["id"]),
        ("trojan", "\"password\":\"p:/@?#%\u{e9}\"", vec!["password"]),
        ("hysteria2", "\"password\":\"p w\",\"obfs\":{\"type\":\"o\",\"password\":\"q\"}", vec!["password", "obfs"]),
        ("tuic", "\"uuid\":\"u\",\"password\":\":@\"", vec!["uuid", "password"]),
    ] {
        let node = outbound(&format!("{{\"type\":\"{kind}\",{credentials},{rest},{extra}}}"));
        let back = parse_uri_node(&node.original_uri).unwrap();
        assert_eq!(back.protocol, node.protocol);
        assert_eq!((back.host.as_str(), back.port), ("Ex-1.example.COM", 0));
        assert_eq!(back.raw_name, node.raw_name);
        for key in keys {
            assert_eq!(param(&back, key), param(&node, key), "{kind} {key}");
        }
    }
}

#[test]
fn written_urls_have_the_parts_they_were_written_with() {
    let mut query: StrMap<String> = StrMap::new();
    for key in ["", "a", "b c", "\u{e9}&="] {
        for scheme in ["vless", "trojan", "hysteria2", "tuic"] {
            for host in ["h", "1.1.1.1", "A.b-C", "-", ".", "0x10", "1"] {
                for port in [0, 1, 80, 443, 65535] {
                    let uri = build_standard_uri(scheme, "us er", Some("p:w"), host, port, &query, key);
                    let url = url::Url::parse(&uri).unwrap();
                    assert_eq!(url.scheme(), scheme);
                    assert_eq!(url.username(), "us%20er");
                    assert_eq!(url.password(), Some("p%3Aw"));
                    assert_eq!(url.host_str(), Some(host));
                    assert_eq!(url.port(), Some(port));
                    let pairs: Vec<(String, String)> = url.query_pairs().into_owned().collect();
                    let written: Vec<(String, String)> = (0..query.len())
                        .map(|i| (query.key_at(i).clone(), query.value_at(i).clone()))
                        .collect();
                    assert_eq!(pairs, written);
                    assert_eq!(format!("#{}", url.fragment().unwrap()), replace_fragment("", key));
                }
            }
        }
        query.insert(key.to_string(), format!("<{key}>"));
    }
}

#[test]
fn a_fragment_changes_no_other_part() {
    let heads = [
        "vless://u@h:1", "vless://u@h:1/", "vless://u@h:1?", "vless://u@h:1?a=b", "vless://u:p@h",
        "trojan://@h:1", "tuic://u@[::1]:5?x", "hysteria2://h:1/p/../q/.?a=b c", "vless://u@h:1/ ",
        "vless://u\t@h:1?\u{e9}'", "trojan://a@b@c:9\\d", "vless://h:", "vless://u@h:1?q \t",
    ];
    for head in heads {
        for old in ["", "#", "#x", "#\u{e9} <\t>", "# "] {
            let other = format!("{head}{old}");
            if old.is_empty() && head.ends_with([' ', '\t']) {
                continue;
            }
            let before = url::Url::parse(&other).unwrap();
            for name in ["n", "", "a b\u{1F310}#", "!$&'()*+,/:;=?@[]^_{|}~"] {
                let named = replace_fragment(&other, name);
                let after = url::Url::parse(&named).unwrap();
                assert_eq!(after.scheme(), before.scheme());
                assert_eq!(after.username(), before.username(), "{named}");
                assert_eq!(after.password(), before.password(), "{named}");
                assert_eq!(after.host_str(), before.host_str(), "{named}");
                assert_eq!(after.port(), before.port(), "{named}");
                assert!(after.query_pairs().eq(before.query_pairs()), "{named}");
                assert_eq!(Some(named.split_once('#').unwrap().1), after.fragment());
            }
        }
    }
}

#[test]
fn published_links_are_read_back() {
    let list = "vless://id@h:1?type=ws#old\ntrojan://p%40@t:2\nss://YWVzLTI1Ni1nY206cHc=@s:3\n\
        hysteria2://p@y:4/?obfs=o#\ntuic://u:p@[::1]:5#x y";
    let mut nodes = parse_subscription(list).unwrap();
    assert_eq!(nodes.len(), 5);
    for (i, node) in nodes.iter_mut().enumerate() {
        node.display_name = format!("\u{1F310} Unknown #{i}");
    }
    let back = parse_subscription(&encode_subscription(&nodes)).unwrap();
    assert_eq!(back.len(), nodes.len());
    for (read, node) in back.iter().zip(&nodes) {
        assert_eq!(read.raw_name, node.display_name);
        assert_eq!(read.protocol, node.protocol);
        assert_eq!((&read.host, read.port), (&node.host, node.port));
        assert_eq!(params(read), params(node));
    }
}

#[test]
fn white_space_in_base64_counts_for_nothing() {
    for list in [
        "trojan://p@h:1#n", " \n\u{a0}trojan://p@h:1#n\r\n\nrubbish", "\u{439}\ntrojan://p@h:1#n",
        "~\n trojan://p@h:1\ntrojan://q@h:1", "|\nss://bad", "{\ntrojan://p@h:1",
    ] {
        let plain = match parse_subscription(list) {
            Ok(nodes) => nodes.len(),
            Err(_) => 0,
        };
        for encoded in forms(list.as_bytes()) {
            for step in 1..5 {
                let mut spaced = " \n".to_string();
                for (i, ch) in encoded.chars().enumerate() {
                    if i % step == 0 {
                        spaced.push_str("\r\n\t \u{2003}");
                    }
                    spaced.push(ch);
                }
                let read = match parse_subscription(&spaced) {
                    Ok(nodes) => nodes.len(),
                    Err(_) => 0,
                };
                assert_eq!(read, plain, "{list}");
            }
        }
    }
}

/// The four forms of bytes.
fn forms(bytes: &[u8]) -> Vec<String> {
    vec![
        STANDARD.encode(bytes),
        STANDARD_NO_PAD.encode(bytes),
        URL_SAFE.encode(bytes),
        URL_SAFE_NO_PAD.encode(bytes),
    ]
}

#[test]
fn every_form_of_base64_is_read() {
    for len in 0..9usize {
        for first in [0u8, 1, 0x7f, 0xf8, 0xfb, 0xff] {
            let bytes: Vec<u8> = (0..len).map(|i| first.wrapping_add((i * 37) as u8)).collect();
            for form in forms(&bytes) {
                assert_eq!(decode_base64_flexible(&form), Some(bytes.clone()), "{form}");
            }
        }
    }
    assert_eq!(decode_base64_flexible("+/8="), Some(vec![0xfb, 0xff]));
    assert_eq!(decode_base64_flexible("+/8"), Some(vec![0xfb, 0xff]));
    assert_eq!(decode_base64_flexible("-_8="), Some(vec![0xfb, 0xff]));
    assert_eq!(decode_base64_flexible("-_8"), Some(vec![0xfb, 0xff]));
}

#[test]
fn what_is_no_form_of_bytes_is_not_read() {
    for text in [
        "A", "AA=", "AAA==", "AB", "AB==", "AAB=", "AAB", "=", "====", "A===", "AA==AA==", "+_8=",
        "-/8", "AAAA=", "AA A", "AAA\u{e9}", "AAAAA", "AAAA\n",
    ] {
        assert_eq!(decode_base64_flexible(text), None, "{text}");
    }
}

#[test]
fn lists_of_links_are_no_documents() {
    for list in ["\"\nvless://u@h:1", "[\ntrojan://p@h:1", "1\n tuic://u:p@h:1\n2", "null\nss://x"] {
        assert!(parse_document(list).is_none());
        assert!(decode_possible_base64_list(list).unwrap().is_none());
    }
    assert_eq!(parse_subscription("[\ntrojan://p@h:1").unwrap().len(), 1);
}

#[test]
fn base64_is_written_with_padding() {
    for (list, encoded) in [
        ("ss://a", "c3M6Ly9hI24="), ("ss://ab", "c3M6Ly9hYiNu"), ("ss://abc", "c3M6Ly9hYmMjbg=="),
        ("\u{fb}\u{ff}", "w7vDvyNu"), ("~?>", "fj8+I24="),
    ] {
        let mut node = parse_uri_node("trojan://p@h:1").unwrap();
        node.original_uri = list.to_string();
        node.display_name = "n".to_string();
        assert_eq!(encode_subscription(&vec![node]), encoded);
    }
}

#[test]
fn only_plain_keys_are_sure_to_be_read_back() {
    let mut map: StrMap<String> = StrMap::new();
    map.insert("$serde_json::private::RawValue".to_string(), "1".to_string());
    let written = text_object_document(&map);
    assert_eq!(written, "{\"$serde_json::private::RawValue\":\"1\"}");
    assert!(!matches!(parse_document(&written), Some(Json::Object(_))));
}

#[test]
fn texts_are_escaped_as_json_asks() {
    let mut map: StrMap<String> = StrMap::new();
    assert_eq!(text_object_document(&map), "{}");
    map.insert("b\"\\".to_string(), "\u{8}\u{c}\n\r\t\u{1}\u{1f}\u{7f}/\u{e9}\u{1F310}".to_string());
    map.insert("a_1".to_string(), String::new());
    let written = text_object_document(&map);
    assert_eq!(
        written,
        "{\"a_1\":\"\",\"b\\\"\\\\\":\"\\b\\f\\n\\r\\t\\u0001\\u001f\u{7f}/\u{e9}\u{1F310}\"}"
    );
    assert!(matches!(parse_document(&written), Some(Json::Object(entries)) if entries.len() == 2));
}

#[test]
fn documents_are_written_line_by_line() {
    let text = "{\"a\":[],\"b\":{},\"c\":[1,[true,null],{\"d\":\"\\n\"}],\"e\":false}";
    let written = write_document(parse_document(text).unwrap()).unwrap();
    assert_eq!(
        written,
        "{\n  \"a\": [],\n  \"b\": {},\n  \"c\": [\n    1,\n    [\n      true,\n      null\n    ],\n    \
         {\n      \"d\": \"\\n\"\n    }\n  ],\n  \"e\": false\n}"
    );
    let value: serde_json::Value = serde_json::from_str(text).unwrap();
    assert_eq!(written, serde_json::to_string_pretty(&value).unwrap());
    for text in ["-1", "1.5", "[0.1]", "{\"a\":-1}"] {
        assert!(write_document(parse_document(text).unwrap()).is_none(), "{text}");
    }
    let pair = |key: &str| (key.to_string(), Json::Null);
    assert!(write_document(Json::Object(vec![pair("a"), pair("b")])).is_some());
    assert!(write_document(Json::Object(vec![pair("b"), pair("a")])).is_none());
    assert!(write_document(Json::Object(vec![pair("a"), pair("a")])).is_none());
    assert!(write_document(Json::Number("01".to_string(), Some(1))).is_none());
}

#[test]
fn settings_of_sing_box_are_written() {
    let node = parse_uri_node("trojan://p@h:1").unwrap();
    let written = write_sing_box_config(&node, 1080, "wwan0").unwrap();
    let value: serde_json::Value = serde_json::from_str(&written).unwrap();
    assert_eq!(value["inbounds"][0]["listen_port"], 1080);
    assert_eq!(value["outbounds"][0]["bind_interface"], "wwan0");
    assert_eq!(value["outbounds"][0]["password"], "p");
    assert_eq!(written, serde_json::to_string_pretty(&value).unwrap());
    let mut other = parse_uri_node("trojan://p@h:1").unwrap();
    other.protocol = Protocol::ShadowsocksR;
    assert_eq!(
        write_sing_box_config(&other, 1, "").unwrap_err().message(),
        "shadowsocksr is not supported by sing-box tunnel probe"
    );
}

#[test]
fn shadowsocks_links_are_read_in_every_form() {
    for form in forms("aes-256-gcm:p\u{ff}\u{fb}?~".as_bytes()) {
        let node = parse_uri_node(&format!("ss://{form}@h:1?plugin=x#n")).unwrap();
        assert_eq!((node.host.as_str(), node.port, node.raw_name.as_str()), ("h", 1, "n"));
        assert_eq!(param(&node, "method"), "aes-256-gcm");
        assert_eq!(param(&node, "password"), "p\u{ff}\u{fb}?~");
        assert_eq!(param(&node, "plugin"), "x");
    }
}
