//! Reading subscriptions.

use xray_sub_manager::failure::Failure;
use xray_sub_manager::fields::{
    extract_header_type, extract_transport_host, extract_transport_path, get_nested_string,
    parse_port, stringify_value,
};
use xray_sub_manager::json::{as_object, get, parse_document, text_object_document, Json};
use xray_sub_manager::node::{Node, Protocol};
use xray_sub_manager::parser::{
    decode_possible_base64_list, parse_json_subscription, parse_subscription, parse_uri_list,
    read_decoded_list,
};
use xray_sub_manager::singbox::{
    parse_sing_box_outbound, parse_sip008_server, read_outbound, read_vmess_payload,
};
use xray_sub_manager::strmap::StrMap;
use xray_sub_manager::uri::parse_uri_node;

fn param<'a>(node: &'a Node, key: &str) -> Option<&'a str> {
    node.params.get(key).map(|value| value.as_str())
}

fn entries(text: &str) -> Vec<(String, Json)> {
    match parse_document(text) {
        Some(Json::Object(entries)) => entries,
        _ => panic!("no object"),
    }
}

fn outbound(text: &str) -> Result<Option<Node>, Failure> {
    parse_sing_box_outbound(&entries(text))
}

fn refused<T>(result: Result<T, Failure>) -> String {
    match result {
        Ok(_) => panic!("it was accepted"),
        Err(failure) => failure.message().to_string(),
    }
}

const ONE: &str = "ss://YWVzLTI1Ni1nY206cHc=@1.1.1.1:80#One";
const LIST: &str = "c3M6Ly9ZV1Z6TFRJMU5pMW5ZMjA2Y0hjPUAxLjEuMS4xOjgwI09uZQoKYmFkIGxpbmUKc3M6Ly9ZV1Z6TFRJMU5pMW5ZMjA2Y0hjPUAyLjIuMi4yOjgxI1R3bw==";

// Lists

#[test]
fn blank_subscription_has_no_nodes() {
    assert_eq!(parse_subscription("").unwrap().len(), 0);
    assert_eq!(parse_subscription(" \r\n\t ").unwrap().len(), 0);
}

#[test]
fn plain_list_skips_what_is_no_link() {
    let body = format!("\r\n  {ONE} \r\n\nnot a link\nss://broken\n{ONE}");
    let nodes = parse_subscription(&body).unwrap();
    assert_eq!(nodes.len(), 2);
    assert_eq!(nodes[0].original_uri, ONE);
    assert_eq!(nodes[1].raw_name, "One");
    assert_eq!(refused(parse_uri_list("x\ny")), "no valid nodes found in URI list");
    assert_eq!(parse_uri_list("\n \n").unwrap().len(), 0);
}

#[test]
fn encoded_list_is_read_like_a_plain_one() {
    let nodes = parse_subscription(LIST).unwrap();
    assert_eq!(nodes.len(), 2);
    assert_eq!(nodes[0].host, "1.1.1.1");
    assert_eq!(nodes[1].host, "2.2.2.2");
    let broken = format!("{}\n{}\n", &LIST[..40], &LIST[40..]);
    assert_eq!(parse_subscription(&broken).unwrap().len(), 2);
}

#[test]
fn encoded_bytes_are_told_apart() {
    assert_eq!(decode_possible_base64_list("!!!").unwrap(), None);
    assert_eq!(decode_possible_base64_list("anVzdCB0ZXh0").unwrap(), None);
    assert_eq!(
        refused(decode_possible_base64_list("//79")),
        "decoded base64 payload is not valid UTF-8"
    );
    assert_eq!(read_decoded_list(b" ss://x".to_vec()).unwrap(), Some(" ss://x".to_string()));
    assert_eq!(refused(parse_subscription("//79")), "decoded base64 payload is not valid UTF-8");
    assert_eq!(refused(parse_subscription("anVzdCB0ZXh0")), "no valid nodes found in URI list");
}

// Documents

#[test]
fn documents_are_told_apart() {
    assert_eq!(refused(parse_subscription("{}")), "unsupported JSON subscription format");
    assert_eq!(refused(parse_subscription("17")), "unsupported JSON subscription format");
    assert_eq!(
        refused(parse_subscription("{\"outbounds\": []}")),
        "sing-box subscription did not contain supported outbounds"
    );
    assert_eq!(
        refused(parse_subscription("{\"servers\": [1, {}]}")),
        "sip008 subscription did not contain supported servers"
    );
    let both = "{\"servers\": [], \"outbounds\": [{\"type\": \"trojan\", \"server\": \"h\", \"server_port\": 1, \"password\": \"p\"}]}";
    let value = parse_document(both).unwrap();
    assert_eq!(parse_json_subscription(&value).unwrap()[0].protocol, Protocol::Trojan);
}

#[test]
fn sip008_servers_become_links_that_read_back() {
    let body = "{\"version\": 1, \"servers\": [
        {\"server\": \"s.example\", \"server_port\": 8388, \"method\": \"aes-256-gcm\",
         \"password\": \"pw\", \"remarks\": \"My Server\", \"plugin\": \"obfs\"},
        {\"server\": \"x\"}]}";
    let nodes = parse_subscription(body).unwrap();
    assert_eq!(nodes.len(), 1);
    let node = &nodes[0];
    assert_eq!(node.raw_name, "My Server");
    assert_eq!(node.port, 8388);
    assert_eq!(param(node, "server_port"), Some("8388"));
    assert_eq!(
        node.original_uri,
        "ss://YWVzLTI1Ni1nY206cHc=@s.example:8388?plugin=obfs#My%20Server"
    );
    let back = parse_uri_node(&node.original_uri).unwrap();
    assert_eq!(back.host, node.host);
    assert_eq!(back.port, node.port);
    assert_eq!(param(&back, "method"), param(node, "method"));
    assert_eq!(param(&back, "password"), param(node, "password"));
}

#[test]
fn sip008_server_is_refused_for_its_reason() {
    let read = |text: &str| refused(parse_sip008_server(&entries(text)));
    assert_eq!(read("{}"), "sip008 server missing host");
    assert_eq!(read("{\"server\": \"h\"}"), "sip008 server missing port");
    assert_eq!(read("{\"server\": \"h\", \"server_port\": 65536}"), "sip008 server missing port");
    assert_eq!(read("{\"server\": \"h\", \"server_port\": \"1\"}"), "sip008 server missing method");
    assert_eq!(
        read("{\"server\": \"h\", \"server_port\": 1, \"method\": \"m\"}"),
        "sip008 server missing password"
    );
}

// sing-box outbounds

#[test]
fn vmess_outbound_becomes_a_link_that_reads_back() {
    let node = outbound(
        "{\"type\": \"vmess\", \"tag\": \"Tag\", \"server\": \"v.example.com\", \"server_port\": 443,
          \"uuid\": \"id-1\", \"transport\": {\"type\": \"ws\", \"path\": \"/p\", \"headers\": {\"Host\": \"h.example\"}},
          \"tls\": {\"enabled\": true, \"server_name\": \"s.example\", \"alpn\": [\"h2\", \"h3\"]}}",
    )
    .unwrap()
    .unwrap();
    assert_eq!(node.protocol, Protocol::Vmess);
    assert_eq!(node.raw_name, "Tag");
    assert_eq!(
        node.original_uri,
        "vmess://eyJhZGQiOiJ2LmV4YW1wbGUuY29tIiwiYWlkIjoiMCIsImhvc3QiOiJoLmV4YW1wbGUiLCJpZCI6ImlkLTEiLCJuZXQiOiJ3cyIsInBhdGgiOiIvcCIsInBvcnQiOiI0NDMiLCJwcyI6IlRhZyIsInNjeSI6ImF1dG8iLCJzbmkiOiJzLmV4YW1wbGUiLCJ0bHMiOiJ0bHMiLCJ0eXBlIjoibm9uZSIsInYiOiIyIn0="
    );
    assert_eq!(param(&node, "id"), Some("id-1"));
    assert_eq!(param(&node, "aid"), Some("0"));
    assert_eq!(param(&node, "net"), Some("ws"));
    assert_eq!(param(&node, "type"), Some("ws"));
    assert_eq!(param(&node, "path"), Some("/p"));
    assert_eq!(param(&node, "host"), Some("h.example"));
    assert_eq!(param(&node, "security"), Some("tls"));
    assert_eq!(param(&node, "sni"), Some("s.example"));
    assert_eq!(param(&node, "alpn"), Some("h2,h3"));
    assert_eq!(param(&node, "transport.headers.Host"), Some("h.example"));
    assert_eq!(param(&node, "tls.enabled"), Some("true"));
    let back = parse_uri_node(&node.original_uri).unwrap();
    assert_eq!(back.host, "v.example.com");
    assert_eq!(back.port, 443);
    assert_eq!(back.raw_name, "Tag");
    assert_eq!(param(&back, "id"), Some("id-1"));
    assert_eq!(param(&back, "sni"), Some("s.example"));
}

#[test]
fn vmess_payload_has_its_fields() {
    let object = entries("{\"type\": \"vmess\", \"server\": \"h\", \"server_port\": 1, \"security\": \"zero\"}");
    let parts = read_outbound(&object, "h".to_string(), 1);
    assert_eq!(parts.security, "zero");
    assert_eq!(parts.tag, "Unnamed");
    let payload = read_vmess_payload(&object, &parts, "i", "2");
    assert_eq!(payload.get("scy").map(|v| v.as_str()), Some("zero"));
    assert_eq!(payload.get("net").map(|v| v.as_str()), Some("tcp"));
    assert_eq!(payload.get("tls").map(|v| v.as_str()), Some(""));
    assert_eq!(payload.get("sni").map(|v| v.as_str()), None);
    assert_eq!(payload.len(), 12);
}

#[test]
fn vless_outbound_becomes_a_link() {
    let node = outbound(
        "{\"type\": \"vless\", \"tag\": \"A B\", \"server\": \"h\", \"server_port\": \"443\", \"id\": \"u\",
          \"flow\": \"f\", \"transport\": {\"type\": \"grpc\", \"service_name\": \"s\", \"mode\": \"gun\",
          \"header\": {\"type\": \"http\"}, \"host\": [\"one\", \"two\"]}}",
    )
    .unwrap()
    .unwrap();
    assert_eq!(
        node.original_uri,
        "vless://u@h:443?flow=f&headerType=http&host=one%2Ctwo&mode=gun&path=s&security=none&serviceName=s&type=grpc#A%20B"
    );
    assert_eq!(param(&node, "id"), Some("u"));
    assert_eq!(param(&node, "headerType"), Some("http"));
}

#[test]
fn other_outbounds_become_links() {
    let trojan = outbound(
        "{\"type\": \"trojan\", \"tag\": \"T\", \"server\": \"h\", \"server_port\": 1, \"password\": \"p w\",
          \"tls\": {\"enabled\": false, \"server_name\": \"s\"}}",
    );
    assert_eq!(trojan.unwrap().unwrap().original_uri, "trojan://p%20w@h:1?sni=s#T");
    let ss = outbound(
        "{\"type\": \"shadowsocks\", \"server\": \"h\", \"server_port\": 1, \"method\": \"aes-256-gcm\",
          \"password\": \"pw\", \"plugin_opts\": \"o\"}",
    );
    assert_eq!(
        ss.unwrap().unwrap().original_uri,
        "ss://YWVzLTI1Ni1nY206cHc=@h:1?plugin_opts=o#Unnamed"
    );
    let hysteria = outbound(
        "{\"type\": \"hysteria2\", \"tag\": \"H\", \"server\": \"h\", \"server_port\": 1, \"password\": \"p\",
          \"obfs\": {\"type\": \"salamander\", \"password\": \"x\"}}",
    )
    .unwrap()
    .unwrap();
    assert_eq!(hysteria.original_uri, "hysteria2://p@h:1?obfs=salamander&obfs-password=x#H");
    assert_eq!(param(&hysteria, "obfs-password"), Some("x"));
    let tuic = outbound(
        "{\"type\": \"tuic\", \"tag\": \"U\", \"server\": \"h\", \"server_port\": 1, \"uuid\": \"u\",
          \"password\": \"p\", \"congestion_control\": \"bbr\", \"udp_relay_mode\": \"native\"}",
    );
    assert_eq!(
        tuic.unwrap().unwrap().original_uri,
        "tuic://u:p@h:1?congestion_control=bbr&udp_relay_mode=native#U"
    );
}

#[test]
fn outbound_is_left_out_or_refused_for_its_reason() {
    assert_eq!(refused(outbound("{}")), "sing-box outbound missing type");
    assert!(outbound("{\"type\": \"vmess\"}").unwrap().is_none());
    assert!(outbound("{\"type\": \"vmess\", \"server\": \"h\"}").unwrap().is_none());
    assert!(outbound("{\"type\": \"direct\", \"server\": \"h\", \"server_port\": 1}").unwrap().is_none());
    let of = |name: &str, more: &str| {
        refused(outbound(&format!(
            "{{\"type\": \"{name}\", \"server\": \"h\", \"server_port\": 1{more}}}"
        )))
    };
    assert_eq!(of("vmess", ""), "vmess outbound missing uuid");
    assert_eq!(of("vless", ""), "vless outbound missing uuid");
    assert_eq!(of("trojan", ""), "trojan outbound missing password");
    assert_eq!(of("shadowsocks", ""), "shadowsocks outbound missing method");
    assert_eq!(of("shadowsocks", ", \"method\": \"m\""), "shadowsocks outbound missing password");
    assert_eq!(of("hysteria2", ""), "hysteria2 outbound missing password");
    assert_eq!(of("tuic", ""), "tuic outbound missing uuid");
    assert_eq!(of("tuic", ", \"uuid\": \"u\""), "tuic outbound missing password");
}

// Fields

#[test]
fn values_become_texts() {
    let of = |text: &str| stringify_value(&parse_document(text).unwrap());
    assert_eq!(of("\"a\""), Some("a".to_string()));
    assert_eq!(of("1.50"), Some("1.5".to_string()));
    assert_eq!(of("-3"), Some("-3".to_string()));
    assert_eq!(of("true"), Some("true".to_string()));
    assert_eq!(of("[1, null, \"x\", [true, {}], {}]"), Some("1,x,true".to_string()));
    assert_eq!(of("[]"), Some(String::new()));
    assert_eq!(of("null"), None);
    assert_eq!(of("{}"), None);
}

#[test]
fn ports_are_numbers_or_texts() {
    let of = |text: &str| parse_port(Some(&parse_document(text).unwrap()));
    assert_eq!(of("443"), Some(443));
    assert_eq!(of("\"443\""), Some(443));
    assert_eq!(of("65536"), None);
    assert_eq!(of("-1"), None);
    assert_eq!(of("1.0"), None);
    assert_eq!(of("\"\""), None);
    assert_eq!(of("true"), None);
    assert_eq!(parse_port(None), None);
}

#[test]
fn transports_are_read() {
    let of = |text: &str| entries(text);
    assert_eq!(extract_transport_path(&of("{\"path\": \"\", \"service_name\": \"s\"}")), Some("s".to_string()));
    assert_eq!(extract_transport_path(&of("{\"headers\": {\"path\": \"/h\"}}")), Some("/h".to_string()));
    assert_eq!(extract_transport_path(&of("{}")), None);
    assert_eq!(extract_transport_host(&of("{\"host\": [\"\", \"b\"]}")), Some(",b".to_string()));
    assert_eq!(extract_transport_host(&of("{\"host\": [\"\"]}")), Some(String::new()));
    assert_eq!(extract_transport_host(&of("{\"headers\": {\"host\": \"x\", \"Host\": \"y\"}}")), Some("y".to_string()));
    assert_eq!(extract_transport_host(&of("{\"headers\": {\"host\": \"x\"}}")), Some("x".to_string()));
    assert_eq!(extract_transport_host(&of("{\"host\": null}")), None);
    assert_eq!(extract_header_type(&of("{\"header\": {\"type\": \"t\"}}")), Some("t".to_string()));
    assert_eq!(extract_header_type(&of("{\"header_type\": \"x\"}")), Some("x".to_string()));
    assert_eq!(get_nested_string(&of("{\"a\": {\"b\": 1}}"), &vec!["a", "b"]), Some("1".to_string()));
    assert_eq!(get_nested_string(&of("{\"a\": {\"b\": 1}}"), &vec!["a", "c"]), None);
}

#[test]
fn documents_of_texts_are_read_back() {
    let mut map: StrMap<String> = StrMap::new();
    map.insert("b".to_string(), "quote \" and \u{1F310}\n".to_string());
    map.insert("a".to_string(), String::new());
    let written = text_object_document(&map);
    assert_eq!(written, "{\"a\":\"\",\"b\":\"quote \\\" and \u{1F310}\\n\"}");
    let document = parse_document(&written).unwrap();
    assert_eq!(as_object(Some(&document)).unwrap().len(), 2);
    match get(&document, "b") {
        Some(Json::Text(text)) => assert_eq!(text, "quote \" and \u{1F310}\n"),
        _ => panic!("no text"),
    }
    assert!(parse_document("{").is_none());
}
