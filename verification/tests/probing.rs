//! Probes of nodes and the settings of their tunnels.

use xray_sub_manager::json::{get, Json};
use xray_sub_manager::node::{Node, Protocol};
use xray_sub_manager::probe::{
    concurrent_probes, keep_online, keep_working, record_ping, record_tunnel, socks_greeting,
    socks_request, Lookup, Ping, Socks,
};
use xray_sub_manager::strmap::StrMap;
use xray_sub_manager::tunnel::{
    build_outbound, build_sing_box_config, build_tls, build_transport, string_param,
};

fn node(protocol: Protocol, pairs: &[(&str, &str)]) -> Node {
    let mut params = StrMap::new();
    for (key, value) in pairs {
        params.insert(key.to_string(), value.to_string());
    }
    Node::unprobed(protocol, "h".to_string(), 443, params, "n".to_string(), "u".to_string())
}

fn show(json: &Json) -> String {
    match json {
        Json::Null => "null".to_string(),
        Json::Bool(flag) => flag.to_string(),
        Json::Number(text, _) => text.clone(),
        Json::Text(text) => format!("'{text}'"),
        Json::Array(list) => {
            format!("[{}]", list.iter().map(show).collect::<Vec<_>>().join(","))
        }
        Json::Object(entries) => {
            let parts: Vec<String> =
                entries.iter().map(|(key, value)| format!("{key}:{}", show(value))).collect();
            format!("{{{}}}", parts.join(","))
        }
    }
}

fn outbound(protocol: Protocol, pairs: &[(&str, &str)]) -> String {
    match build_outbound(&node(protocol, pairs), "") {
        Ok(json) => show(&json),
        Err(failure) => failure.message().to_string(),
    }
}

fn transport(pairs: &[(&str, &str)]) -> String {
    match build_transport(&node(Protocol::Vless, pairs)) {
        Ok(Some(json)) => show(&json),
        Ok(None) => "none".to_string(),
        Err(failure) => failure.message().to_string(),
    }
}

// Settings

#[test]
fn outbounds_are_built() {
    assert_eq!(
        outbound(Protocol::Vmess, &[("id", "u"), ("aid", "7")]),
        "{alter_id:7,security:'auto',server:'h',server_port:443,tag:'proxy',type:'vmess',uuid:'u'}"
    );
    assert_eq!(
        outbound(Protocol::Vmess, &[("id", "u"), ("aid", "x"), ("scy", "zero")]),
        "{security:'zero',server:'h',server_port:443,tag:'proxy',type:'vmess',uuid:'u'}"
    );
    assert_eq!(
        outbound(Protocol::Vless, &[("id", "u"), ("flow", "f")]),
        "{flow:'f',server:'h',server_port:443,tag:'proxy',type:'vless',uuid:'u'}"
    );
    assert_eq!(
        outbound(Protocol::Trojan, &[("password", "p")]),
        "{password:'p',server:'h',server_port:443,tag:'proxy',type:'trojan'}"
    );
    assert_eq!(
        outbound(Protocol::Shadowsocks, &[("method", "m"), ("password", "p")]),
        "{method:'m',password:'p',server:'h',server_port:443,tag:'proxy',type:'shadowsocks'}"
    );
    assert_eq!(
        outbound(Protocol::Hysteria2, &[("password", "p"), ("obfs", "o"), ("obfs-password", "x")]),
        "{obfs:{password:'x',type:'o'},password:'p',server:'h',server_port:443,tag:'proxy',tls:{enabled:true,insecure:true,server_name:'h'},type:'hysteria2'}"
    );
    assert_eq!(
        outbound(Protocol::Tuic, &[("uuid", "u"), ("password", "p"), ("congestion_control", "c")]),
        "{congestion_control:'c',password:'p',server:'h',server_port:443,tag:'proxy',tls:{enabled:true,insecure:true,server_name:'h'},type:'tuic',uuid:'u'}"
    );
}

#[test]
fn outbounds_are_refused_for_their_reason() {
    assert_eq!(outbound(Protocol::Vmess, &[]), "node missing required parameter id");
    assert_eq!(outbound(Protocol::Trojan, &[]), "node missing required parameter password");
    assert_eq!(
        outbound(Protocol::Shadowsocks, &[("plugin", ""), ("method", "m")]),
        "shadowsocks plugins are not supported by tunnel probe"
    );
    assert_eq!(outbound(Protocol::Shadowsocks, &[]), "node missing required parameter method");
    assert_eq!(
        outbound(Protocol::ShadowsocksR, &[]),
        "shadowsocksr is not supported by sing-box tunnel probe"
    );
    assert_eq!(outbound(Protocol::Tuic, &[("uuid", "u")]), "node missing required parameter password");
    assert_eq!(
        outbound(Protocol::Trojan, &[("password", "p"), ("type", "kcp")]),
        "unsupported transport type kcp"
    );
    assert!(string_param(&node(Protocol::Tuic, &[("k", "v")]), "k").is_ok());
}

#[test]
fn transports_are_built() {
    assert_eq!(transport(&[]), "none");
    assert_eq!(transport(&[("type", "raw"), ("net", "ws")]), "none");
    assert_eq!(
        transport(&[("net", "ws"), ("path", "/p"), ("host", "x")]),
        "{headers:{Host:'x'},path:'/p',type:'ws'}"
    );
    assert_eq!(transport(&[("type", "grpc"), ("path", "//s/t")]), "{service_name:'s/t',type:'grpc'}");
    assert_eq!(
        transport(&[("type", "grpc"), ("serviceName", "a"), ("path", "b")]),
        "{service_name:'a',type:'grpc'}"
    );
    assert_eq!(transport(&[("type", "h2"), ("host", "a, b ,")]), "{host:['a','b',''],type:'http'}");
    assert_eq!(
        transport(&[("type", "httpupgrade"), ("host", "x"), ("path", "/")]),
        "{host:'x',path:'/',type:'httpupgrade'}"
    );
    assert_eq!(transport(&[("type", "quic"), ("path", "/")]), "{type:'quic'}");
    assert_eq!(transport(&[("type", "xhttp")]), "unsupported transport type xhttp");
}

#[test]
fn tls_sections_are_built() {
    let tls = |pairs: &[(&str, &str)]| {
        build_tls(&node(Protocol::Vless, pairs)).map(|json| show(&json))
    };
    assert_eq!(tls(&[]), None);
    assert_eq!(tls(&[("security", "none")]), None);
    assert_eq!(
        tls(&[("security", "tls")]).as_deref(),
        Some("{enabled:true,insecure:true,server_name:'h'}")
    );
    assert_eq!(
        tls(&[("sni", "s"), ("alpn", "h2, ,h3")]).as_deref(),
        Some("{alpn:['h2','h3'],enabled:true,insecure:true,server_name:'s'}")
    );
    assert_eq!(
        tls(&[("alpn", " , ")]).as_deref(),
        Some("{enabled:true,insecure:true,server_name:'h'}")
    );
    assert_eq!(
        tls(&[("security", "reality"), ("pbk", "k"), ("sid", "i"), ("fp", "chrome")]).as_deref(),
        Some("{enabled:true,insecure:true,reality:{enabled:true,public_key:'k',short_id:'i'},server_name:'h',utls:{enabled:true,fingerprint:'chrome'}}")
    );
    assert_eq!(
        tls(&[("security", "tls"), ("fp", "chrome")]).as_deref(),
        Some("{enabled:true,insecure:true,server_name:'h'}")
    );
}

#[test]
fn sing_box_settings_are_built() {
    let config = build_sing_box_config(&node(Protocol::Trojan, &[("password", "p")]), 1080, "wwan0").unwrap();
    assert_eq!(
        show(&config),
        "{inbounds:[{listen:'127.0.0.1',listen_port:1080,tag:'local-socks',type:'socks'}],log:{disabled:true},outbounds:[{bind_interface:'wwan0',password:'p',server:'h',server_port:443,tag:'proxy',type:'trojan'}],route:{final:'proxy'}}"
    );
    assert!(matches!(get(&config, "route"), Some(Json::Object(_))));
    assert!(build_sing_box_config(&node(Protocol::ShadowsocksR, &[]), 1, "").is_err());
}

// SOCKS5

#[test]
fn the_exchange_with_a_proxy_goes_on() {
    assert_eq!(socks_greeting(), vec![5, 1, 0]);
    assert_eq!(socks_request(), vec![5, 1, 0, 1, 1, 1, 1, 1, 1, 187]);
    let reply = Socks::Method.advance(&vec![5, 0]).unwrap();
    assert_eq!((reply, reply.bytes_needed()), (Socks::Reply, 4));
    assert_eq!(Socks::Method.bytes_needed(), 2);
    assert_eq!(reply.advance(&vec![5, 0, 9, 1]).unwrap(), Socks::Address(6));
    assert_eq!(reply.advance(&vec![5, 0, 0, 4]).unwrap(), Socks::Address(18));
    let name = reply.advance(&vec![5, 0, 0, 3]).unwrap();
    assert_eq!((name, name.bytes_needed()), (Socks::NameLength, 1));
    let address = name.advance(&vec![255]).unwrap();
    assert_eq!(address, Socks::Address(257));
    assert_eq!(address.advance(&vec![0; 257]).unwrap(), Socks::Connected);
    assert_eq!(Socks::Connected.bytes_needed(), 0);
    assert_eq!(Socks::Connected.advance(&vec![]).unwrap(), Socks::Connected);
}

#[test]
fn a_proxy_is_refused_for_its_reason() {
    let reason = |socks: Socks, bytes: Vec<u8>| socks.advance(&bytes).unwrap_err().message().to_string();
    assert_eq!(reason(Socks::Method, vec![5, 255]), "SOCKS5 proxy rejected no-auth method");
    assert_eq!(reason(Socks::Method, vec![4, 0]), "SOCKS5 proxy rejected no-auth method");
    assert_eq!(reason(Socks::Reply, vec![4, 0, 0, 1]), "invalid SOCKS5 version in connect response");
    assert_eq!(reason(Socks::Reply, vec![5, 5, 0, 1]), "SOCKS5 connect failed with reply code 5");
    assert_eq!(reason(Socks::Reply, vec![5, 0, 0, 2]), "unsupported SOCKS5 address type 2");
}

// Results

#[test]
fn pings_try_address_after_address() {
    let offline = |ping: Ping| match ping {
        Ping::Offline(reason) => reason,
        other => panic!("{other:?}"),
    };
    assert_eq!(
        offline(Ping::after_lookup("h", 1, &Lookup::Found(0))),
        "DNS lookup returned no addresses for h:1"
    );
    assert_eq!(offline(Ping::after_lookup("h", 1, &Lookup::TimedOut)), "DNS lookup timed out for h:1");
    assert_eq!(offline(Ping::after_lookup("h", 1, &Lookup::Failed("x".to_string()))), "x");
    let ping = Ping::after_lookup("h", 1, &Lookup::Found(2));
    assert!(matches!(ping, Ping::Trying(0, 2)));
    let ping = ping.after_try(Some("first".to_string()));
    assert!(matches!(ping, Ping::Trying(1, 2)));
    assert_eq!(offline(ping.after_try(Some("second".to_string()))), "second");
    assert!(matches!(Ping::Trying(1, 2).after_try(None), Ping::Online));
    assert!(matches!(Ping::Online.after_try(Some("late".to_string())), Ping::Online));
}

#[test]
fn results_are_noted_on_nodes() {
    let pinged = record_ping(node(Protocol::Tuic, &[]), Some(12));
    assert!(pinged.ping_ok && pinged.ping_ms == Some(12));
    let silent = record_ping(node(Protocol::Tuic, &[]), None);
    assert!(!silent.ping_ok && silent.ping_ms.is_none());
    let probed = record_tunnel(pinged.clone(), Some(34));
    assert!(probed.tunnel_ok && probed.tunnel_ms == Some(34));
    let broken = record_tunnel(probed.clone(), None);
    assert!(!broken.tunnel_ok && broken.tunnel_ms.is_none() && broken.ping_ok);
    assert_eq!(keep_online(vec![silent.clone(), pinged.clone(), silent]).len(), 1);
    assert_eq!(keep_working(vec![broken, probed.clone(), pinged, probed]).len(), 2);
    assert_eq!(concurrent_probes(0), 1);
    assert_eq!(concurrent_probes(7), 7);
}
