//! Names that differ: what the laws need to know of the keys of maps and objects.

use vstd::prelude::*;

verus! {

/// A number that tells texts apart: how long a text is, its first character, the
/// one at a third of it, and its last.
#[verifier::opaque]
pub open spec fn mark(text: Seq<char>) -> int {
    let count = text.len() as int;
    if count == 0 {
        0
    } else {
        count + 100 * (text[0] as int) + 100_000 * (text[count / 3] as int) + 100_000_000 * (
        text[count - 1] as int)
    }
}

/// The parameters that links carry have different names.
pub proof fn lemma_link_keys()
    ensures
        mark("type"@) == 10_112_111_604,
        mark("path"@) == 10_409_711_204,
        mark("host"@) == 11_611_110_404,
        mark("serviceName"@) == 10_111_811_511,
        mark("mode"@) == 10_111_110_904,
        mark("headerType"@) == 10_110_010_410,
        mark("security"@) == 12_109_911_508,
        mark("sni"@) == 10_511_011_503,
        mark("alpn"@) == 11_010_809_704,
        mark("flow"@) == 11_910_810_204,
        mark("id"@) == 10_010_510_502,
        mark("uuid"@) == 10_011_711_704,
        mark("password"@) == 10_011_511_208,
        mark("obfs"@) == 11_509_811_104,
        mark("obfs-password"@) == 10_004_511_113,
        mark("congestion_control"@) == 10_811_609_918,
        mark("udp_relay_mode"@) == 10_111_411_714,
        mark("net"@) == 11_610_111_003,
        mark("aid"@) == 10_010_509_703,
        mark("method"@) == 10_011_610_906,
{
    reveal(mark);
    reveal_strlit("type");
    reveal_strlit("path");
    reveal_strlit("host");
    reveal_strlit("serviceName");
    reveal_strlit("mode");
    reveal_strlit("headerType");
    reveal_strlit("security");
    reveal_strlit("sni");
    reveal_strlit("alpn");
    reveal_strlit("flow");
    reveal_strlit("id");
    reveal_strlit("uuid");
    reveal_strlit("password");
    reveal_strlit("obfs");
    reveal_strlit("obfs-password");
    reveal_strlit("congestion_control");
    reveal_strlit("udp_relay_mode");
    reveal_strlit("net");
    reveal_strlit("aid");
    reveal_strlit("method");
}

/// The fields of vmess documents have different names.
pub proof fn lemma_vmess_keys()
    ensures
        mark("v"@) == 11_811_811_801,
        mark("ps"@) == 11_511_211_202,
        mark("add"@) == 10_010_009_703,
        mark("port"@) == 11_611_111_204,
        mark("id"@) == 10_010_510_502,
        mark("aid"@) == 10_010_509_703,
        mark("scy"@) == 12_109_911_503,
        mark("net"@) == 11_610_111_003,
        mark("type"@) == 10_112_111_604,
        mark("host"@) == 11_611_110_404,
        mark("path"@) == 10_409_711_204,
        mark("tls"@) == 11_510_811_603,
        mark("sni"@) == 10_511_011_503,
{
    reveal(mark);
    reveal_strlit("v");
    reveal_strlit("ps");
    reveal_strlit("add");
    reveal_strlit("port");
    reveal_strlit("id");
    reveal_strlit("aid");
    reveal_strlit("scy");
    reveal_strlit("net");
    reveal_strlit("type");
    reveal_strlit("host");
    reveal_strlit("path");
    reveal_strlit("tls");
    reveal_strlit("sni");
}

/// The fields of sing-box outbounds have different names.
pub proof fn lemma_outbound_keys()
    ensures
        mark("tag"@) == 10_309_711_603,
        mark("server"@) == 11_411_411_506,
        mark("server_port"@) == 11_611_811_511,
        mark("bind_interface"@) == 10_109_509_814,
        mark("type"@) == 10_112_111_604,
        mark("uuid"@) == 10_011_711_704,
        mark("password"@) == 10_011_511_208,
        mark("method"@) == 10_011_610_906,
        mark("security"@) == 12_109_911_508,
        mark("alter_id"@) == 10_011_609_708,
        mark("flow"@) == 11_910_810_204,
        mark("obfs"@) == 11_509_811_104,
        mark("congestion_control"@) == 10_811_609_918,
        mark("udp_relay_mode"@) == 10_111_411_714,
        mark("transport"@) == 11_611_011_609,
        mark("tls"@) == 11_510_811_603,
{
    reveal(mark);
    reveal_strlit("tag");
    reveal_strlit("server");
    reveal_strlit("server_port");
    reveal_strlit("bind_interface");
    reveal_strlit("type");
    reveal_strlit("uuid");
    reveal_strlit("password");
    reveal_strlit("method");
    reveal_strlit("security");
    reveal_strlit("alter_id");
    reveal_strlit("flow");
    reveal_strlit("obfs");
    reveal_strlit("congestion_control");
    reveal_strlit("udp_relay_mode");
    reveal_strlit("transport");
    reveal_strlit("tls");
}

/// The fields of transports and of TLS settings have different names.
pub proof fn lemma_section_keys()
    ensures
        mark("type"@) == 10_112_111_604,
        mark("path"@) == 10_409_711_204,
        mark("headers"@) == 11_509_710_407,
        mark("service_name"@) == 10_110_511_512,
        mark("host"@) == 11_611_110_404,
        mark("enabled"@) == 10_009_710_107,
        mark("server_name"@) == 10_111_811_511,
        mark("insecure"@) == 10_111_510_508,
        mark("alpn"@) == 11_010_809_704,
        mark("reality"@) == 12_109_711_407,
        mark("utls"@) == 11_511_611_704,
        mark("public_key"@) == 12_110_811_210,
        mark("short_id"@) == 10_011_111_508,
        mark("fingerprint"@) == 11_610_310_211,
        mark("password"@) == 10_011_511_208,
{
    reveal(mark);
    reveal_strlit("type");
    reveal_strlit("path");
    reveal_strlit("headers");
    reveal_strlit("service_name");
    reveal_strlit("host");
    reveal_strlit("enabled");
    reveal_strlit("server_name");
    reveal_strlit("insecure");
    reveal_strlit("alpn");
    reveal_strlit("reality");
    reveal_strlit("utls");
    reveal_strlit("public_key");
    reveal_strlit("short_id");
    reveal_strlit("fingerprint");
    reveal_strlit("password");
}

/// Networks have different names.
pub proof fn lemma_networks()
    ensures
        mark("tcp"@) == 11_209_911_603,
        mark("raw"@) == 11_909_711_403,
        mark("ws"@) == 11_511_911_902,
        mark("grpc"@) == 9_911_410_304,
        mark("http"@) == 11_211_610_404,
        mark("h2"@) == 5_010_410_402,
        mark("httpupgrade"@) == 10_111_210_411,
        mark("quic"@) == 9_911_711_304,
{
    reveal(mark);
    reveal_strlit("tcp");
    reveal_strlit("raw");
    reveal_strlit("ws");
    reveal_strlit("grpc");
    reveal_strlit("http");
    reveal_strlit("h2");
    reveal_strlit("httpupgrade");
    reveal_strlit("quic");
}

/// The sections of sing-box settings have different names.
pub proof fn lemma_settings_keys()
    ensures
        mark("log"@) == 10_311_110_803,
        mark("inbounds"@) == 11_509_810_508,
        mark("outbounds"@) == 11_509_811_109,
        mark("route"@) == 10_111_111_405,
        mark("type"@) == 10_112_111_604,
        mark("tag"@) == 10_309_711_603,
        mark("listen"@) == 11_011_510_806,
        mark("listen_port"@) == 11_611_610_811,
{
    reveal(mark);
    reveal_strlit("log");
    reveal_strlit("inbounds");
    reveal_strlit("outbounds");
    reveal_strlit("route");
    reveal_strlit("type");
    reveal_strlit("tag");
    reveal_strlit("listen");
    reveal_strlit("listen_port");
}

/// Outbound types have different names.
pub proof fn lemma_types()
    ensures
        mark("vmess"@) == 11_510_911_805,
        mark("vless"@) == 11_510_811_805,
        mark("trojan"@) == 11_011_111_606,
        mark("shadowsocks"@) == 11_510_011_511,
        mark("hysteria2"@) == 5_011_610_409,
        mark("tuic"@) == 9_911_711_604,
{
    reveal(mark);
    reveal_strlit("vmess");
    reveal_strlit("vless");
    reveal_strlit("trojan");
    reveal_strlit("shadowsocks");
    reveal_strlit("hysteria2");
    reveal_strlit("tuic");
}

/// The parameters of ShadowsocksR nodes have different names.
pub proof fn lemma_ssr_keys()
    ensures
        mark("protocol"@) == 10_811_111_208,
        mark("method"@) == 10_011_610_906,
        mark("obfs"@) == 11_509_811_104,
        mark("password"@) == 10_011_511_208,
        mark("remarks"@) == 11_510_911_407,
{
    reveal(mark);
    reveal_strlit("protocol");
    reveal_strlit("method");
    reveal_strlit("obfs");
    reveal_strlit("password");
    reveal_strlit("remarks");
}

/// The fields of fingerprints have different names.
pub proof fn lemma_print_keys()
    ensures
        mark("protocol"@) == 10_811_111_208,
        mark("host"@) == 11_611_110_404,
        mark("port"@) == 11_611_111_204,
        mark("id"@) == 10_010_510_502,
        mark("aid"@) == 10_010_509_703,
        mark("net"@) == 11_610_111_003,
        mark("path"@) == 10_409_711_204,
        mark("type"@) == 10_112_111_604,
        mark("security"@) == 12_109_911_508,
        mark("sni"@) == 10_511_011_503,
        mark("serviceName"@) == 10_111_811_511,
        mark("flow"@) == 11_910_810_204,
        mark("mode"@) == 10_111_110_904,
        mark("headerType"@) == 10_110_010_410,
        mark("password"@) == 10_011_511_208,
        mark("method"@) == 10_011_610_906,
        mark("obfs"@) == 11_509_811_104,
        mark("obfs-password"@) == 10_004_511_113,
        mark("uuid"@) == 10_011_711_704,
{
    reveal(mark);
    reveal_strlit("protocol");
    reveal_strlit("host");
    reveal_strlit("port");
    reveal_strlit("id");
    reveal_strlit("aid");
    reveal_strlit("net");
    reveal_strlit("path");
    reveal_strlit("type");
    reveal_strlit("security");
    reveal_strlit("sni");
    reveal_strlit("serviceName");
    reveal_strlit("flow");
    reveal_strlit("mode");
    reveal_strlit("headerType");
    reveal_strlit("password");
    reveal_strlit("method");
    reveal_strlit("obfs");
    reveal_strlit("obfs-password");
    reveal_strlit("uuid");
}

/// The parameters of Shadowsocks nodes have different names.
pub proof fn lemma_ss_keys()
    ensures
        mark("method"@) == 10_011_610_906,
        mark("password"@) == 10_011_511_208,
        mark("plugin"@) == 11_011_711_206,
        mark("plugin_opts"@) == 11_510_311_211,
        mark("udp_over_tcp"@) == 11_211_111_712,
{
    reveal(mark);
    reveal_strlit("method");
    reveal_strlit("password");
    reveal_strlit("plugin");
    reveal_strlit("plugin_opts");
    reveal_strlit("udp_over_tcp");
}

} // verus!
