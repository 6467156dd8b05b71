//! What the web panel and the subscription address answer.

use xray_sub_manager::cache::{ModemCacheEntry, SubscriptionCache};
use xray_sub_manager::clock::Timestamp;
use xray_sub_manager::config::{AppConfig, ModemConfig, UpdateConfigRequest};
use xray_sub_manager::node::{Node, Protocol};
use xray_sub_manager::strmap::StrMap;
use xray_sub_manager::web::{
    combine_modem_nodes, compare_configs, extract_bearer_token, extract_cookie_token,
    get_subscription, is_admin, limited_nodes, login, plan_update, same_modems, same_texts,
    select_nodes, SelectedNodes, SubscriptionAnswer,
};

const NOW: Timestamp = Timestamp { secs: 0, nanos: 0 };

fn modem(tag: &str) -> ModemConfig {
    ModemConfig { modem_tag: tag.to_string(), modem_interface: "i".to_string() }
}

fn config() -> AppConfig {
    let mut config = AppConfig::default_with("admin".to_string(), "sub".to_string());
    config.modems = vec![modem("a"), modem("b"), modem("c")];
    config
}

fn nodes(names: &[&str]) -> Vec<Node> {
    names
        .iter()
        .map(|name| {
            Node::unprobed(
                Protocol::Trojan,
                name.to_string(),
                1,
                StrMap::new(),
                name.to_string(),
                format!("trojan://p@{name}:1"),
            )
        })
        .collect()
}

fn hosts(nodes: &[Node]) -> Vec<&str> {
    nodes.iter().map(|node| node.host.as_str()).collect()
}

fn cache(list: Vec<(&str, Vec<Node>)>) -> Option<SubscriptionCache> {
    let mut cache = SubscriptionCache::empty(NOW, 0, 0, 0);
    for (tag, nodes) in list {
        cache.by_modem.insert(
            tag.to_string(),
            ModemCacheEntry {
                modem_tag: tag.to_string(),
                modem_interface: "i".to_string(),
                last_update: NOW,
                nodes_after_ping: 0,
                nodes_after_tunnel: 0,
                nodes,
            },
        );
    }
    Some(cache)
}

// Tokens

#[test]
fn tokens_are_found_in_headers() {
    assert_eq!(extract_bearer_token(Some("Bearer x y")), Some("x y".to_string()));
    assert_eq!(extract_bearer_token(Some("bearer x")), None);
    assert_eq!(extract_bearer_token(None), None);
    assert_eq!(extract_cookie_token(Some("a=b;  auth_token=t ; auth_token=u")), Some("t".to_string()));
    assert_eq!(extract_cookie_token(Some("auth_token=")), Some(String::new()));
    assert_eq!(extract_cookie_token(Some("xauth_token=t")), None);
    assert_eq!(extract_cookie_token(None), None);
}

#[test]
fn only_the_token_of_the_panel_lets_in() {
    let config = config();
    assert!(is_admin(&config, Some("Bearer admin"), None));
    assert!(is_admin(&config, None, Some("auth_token=admin")));
    assert!(is_admin(&config, Some("Basic x"), Some("auth_token=admin")));
    assert!(!is_admin(&config, Some("Bearer wrong"), Some("auth_token=admin")));
    assert!(!is_admin(&config, None, Some("auth_token=sub")));
    assert!(!is_admin(&config, None, None));
}

#[test]
fn login_gives_a_cookie_that_lets_in() {
    let config = config();
    let cookie = login(&config, "admin").unwrap();
    assert_eq!(cookie, "auth_token=admin; Path=/; HttpOnly; SameSite=Strict");
    assert!(is_admin(&config, None, Some("auth_token=admin")));
    assert!(is_admin(&config, None, Some(&cookie)));
    assert_eq!(login(&config, "sub"), None);
    assert_eq!(login(&config, ""), None);
}

// New settings

fn request(config: &AppConfig) -> UpdateConfigRequest {
    UpdateConfigRequest {
        subscription_urls: config.subscription_urls.clone(),
        update_interval_minutes: config.update_interval_minutes,
        ping_timeout_ms: config.ping_timeout_ms,
        max_concurrent_pings: config.max_concurrent_pings,
        max_concurrent_tunnels: config.max_concurrent_tunnels,
        network_check_interval_minutes: config.network_check_interval_minutes,
        white_url: config.white_url.clone(),
        gray_url: config.gray_url.clone(),
        modems: config.modems.clone(),
    }
}

#[test]
fn new_settings_ask_for_what_they_need() {
    let current = config();
    let plan = |change: fn(&mut UpdateConfigRequest)| {
        let mut request = request(&current);
        change(&mut request);
        let change = plan_update(request, &current).unwrap();
        (change.should_check_health, change.should_refresh)
    };
    assert_eq!(plan(|_| {}), (false, false));
    assert_eq!(plan(|r| r.update_interval_minutes = 90), (false, false));
    assert_eq!(plan(|r| r.white_url = " https://www.gstatic.com/generate_204 ".to_string()), (false, false));
    assert_eq!(plan(|r| r.modems.truncate(1)), (true, true));
    assert_eq!(plan(|r| r.modems[0].modem_interface = "x".to_string()), (true, true));
    assert_eq!(plan(|r| r.white_url = "http://x".to_string()), (true, true));
    assert_eq!(plan(|r| r.gray_url = "http://x".to_string()), (true, true));
    assert_eq!(plan(|r| r.network_check_interval_minutes = 11), (true, true));
    assert_eq!(plan(|r| r.subscription_urls.push("http://x".to_string())), (false, true));
    assert_eq!(plan(|r| r.ping_timeout_ms = 1), (false, true));
    assert_eq!(plan(|r| r.max_concurrent_pings = 1), (false, true));
    assert_eq!(plan(|r| r.max_concurrent_tunnels = 1), (false, true));
    let mut bad = request(&current);
    bad.modems.clear();
    assert_eq!(
        plan_update(bad, &current).unwrap_err().message(),
        "at least one modem must be configured"
    );
    assert_eq!(compare_configs(&current, &current), (false, false));
}

#[test]
fn lists_are_compared() {
    assert!(same_modems(&vec![modem("a")], &vec![modem("a")]));
    assert!(!same_modems(&vec![modem("a")], &vec![modem("b")]));
    assert!(!same_modems(&vec![modem("a")], &vec![]));
    let texts = |list: &[&str]| list.iter().map(|text| text.to_string()).collect::<Vec<_>>();
    assert!(same_texts(&texts(&["a", "b"]), &texts(&["a", "b"])));
    assert!(!same_texts(&texts(&["a", "b"]), &texts(&["b", "a"])));
}

// Subscriptions

#[test]
fn nodes_are_limited() {
    assert_eq!(hosts(&limited_nodes(nodes(&["1", "2"]), Some(1))), vec!["1"]);
    assert_eq!(limited_nodes(nodes(&["1", "2"]), Some(0)).len(), 0);
    assert_eq!(limited_nodes(nodes(&["1", "2"]), Some(9)).len(), 2);
    assert_eq!(limited_nodes(nodes(&["1", "2"]), None).len(), 2);
}

#[test]
fn modems_share_a_limit() {
    let (a, b, c) = (nodes(&["a1", "a2", "a3"]), nodes(&["b1"]), nodes(&["c1", "c2", "c3"]));
    let lists = vec![&a, &b, &c];
    let of = |limit: Option<usize>| {
        combine_modem_nodes(&lists, limit).iter().map(|node| node.host.clone()).collect::<Vec<_>>()
    };
    assert_eq!(of(None), vec!["a1", "a2", "a3", "b1", "c1", "c2", "c3"]);
    assert_eq!(of(Some(4)), vec!["a1", "a2", "b1", "c1"]);
    assert_eq!(of(Some(3)), vec!["a1", "b1", "c1"]);
    assert_eq!(of(Some(2)), vec!["a1", "b1"]);
    assert_eq!(of(Some(0)), Vec::<String>::new());
    assert_eq!(of(Some(usize::MAX)).len(), 7);
    assert_eq!(combine_modem_nodes(&vec![], Some(5)).len(), 0);
}

#[test]
fn requests_are_refused_for_their_reason() {
    let config = config();
    let full = cache(vec![("a", nodes(&["n"])), ("other", nodes(&["o"]))]);
    let ask = |cache: &Option<SubscriptionCache>, token: &str, modem: Option<&str>| {
        get_subscription(&config, cache, token, None, modem)
    };
    assert!(matches!(ask(&full, "admin", None), SubscriptionAnswer::Unauthorized));
    assert!(matches!(ask(&None, "wrong", None), SubscriptionAnswer::Unauthorized));
    assert!(matches!(ask(&None, "sub", Some("nobody")), SubscriptionAnswer::Unavailable));
    assert!(matches!(ask(&cache(vec![]), "sub", None), SubscriptionAnswer::Unavailable));
    assert!(matches!(ask(&full, "sub", Some("other")), SubscriptionAnswer::NotFound));
    assert!(matches!(ask(&full, "sub", Some("b")), SubscriptionAnswer::NotFound));
}

#[test]
fn subscriptions_are_served() {
    let config = config();
    let cache = cache(vec![
        ("c", nodes(&["c1"])),
        ("a", nodes(&["a1", "a2"])),
        ("other", nodes(&["o"])),
    ]);
    let pick = |limit: Option<usize>, modem: Option<&str>| {
        match select_nodes(&config, &cache, "sub", limit, modem) {
            SelectedNodes::Nodes(nodes) => {
                nodes.iter().map(|node| node.host.clone()).collect::<Vec<_>>()
            }
            other => panic!("{other:?}"),
        }
    };
    assert_eq!(pick(None, None), vec!["a1", "a2", "c1"]);
    assert_eq!(pick(Some(2), Some("  ")), vec!["a1", "c1"]);
    assert_eq!(pick(None, Some(" a ")), vec!["a1", "a2"]);
    assert_eq!(pick(Some(1), Some("a")), vec!["a1"]);
    match get_subscription(&config, &cache, "sub", Some(1), Some("a")) {
        SubscriptionAnswer::Text(text) => assert_eq!(text, "dHJvamFuOi8vcEBhMToxI2Ex"),
        other => panic!("{other:?}"),
    }
}
