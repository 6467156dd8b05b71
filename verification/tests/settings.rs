//! Settings, paths and the cache.

use xray_sub_manager::cache::{
    accept_cache, merge_entries, next_cache, total_after_ping, total_after_tunnel, ModemCacheEntry,
    SubscriptionCache,
};
use xray_sub_manager::clock::Timestamp;
use xray_sub_manager::codec::UrlText;
use xray_sub_manager::config::{
    accept_config, default_gray_url, default_white_url, is_configured, sanitize_subscription_urls,
    validate_modems, validate_url, validate_url_parts, AppConfig, ModemConfig, UpdateConfigRequest,
    APP_CONFIG_SCHEMA_VERSION, SUBSCRIPTION_CACHE_SCHEMA_VERSION,
};
use xray_sub_manager::failure::Failure;
use xray_sub_manager::paths::{
    cache_path_for, join_path, parent_directory, resolve_config_path, temp_file_name,
};
use xray_sub_manager::strmap::StrMap;

fn config() -> AppConfig {
    AppConfig::default_with("admin".to_string(), "sub".to_string())
}

fn modem(tag: &str, interface: &str) -> ModemConfig {
    ModemConfig { modem_tag: tag.to_string(), modem_interface: interface.to_string() }
}

fn refused(result: Result<(), Failure>) -> String {
    match result {
        Ok(()) => panic!("it was accepted"),
        Err(failure) => failure.message().to_string(),
    }
}

// Defaults

#[test]
fn default_settings_are_valid() {
    let config = AppConfig::new_default();
    assert!(config.validate().is_ok());
    assert_eq!(config.schema_version, 1);
    assert_eq!(config.web_port, 8080);
    assert_eq!(config.update_interval_minutes, 60);
    assert_eq!(config.ping_timeout_ms, 3000);
    assert_eq!(config.max_concurrent_pings, 100);
    assert_eq!(config.max_concurrent_tunnels, 20);
    assert_eq!(config.network_check_interval_minutes, 10);
    assert_eq!(config.white_url, default_white_url());
    assert_eq!(config.gray_url, default_gray_url());
    assert_eq!(config.white_url, "https://www.gstatic.com/generate_204");
    assert_eq!(config.gray_url, "https://example.com");
    assert!(config.subscription_urls.is_empty());
    assert_eq!(config.modems.len(), 1);
    assert_eq!(config.modems[0].modem_tag, "default");
    assert_eq!(config.modems[0].modem_interface, "wwan0");
}

#[test]
fn tokens_are_random_and_well_formed() {
    let config = AppConfig::new_default();
    assert_ne!(config.admin_token, config.subscription_token);
    for token in [&config.admin_token, &config.subscription_token] {
        assert_eq!(token.len(), 36);
        assert_eq!(token.as_bytes()[14], b'4');
        assert_eq!(token.matches('-').count(), 4);
        assert!(token.chars().all(|ch| ch == '-' || ch.is_ascii_digit() || ('a'..='f').contains(&ch)));
    }
}

#[test]
fn the_panel_does_not_see_its_token() {
    let public = config().public_view();
    assert_eq!(public.subscription_token, "sub");
    assert_eq!(public.web_port, 8080);
    assert_eq!(public.max_concurrent_tunnels, 20);
    assert_eq!(public.modems[0].modem_interface, "wwan0");
}

// Clean-up

#[test]
fn settings_are_cleaned_up_once_and_for_all() {
    let mut dirty = config();
    dirty.white_url = " https://a \n".to_string();
    dirty.gray_url = "\thttps://b".to_string();
    dirty.subscription_urls = vec![" x ".to_string(), "  ".to_string(), "y".to_string()];
    dirty.modems = vec![modem(" t ", "\u{a0}i\u{2003}")];
    dirty.sanitize();
    assert_eq!(dirty.white_url, "https://a");
    assert_eq!(dirty.gray_url, "https://b");
    assert_eq!(dirty.subscription_urls, vec!["x", "y"]);
    assert_eq!(dirty.modems[0].modem_tag, "t");
    assert_eq!(dirty.modems[0].modem_interface, "i");
    let again = dirty.clone().sanitized();
    assert_eq!(again.subscription_urls, dirty.subscription_urls);
    assert_eq!(again.white_url, dirty.white_url);
    assert_eq!(sanitize_subscription_urls(Vec::new()).len(), 0);
}

// Validity

#[test]
fn settings_are_refused_for_their_reason() {
    let with = |change: fn(&mut AppConfig)| {
        let mut config = config();
        change(&mut config);
        refused(config.validate())
    };
    assert_eq!(
        with(|c| c.schema_version = 2),
        "unsupported config schema_version 2, expected 1"
    );
    assert_eq!(
        with(|c| c.update_interval_minutes = 0),
        "update_interval_minutes must be greater than zero"
    );
    assert_eq!(
        with(|c| c.network_check_interval_minutes = 0),
        "network_check_interval_minutes must be greater than zero"
    );
    assert_eq!(
        with(|c| c.network_check_interval_minutes = 60),
        "network_check_interval_minutes must be less than update_interval_minutes"
    );
    assert_eq!(with(|c| c.ping_timeout_ms = 0), "ping_timeout_ms must be greater than zero");
    assert_eq!(
        with(|c| c.max_concurrent_pings = 0),
        "max_concurrent_pings must be greater than zero"
    );
    assert_eq!(
        with(|c| c.max_concurrent_tunnels = 0),
        "max_concurrent_tunnels must be greater than zero"
    );
    assert_eq!(with(|c| c.white_url = "nowhere".to_string()), "white_url must be a valid URL");
    assert_eq!(with(|c| c.gray_url = "mailto:a@b".to_string()), "gray_url must include scheme and host");
    assert_eq!(with(|c| c.modems.clear()), "at least one modem must be configured");
    assert_eq!(APP_CONFIG_SCHEMA_VERSION, 1);
    assert_eq!(SUBSCRIPTION_CACHE_SCHEMA_VERSION, 1);
}

#[test]
fn addresses_need_a_scheme_and_a_host() {
    assert!(validate_url("http://h", "f").is_ok());
    assert_eq!(refused(validate_url("", "f")), "f must be a valid URL");
    assert_eq!(refused(validate_url_parts(&None, "g")), "g must be a valid URL");
    let parts = UrlText {
        scheme: "s".to_string(),
        username: String::new(),
        password: None,
        host: Some(String::new()),
        port: None,
        query: Vec::new(),
        fragment: None,
        length: 0,
    };
    let with = Some(parts);
    assert!(validate_url_parts(&with, "g").is_ok());
    assert!(config().validate_with(&with, &with).is_ok());
    assert_eq!(refused(config().validate_with(&with, &None)), "gray_url must be a valid URL");
    let without = Some(UrlText { host: None, ..with.unwrap() });
    assert_eq!(refused(validate_url_parts(&without, "g")), "g must include scheme and host");
}

#[test]
fn modems_are_refused_for_their_reason() {
    let of = |modems: Vec<ModemConfig>| refused(validate_modems(&modems));
    assert_eq!(of(vec![modem("", "i")]), "modem_tag must not be empty");
    assert_eq!(of(vec![modem("a b", "i")]), "modem_tag a b contains unsupported characters");
    assert_eq!(of(vec![modem("\u{e9}", "i")]), "modem_tag \u{e9} contains unsupported characters");
    assert_eq!(of(vec![modem("a", "i"), modem("a", "j")]), "duplicate modem_tag a");
    assert_eq!(of(vec![modem("a", "")]), "modem_interface for a must not be empty");
    assert_eq!(of(vec![modem("a", ""), modem("", "j")]), "modem_interface for a must not be empty");
    let valid = vec![modem("A-z_09", "i"), modem("b", "i")];
    assert!(validate_modems(&valid).is_ok());
    assert!(is_configured(&valid, "b"));
    assert!(!is_configured(&valid, "B"));
}

#[test]
fn settings_from_a_file_are_cleaned_up_first() {
    let mut dirty = config();
    dirty.modems = vec![modem(" a ", " i ")];
    assert_eq!(accept_config(dirty).unwrap().modems[0].modem_tag, "a");
    let mut bad = config();
    bad.modems = vec![modem("   ", "i")];
    assert_eq!(accept_config(bad).unwrap_err().message(), "modem_tag must not be empty");
}

#[test]
fn requests_keep_port_and_tokens() {
    let mut current = config();
    current.schema_version = 7;
    current.web_port = 99;
    let request = UpdateConfigRequest {
        subscription_urls: vec![" u ".to_string(), String::new()],
        update_interval_minutes: 5,
        ping_timeout_ms: 6,
        max_concurrent_pings: 7,
        max_concurrent_tunnels: 8,
        network_check_interval_minutes: 9,
        white_url: " w ".to_string(),
        gray_url: "g".to_string(),
        modems: vec![modem(" m ", "i")],
    };
    let next = request.into_config(&current);
    assert_eq!(next.schema_version, 1);
    assert_eq!(next.web_port, 99);
    assert_eq!(next.admin_token, "admin");
    assert_eq!(next.subscription_token, "sub");
    assert_eq!(next.subscription_urls, vec!["u"]);
    assert_eq!(next.update_interval_minutes, 5);
    assert_eq!(next.ping_timeout_ms, 6);
    assert_eq!(next.max_concurrent_pings, 7);
    assert_eq!(next.max_concurrent_tunnels, 8);
    assert_eq!(next.network_check_interval_minutes, 9);
    assert_eq!(next.white_url, "w");
    assert_eq!(next.modems[0].modem_tag, "m");
}

// Paths

#[test]
fn the_path_of_the_settings_is_found() {
    let some = |text: &str| Some(text.to_string());
    assert_eq!(resolve_config_path(some("a"), some("b")), "a");
    assert_eq!(resolve_config_path(some("  "), some(" b ")), " b ");
    assert_eq!(resolve_config_path(None, some("\t")), "/opt/xray-sub-manager/config.json");
    assert_eq!(resolve_config_path(None, None), "/opt/xray-sub-manager/config.json");
}

#[test]
fn the_cache_is_beside_the_settings() {
    for path in [
        "/opt/xray/config.json", "/config.json", "config.json", "a/b", "a/b/", "a//b", "a/./b",
        "./a", "./a/b", ".", "./", "..", "../a", "a/..", "/", "//", "/.", "", "a/b/.", ".hidden",
        "a/.hidden", "/a", "//a", "a//b//c", "./.", "/./a",
    ] {
        let parent = std::path::Path::new(path).parent();
        let expected = parent
            .map(|parent| parent.to_path_buf())
            .unwrap_or_else(|| std::path::PathBuf::from("."))
            .join("subscription.cache");
        assert_eq!(cache_path_for(path), expected.to_str().unwrap(), "{path}");
    }
    assert_eq!(cache_path_for("/opt/x/config.json"), "/opt/x/subscription.cache");
    assert_eq!(cache_path_for("config.json"), "subscription.cache");
    assert_eq!(cache_path_for("/"), "./subscription.cache");
    assert_eq!(parent_directory("/a/b"), "/a");
    assert_eq!(join_path("/", "x"), "/x");
    assert_eq!(temp_file_name(Some("config.json".to_string()), "id"), ".config.json.tmp-id");
    assert_eq!(temp_file_name(None, "id"), ".config.tmp-id");
}

// The cache

const NOW: Timestamp = Timestamp { secs: 1_700_000_000, nanos: 5 };

fn entry(tag: &str, interface: &str, pings: usize, tunnels: usize) -> ModemCacheEntry {
    ModemCacheEntry {
        modem_tag: tag.to_string(),
        modem_interface: interface.to_string(),
        last_update: NOW,
        nodes_after_ping: pings,
        nodes_after_tunnel: tunnels,
        nodes: Vec::new(),
    }
}

fn entries(list: Vec<(&str, ModemCacheEntry)>) -> StrMap<ModemCacheEntry> {
    let mut map = StrMap::new();
    for (tag, entry) in list {
        map.insert(tag.to_string(), entry);
    }
    map
}

fn cache(list: Vec<(&str, ModemCacheEntry)>) -> SubscriptionCache {
    let mut cache = SubscriptionCache::empty(NOW, 3, 2, 1);
    cache.by_modem = entries(list);
    cache
}

#[test]
fn an_empty_cache_is_valid() {
    let empty = SubscriptionCache::empty(NOW, 3, 2, 1);
    assert_eq!(empty.schema_version, 1);
    assert_eq!(empty.last_update, NOW);
    assert_eq!(empty.nodes_total, 3);
    assert_eq!(empty.nodes_after_dedup, 2);
    assert_eq!(empty.nodes_after_ping, Some(1));
    assert_eq!(empty.by_modem.len(), 0);
    assert!(empty.validate().is_ok());
}

#[test]
fn a_cache_is_refused_for_its_reason() {
    let mut old = SubscriptionCache::empty(NOW, 0, 0, 0);
    old.schema_version = 3;
    assert_eq!(refused(old.validate()), "unsupported cache schema_version 3, expected 1");
    assert!(accept_cache(old).is_none());
    let wrong = cache(vec![("b", entry("x", "i", 0, 0)), ("a", entry("a", "i", 0, 0)), ("c", entry("y", "i", 0, 0))]);
    assert_eq!(refused(wrong.validate()), "cache by_modem key b does not match entry modem_tag");
    assert!(accept_cache(cache(vec![("a", entry("a", "i", 0, 0))])).is_some());
}

#[test]
fn entries_of_other_modems_are_taken_out() {
    let mut cache = cache(vec![
        ("a", entry("a", "i", 1, 1)),
        ("b", entry("b", "i", 2, 2)),
        ("c", entry("c", "i", 3, 3)),
    ]);
    let modems = vec![modem("c", "x"), modem("a", "y"), modem("z", "w")];
    cache.retain_configured_modems(&modems);
    assert_eq!(cache.by_modem.len(), 2);
    assert!(cache.by_modem.get("b").is_none());
    assert_eq!(cache.by_modem.get("c").unwrap().nodes_after_ping, 3);
    assert_eq!(cache.nodes_total, 3);
    cache.retain_configured_modems(&modems);
    assert_eq!(cache.by_modem.len(), 2);
}

#[test]
fn a_failed_modem_keeps_its_entry() {
    let modems = vec![modem("a", "new"), modem("b", "i"), modem("c", "i")];
    let found = entries(vec![("a", entry("a", "old", 5, 4)), ("gone", entry("gone", "i", 1, 1))]);
    let before = Some(cache(vec![("a", entry("a", "x", 9, 9)), ("b", entry("b", "x", 7, 6))]));
    let merged = merge_entries(&modems, found.clone(), &before);
    assert_eq!(merged.len(), 2);
    assert_eq!(merged.get("a").unwrap().modem_interface, "new");
    assert_eq!(merged.get("a").unwrap().nodes_after_ping, 5);
    assert_eq!(merged.get("b").unwrap().modem_interface, "x");
    assert_eq!(total_after_ping(&merged), Some(12));
    assert_eq!(total_after_tunnel(&merged), Some(10));
    let next = next_cache(NOW, 30, 20, &modems, found, &before).unwrap();
    assert_eq!(next.nodes_total, 30);
    assert_eq!(next.nodes_after_dedup, 20);
    assert_eq!(next.nodes_after_ping, Some(12));
    assert_eq!(next.by_modem.len(), 2);
    assert!(next.validate().is_ok());
}

#[test]
fn totals_that_cannot_be_held_are_none() {
    let huge = entries(vec![
        ("a", entry("a", "i", usize::MAX, usize::MAX)),
        ("b", entry("b", "i", 1, 0)),
    ]);
    assert_eq!(total_after_ping(&huge), None);
    assert_eq!(total_after_tunnel(&huge), Some(usize::MAX));
    let modems = vec![modem("a", "i"), modem("b", "i")];
    assert!(next_cache(NOW, 0, 0, &modems, huge, &None).is_none());
}
