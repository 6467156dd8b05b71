//! The settings: their defaults, their clean-up and what makes them valid.

use vstd::prelude::*;
use vstd::string::*;

use crate::codec;
use crate::codec::{UrlParts, UrlText};
use crate::failure;
use crate::failure::Failure;
use crate::items;
use crate::items::Duplicate;
use crate::text;

verus! {

/// The version of the settings file.
pub const APP_CONFIG_SCHEMA_VERSION: u32 = 1;

/// The version of the cache file.
pub const SUBSCRIPTION_CACHE_SCHEMA_VERSION: u32 = 1;

// ---------------------------------------------------------------------------
// Types
// ---------------------------------------------------------------------------

/// A modem: the tag by which it is known and its network interface.
#[derive(Debug)]
pub struct ModemConfig {
    pub modem_tag: String,
    pub modem_interface: String,
}

/// The mathematical form of a modem.
pub struct ModemView {
    pub modem_tag: Seq<char>,
    pub modem_interface: Seq<char>,
}

impl View for ModemConfig {
    type V = ModemView;

    open spec fn view(&self) -> ModemView {
        ModemView { modem_tag: self.modem_tag@, modem_interface: self.modem_interface@ }
    }
}

impl Duplicate for ModemConfig {
    fn duplicate(&self) -> (copy: Self) {
        ModemConfig {
            modem_tag: self.modem_tag.clone(),
            modem_interface: self.modem_interface.clone(),
        }
    }
}

impl Clone for ModemConfig {
    fn clone(&self) -> (copy: Self)
        ensures
            copy@ == self@,
    {
        self.duplicate()
    }
}

/// The settings.
#[derive(Debug)]
pub struct AppConfig {
    pub schema_version: u32,
    pub web_port: u16,
    pub admin_token: String,
    pub subscription_token: String,
    pub update_interval_minutes: u64,
    pub ping_timeout_ms: u64,
    pub max_concurrent_pings: usize,
    pub max_concurrent_tunnels: usize,
    pub network_check_interval_minutes: u64,
    pub white_url: String,
    pub gray_url: String,
    pub subscription_urls: Vec<String>,
    pub modems: Vec<ModemConfig>,
}

/// The mathematical form of the settings.
pub struct ConfigView {
    pub schema_version: u32,
    pub web_port: u16,
    pub admin_token: Seq<char>,
    pub subscription_token: Seq<char>,
    pub update_interval_minutes: u64,
    pub ping_timeout_ms: u64,
    pub max_concurrent_pings: usize,
    pub max_concurrent_tunnels: usize,
    pub network_check_interval_minutes: u64,
    pub white_url: Seq<char>,
    pub gray_url: Seq<char>,
    pub subscription_urls: Seq<Seq<char>>,
    pub modems: Seq<ModemView>,
}

impl View for AppConfig {
    type V = ConfigView;

    open spec fn view(&self) -> ConfigView {
        ConfigView {
            schema_version: self.schema_version,
            web_port: self.web_port,
            admin_token: self.admin_token@,
            subscription_token: self.subscription_token@,
            update_interval_minutes: self.update_interval_minutes,
            ping_timeout_ms: self.ping_timeout_ms,
            max_concurrent_pings: self.max_concurrent_pings,
            max_concurrent_tunnels: self.max_concurrent_tunnels,
            network_check_interval_minutes: self.network_check_interval_minutes,
            white_url: self.white_url@,
            gray_url: self.gray_url@,
            subscription_urls: items::views(self.subscription_urls@),
            modems: items::views(self.modems@),
        }
    }
}

impl Duplicate for AppConfig {
    fn duplicate(&self) -> (copy: Self) {
        AppConfig {
            schema_version: self.schema_version,
            web_port: self.web_port,
            admin_token: self.admin_token.clone(),
            subscription_token: self.subscription_token.clone(),
            update_interval_minutes: self.update_interval_minutes,
            ping_timeout_ms: self.ping_timeout_ms,
            max_concurrent_pings: self.max_concurrent_pings,
            max_concurrent_tunnels: self.max_concurrent_tunnels,
            network_check_interval_minutes: self.network_check_interval_minutes,
            white_url: self.white_url.clone(),
            gray_url: self.gray_url.clone(),
            subscription_urls: items::duplicate_all(&self.subscription_urls),
            modems: items::duplicate_all(&self.modems),
        }
    }
}

impl Clone for AppConfig {
    fn clone(&self) -> (copy: Self)
        ensures
            copy@ == self@,
    {
        self.duplicate()
    }
}

/// The settings that the web panel shows: all but the version of the file and
/// the token that the panel itself asks for.
#[derive(Debug)]
pub struct PublicConfig {
    pub web_port: u16,
    pub subscription_token: String,
    pub update_interval_minutes: u64,
    pub ping_timeout_ms: u64,
    pub max_concurrent_pings: usize,
    pub max_concurrent_tunnels: usize,
    pub network_check_interval_minutes: u64,
    pub white_url: String,
    pub gray_url: String,
    pub subscription_urls: Vec<String>,
    pub modems: Vec<ModemConfig>,
}

/// The mathematical form of the settings that the web panel shows.
pub struct PublicView {
    pub web_port: u16,
    pub subscription_token: Seq<char>,
    pub update_interval_minutes: u64,
    pub ping_timeout_ms: u64,
    pub max_concurrent_pings: usize,
    pub max_concurrent_tunnels: usize,
    pub network_check_interval_minutes: u64,
    pub white_url: Seq<char>,
    pub gray_url: Seq<char>,
    pub subscription_urls: Seq<Seq<char>>,
    pub modems: Seq<ModemView>,
}

impl View for PublicConfig {
    type V = PublicView;

    open spec fn view(&self) -> PublicView {
        PublicView {
            web_port: self.web_port,
            subscription_token: self.subscription_token@,
            update_interval_minutes: self.update_interval_minutes,
            ping_timeout_ms: self.ping_timeout_ms,
            max_concurrent_pings: self.max_concurrent_pings,
            max_concurrent_tunnels: self.max_concurrent_tunnels,
            network_check_interval_minutes: self.network_check_interval_minutes,
            white_url: self.white_url@,
            gray_url: self.gray_url@,
            subscription_urls: items::views(self.subscription_urls@),
            modems: items::views(self.modems@),
        }
    }
}

/// The settings that the web panel sends.
#[derive(Debug)]
pub struct UpdateConfigRequest {
    pub subscription_urls: Vec<String>,
    pub update_interval_minutes: u64,
    pub ping_timeout_ms: u64,
    pub max_concurrent_pings: usize,
    pub max_concurrent_tunnels: usize,
    pub network_check_interval_minutes: u64,
    pub white_url: String,
    pub gray_url: String,
    pub modems: Vec<ModemConfig>,
}

/// The mathematical form of the settings that the web panel sends.
pub struct RequestView {
    pub subscription_urls: Seq<Seq<char>>,
    pub update_interval_minutes: u64,
    pub ping_timeout_ms: u64,
    pub max_concurrent_pings: usize,
    pub max_concurrent_tunnels: usize,
    pub network_check_interval_minutes: u64,
    pub white_url: Seq<char>,
    pub gray_url: Seq<char>,
    pub modems: Seq<ModemView>,
}

impl View for UpdateConfigRequest {
    type V = RequestView;

    open spec fn view(&self) -> RequestView {
        RequestView {
            subscription_urls: items::views(self.subscription_urls@),
            update_interval_minutes: self.update_interval_minutes,
            ping_timeout_ms: self.ping_timeout_ms,
            max_concurrent_pings: self.max_concurrent_pings,
            max_concurrent_tunnels: self.max_concurrent_tunnels,
            network_check_interval_minutes: self.network_check_interval_minutes,
            white_url: self.white_url@,
            gray_url: self.gray_url@,
            modems: items::views(self.modems@),
        }
    }
}

// ---------------------------------------------------------------------------
// Defaults
// ---------------------------------------------------------------------------

/// The page that a modem reaches whenever it is online.
pub fn default_white_url() -> (url: String)
    ensures
        url@ == "https://www.gstatic.com/generate_204"@,
{
    "https://www.gstatic.com/generate_204".to_string()
}

/// The page that a modem reaches unless its network lets only some pages pass.
pub fn default_gray_url() -> (url: String)
    ensures
        url@ == "https://example.com"@,
{
    "https://example.com".to_string()
}

/// The settings to start with.
pub open spec fn default_config(admin_token: Seq<char>, subscription_token: Seq<char>) -> ConfigView {
    ConfigView {
        schema_version: APP_CONFIG_SCHEMA_VERSION,
        web_port: 8080,
        admin_token,
        subscription_token,
        update_interval_minutes: 60,
        ping_timeout_ms: 3000,
        max_concurrent_pings: 100,
        max_concurrent_tunnels: 20,
        network_check_interval_minutes: 10,
        white_url: "https://www.gstatic.com/generate_204"@,
        gray_url: "https://example.com"@,
        subscription_urls: Seq::empty(),
        modems: seq![ModemView { modem_tag: "default"@, modem_interface: "wwan0"@ }],
    }
}

/// A lower-case hexadecimal digit.
pub open spec fn is_low_hex(ch: char) -> bool {
    '0' <= ch <= '9' || 'a' <= ch <= 'f'
}

/// Whether a text has the form of a random UUID: hexadecimal digits with
/// hyphens between groups of them.
pub open spec fn is_token(text: Seq<char>) -> bool {
    &&& text.len() == 36
    &&& text[14] == '4'
    &&& text[19] == '8' || text[19] == '9' || text[19] == 'a' || text[19] == 'b'
    &&& forall|i: int|
        0 <= i < 36 ==> if i == 8 || i == 13 || i == 18 || i == 23 {
            #[trigger] text[i] == '-'
        } else {
            is_low_hex(text[i])
        }
}

/// `uuid::Uuid::new_v4` as text: random, of the form that version 4 of the
/// standard gives. Which text it is, nothing says.
#[verifier::external_body]
pub(crate) fn fresh_token() -> (token: String)
    ensures
        is_token(token@),
{
    uuid::Uuid::new_v4().to_string()
}

// ---------------------------------------------------------------------------
// Clean-up
// ---------------------------------------------------------------------------

/// The addresses without the white space around them, blank ones left out.
pub open spec fn clean_urls(urls: Seq<Seq<char>>) -> Seq<Seq<char>>
    decreases urls.len(),
{
    if urls.len() == 0 {
        Seq::empty()
    } else {
        let earlier = clean_urls(urls.drop_last());
        let url = text::trimmed(urls.last());
        if url.len() == 0 {
            earlier
        } else {
            earlier.push(url)
        }
    }
}

/// The addresses without the white space around them, blank ones left out.
pub fn sanitize_subscription_urls(urls: Vec<String>) -> (result: Vec<String>)
    ensures
        items::views(result@) == clean_urls(items::views(urls@)),
{
    let ghost all = items::views(urls@);
    let mut result: Vec<String> = Vec::new();
    let mut i: usize = 0;
    assert(items::views(result@) =~= clean_urls(all.take(0)));
    while i < urls.len()
        invariant
            i <= urls@.len(),
            all == items::views(urls@),
            items::views(result@) == clean_urls(all.take(i as int)),
        decreases urls@.len() - i,
    {
        let ghost seen = all.take(i + 1);
        let ghost before = result@;
        assert(seen.drop_last() =~= all.take(i as int));
        assert(seen.last() == urls@[i as int]@);
        let url = text::trim(urls[i].as_str());
        if !url.as_str().is_empty() {
            result.push(url);
            assert(items::views(result@) =~= items::views(before).push(url@));
        }
        i = i + 1;
    }
    assert(all.take(i as int) =~= all);
    result
}

/// A modem without white space around its tag and its interface.
pub open spec fn clean_modem(modem: ModemView) -> ModemView {
    ModemView {
        modem_tag: text::trimmed(modem.modem_tag),
        modem_interface: text::trimmed(modem.modem_interface),
    }
}

/// Modems without white space around their tags and interfaces.
pub open spec fn clean_modems(modems: Seq<ModemView>) -> Seq<ModemView> {
    modems.map_values(|modem: ModemView| clean_modem(modem))
}

/// Modems without white space around their tags and interfaces.
fn sanitize_modems(modems: &Vec<ModemConfig>) -> (result: Vec<ModemConfig>)
    ensures
        items::views(result@) == clean_modems(items::views(modems@)),
{
    let mut result: Vec<ModemConfig> = Vec::new();
    let mut i: usize = 0;
    while i < modems.len()
        invariant
            i <= modems@.len(),
            result@.len() == i,
            forall|j: int|
                0 <= j < i ==> (#[trigger] result@[j])@ == clean_modem(modems@[j]@),
        decreases modems@.len() - i,
    {
        result.push(
            ModemConfig {
                modem_tag: text::trim(modems[i].modem_tag.as_str()),
                modem_interface: text::trim(modems[i].modem_interface.as_str()),
            },
        );
        i = i + 1;
    }
    assert(items::views(result@) =~= clean_modems(items::views(modems@)));
    result
}

/// The settings without white space around addresses, tags and interfaces, and
/// without blank addresses of subscriptions.
pub open spec fn clean_config(config: ConfigView) -> ConfigView {
    ConfigView {
        white_url: text::trimmed(config.white_url),
        gray_url: text::trimmed(config.gray_url),
        subscription_urls: clean_urls(config.subscription_urls),
        modems: clean_modems(config.modems),
        ..config
    }
}

// ---------------------------------------------------------------------------
// Validity
// ---------------------------------------------------------------------------

/// Whether the parts of a URL include a scheme and a host; `field` names the
/// setting in the message.
pub open spec fn url_verdict(parts: Option<UrlParts>, field: Seq<char>) -> Result<(), Seq<char>> {
    match parts {
        None => Err(field + " must be a valid URL"@),
        Some(parts) => if parts.scheme.len() == 0 || parts.host is None {
            Err(field + " must include scheme and host"@)
        } else {
            Ok(())
        },
    }
}

/// Whether the parts of a URL include a scheme and a host.
pub fn validate_url_parts(parts: &Option<UrlText>, field: &str) -> (result: Result<(), Failure>)
    ensures
        failure::refusal(result) == url_verdict(codec::parts_view(*parts), field@),
{
    match parts {
        None => {
            let mut message = field.to_string();
            message.append(" must be a valid URL");
            Err(Failure::new(message))
        },
        Some(parts) => {
            if parts.scheme.as_str().is_empty() || parts.host.is_none() {
                let mut message = field.to_string();
                message.append(" must include scheme and host");
                Err(Failure::new(message))
            } else {
                Ok(())
            }
        },
    }
}

/// Whether a setting is a URL with a scheme and a host.
pub fn validate_url(value: &str, field: &str) -> (result: Result<(), Failure>)
    ensures
        failure::refusal(result) == url_verdict(codec::url_parts(value@), field@),
{
    let parts = codec::parse_url(value);
    validate_url_parts(&parts, field)
}

/// The characters that tags are made of.
pub open spec fn is_tag_char(ch: char) -> bool {
    ||| 'a' <= ch <= 'z'
    ||| 'A' <= ch <= 'Z'
    ||| '0' <= ch <= '9'
    ||| ch == '_'
    ||| ch == '-'
}

/// Whether a text is made of the characters that tags are made of.
pub open spec fn is_tag_text(text: Seq<char>) -> bool {
    forall|i: int| 0 <= i < text.len() ==> is_tag_char(#[trigger] text[i])
}

/// Whether a text is made of the characters that tags are made of.
fn has_tag_chars(tag: &str) -> (result: bool)
    ensures
        result == is_tag_text(tag@),
{
    let chars = text::chars_of(tag);
    let mut i: usize = 0;
    while i < chars.len()
        invariant
            i <= chars@.len(),
            chars@ == tag@,
            forall|j: int| 0 <= j < i ==> is_tag_char(#[trigger] tag@[j]),
        decreases chars@.len() - i,
    {
        let ch = chars[i];
        if !(('a' <= ch && ch <= 'z') || ('A' <= ch && ch <= 'Z') || ('0' <= ch && ch <= '9') || ch
            == '_' || ch == '-') {
            assert(!is_tag_char(tag@[i as int]));
            return false;
        }
        i = i + 1;
    }
    true
}

/// Whether some modem has a tag.
pub open spec fn has_tag(modems: Seq<ModemView>, tag: Seq<char>) -> bool {
    exists|i: int| 0 <= i < modems.len() && (#[trigger] modems[i]).modem_tag == tag
}

/// Whether some modem has a tag.
pub fn is_configured(modems: &Vec<ModemConfig>, tag: &str) -> (found: bool)
    ensures
        found == has_tag(items::views(modems@), tag@),
{
    let ghost all = items::views(modems@);
    let mut i: usize = 0;
    while i < modems.len()
        invariant
            i <= modems@.len(),
            all == items::views(modems@),
            forall|j: int| 0 <= j < i ==> (#[trigger] all[j]).modem_tag != tag@,
        decreases modems@.len() - i,
    {
        assert(all[i as int] == modems@[i as int]@);
        if text::same_text(modems[i].modem_tag.as_str(), tag) {
            return true;
        }
        i = i + 1;
    }
    false
}

/// Whether a modem can stand behind `earlier` ones: it has a tag of the right
/// characters that no earlier one has, and an interface.
pub open spec fn modem_verdict(earlier: Seq<ModemView>, modem: ModemView) -> Result<
    (),
    Seq<char>,
> {
    if modem.modem_tag.len() == 0 {
        Err("modem_tag must not be empty"@)
    } else if !is_tag_text(modem.modem_tag) {
        Err("modem_tag "@ + modem.modem_tag + " contains unsupported characters"@)
    } else if has_tag(earlier, modem.modem_tag) {
        Err("duplicate modem_tag "@ + modem.modem_tag)
    } else if modem.modem_interface.len() == 0 {
        Err("modem_interface for "@ + modem.modem_tag + " must not be empty"@)
    } else {
        Ok(())
    }
}

/// The verdict on the first modem that cannot stand behind those before it.
pub open spec fn each_modem_verdict(modems: Seq<ModemView>) -> Result<(), Seq<char>>
    decreases modems.len(),
{
    if modems.len() == 0 {
        Ok(())
    } else {
        match each_modem_verdict(modems.drop_last()) {
            Err(message) => Err(message),
            Ok(_) => modem_verdict(modems.drop_last(), modems.last()),
        }
    }
}

/// Whether modems are valid: there is one, and each can stand behind those
/// before it.
pub open spec fn modems_verdict(modems: Seq<ModemView>) -> Result<(), Seq<char>> {
    if modems.len() == 0 {
        Err("at least one modem must be configured"@)
    } else {
        each_modem_verdict(modems)
    }
}

/// Whether a modem can stand behind the first `count` ones.
fn validate_modem(modems: &Vec<ModemConfig>, count: usize) -> (result: Result<(), Failure>)
    requires
        count < modems@.len(),
    ensures
        failure::refusal(result) == modem_verdict(
            items::views(modems@).take(count as int),
            modems@[count as int]@,
        ),
{
    let ghost earlier = items::views(modems@).take(count as int);
    let modem = &modems[count];
    let tag = modem.modem_tag.as_str();
    if tag.is_empty() {
        return Err(Failure::of("modem_tag must not be empty"));
    }
    if !has_tag_chars(tag) {
        let mut message = "modem_tag ".to_string();
        message.append(tag);
        message.append(" contains unsupported characters");
        return Err(Failure::new(message));
    }
    let mut i: usize = 0;
    while i < count
        invariant
            i <= count < modems@.len(),
            earlier == items::views(modems@).take(count as int),
            modem.modem_tag@.len() > 0,
            is_tag_text(modem.modem_tag@),
            tag@ == modem.modem_tag@,
            *modem == modems@[count as int],
            forall|j: int| 0 <= j < i ==> (#[trigger] earlier[j]).modem_tag != tag@,
        decreases count - i,
    {
        assert(earlier[i as int] == modems@[i as int]@);
        if text::same_text(modems[i].modem_tag.as_str(), tag) {
            let mut message = "duplicate modem_tag ".to_string();
            message.append(tag);
            return Err(Failure::new(message));
        }
        i = i + 1;
    }
    if modem.modem_interface.as_str().is_empty() {
        let mut message = "modem_interface for ".to_string();
        message.append(tag);
        message.append(" must not be empty");
        return Err(Failure::new(message));
    }
    Ok(())
}

/// Whether modems are valid.
pub fn validate_modems(modems: &Vec<ModemConfig>) -> (result: Result<(), Failure>)
    ensures
        failure::refusal(result) == modems_verdict(items::views(modems@)),
{
    let ghost all = items::views(modems@);
    if modems.len() == 0 {
        return Err(Failure::of("at least one modem must be configured"));
    }
    let mut i: usize = 0;
    assert(all.take(0) =~= Seq::empty());
    while i < modems.len()
        invariant
            i <= modems@.len(),
            modems@.len() > 0,
            all == items::views(modems@),
            each_modem_verdict(all.take(i as int)) is Ok,
        decreases modems@.len() - i,
    {
        let ghost seen = all.take(i + 1);
        assert(seen.drop_last() =~= all.take(i as int));
        assert(seen.last() == modems@[i as int]@);
        match validate_modem(modems, i) {
            Ok(_) => {},
            Err(failure) => {
                proof {
                    lemma_verdict_stays(all, i + 1);
                }
                return Err(failure);
            },
        }
        i = i + 1;
    }
    assert(all.take(i as int) =~= all);
    Ok(())
}

/// What is wrong with the first modems is wrong with all of them.
proof fn lemma_verdict_stays(modems: Seq<ModemView>, count: int)
    requires
        0 <= count <= modems.len(),
        each_modem_verdict(modems.take(count)) is Err,
    ensures
        each_modem_verdict(modems) == each_modem_verdict(modems.take(count)),
    decreases modems.len(),
{
    if count == modems.len() {
        assert(modems.take(count) =~= modems);
    } else {
        assert(modems.drop_last().take(count) =~= modems.take(count));
        lemma_verdict_stays(modems.drop_last(), count);
    }
}

/// Whether the numbers among the settings are valid.
pub open spec fn numbers_verdict(config: ConfigView) -> Result<(), Seq<char>> {
    if config.schema_version != APP_CONFIG_SCHEMA_VERSION {
        Err(
            "unsupported config schema_version "@ + text::decimal(config.schema_version as nat)
                + ", expected "@ + text::decimal(APP_CONFIG_SCHEMA_VERSION as nat),
        )
    } else if config.update_interval_minutes == 0 {
        Err("update_interval_minutes must be greater than zero"@)
    } else if config.network_check_interval_minutes == 0 {
        Err("network_check_interval_minutes must be greater than zero"@)
    } else if config.network_check_interval_minutes >= config.update_interval_minutes {
        Err("network_check_interval_minutes must be less than update_interval_minutes"@)
    } else if config.ping_timeout_ms == 0 {
        Err("ping_timeout_ms must be greater than zero"@)
    } else if config.max_concurrent_pings == 0 {
        Err("max_concurrent_pings must be greater than zero"@)
    } else if config.max_concurrent_tunnels == 0 {
        Err("max_concurrent_tunnels must be greater than zero"@)
    } else {
        Ok(())
    }
}

/// Whether settings are valid, given the parts of their two addresses; the
/// message is that of the first setting that is not.
pub open spec fn config_verdict(
    config: ConfigView,
    white: Option<UrlParts>,
    gray: Option<UrlParts>,
) -> Result<(), Seq<char>> {
    match numbers_verdict(config) {
        Err(message) => Err(message),
        Ok(_) => match url_verdict(white, "white_url"@) {
            Err(message) => Err(message),
            Ok(_) => match url_verdict(gray, "gray_url"@) {
                Err(message) => Err(message),
                Ok(_) => modems_verdict(config.modems),
            },
        },
    }
}

/// Whether settings are valid.
pub open spec fn verdict(config: ConfigView) -> Result<(), Seq<char>> {
    config_verdict(
        config,
        codec::url_parts(config.white_url),
        codec::url_parts(config.gray_url),
    )
}

impl AppConfig {
    /// The settings to start with, under given tokens.
    pub fn default_with(admin_token: String, subscription_token: String) -> (config: Self)
        ensures
            config@ == default_config(admin_token@, subscription_token@),
    {
        let subscription_urls: Vec<String> = Vec::new();
        let modems = vec![
            ModemConfig {
                modem_tag: "default".to_string(),
                modem_interface: "wwan0".to_string(),
            },
        ];
        assert(items::views(subscription_urls@) =~= Seq::empty());
        assert(items::views(modems@) =~= seq![
            ModemView { modem_tag: "default"@, modem_interface: "wwan0"@ },
        ]);
        AppConfig {
            schema_version: APP_CONFIG_SCHEMA_VERSION,
            web_port: 8080,
            admin_token,
            subscription_token,
            update_interval_minutes: 60,
            ping_timeout_ms: 3000,
            max_concurrent_pings: 100,
            max_concurrent_tunnels: 20,
            network_check_interval_minutes: 10,
            white_url: default_white_url(),
            gray_url: default_gray_url(),
            subscription_urls,
            modems,
        }
    }

    /// The settings to start with, under fresh random tokens.
    pub fn new_default() -> (config: Self)
        ensures
            config@ == default_config(config@.admin_token, config@.subscription_token),
            is_token(config@.admin_token),
            is_token(config@.subscription_token),
    {
        AppConfig::default_with(fresh_token(), fresh_token())
    }

    /// The settings that the web panel shows.
    pub fn public_view(&self) -> (public: PublicConfig)
        ensures
            public@ == (PublicView {
                web_port: self@.web_port,
                subscription_token: self@.subscription_token,
                update_interval_minutes: self@.update_interval_minutes,
                ping_timeout_ms: self@.ping_timeout_ms,
                max_concurrent_pings: self@.max_concurrent_pings,
                max_concurrent_tunnels: self@.max_concurrent_tunnels,
                network_check_interval_minutes: self@.network_check_interval_minutes,
                white_url: self@.white_url,
                gray_url: self@.gray_url,
                subscription_urls: self@.subscription_urls,
                modems: self@.modems,
            }),
    {
        PublicConfig {
            web_port: self.web_port,
            subscription_token: self.subscription_token.clone(),
            update_interval_minutes: self.update_interval_minutes,
            ping_timeout_ms: self.ping_timeout_ms,
            max_concurrent_pings: self.max_concurrent_pings,
            max_concurrent_tunnels: self.max_concurrent_tunnels,
            network_check_interval_minutes: self.network_check_interval_minutes,
            white_url: self.white_url.clone(),
            gray_url: self.gray_url.clone(),
            subscription_urls: items::duplicate_all(&self.subscription_urls),
            modems: items::duplicate_all(&self.modems),
        }
    }

    /// The settings, cleaned up.
    pub fn sanitized(self) -> (config: Self)
        ensures
            config@ == clean_config(self@),
    {
        let mut config = self;
        config.sanitize();
        config
    }

    /// Cleans the settings up.
    pub fn sanitize(&mut self)
        ensures
            final(self)@ == clean_config(old(self)@),
    {
        self.white_url = text::trim(self.white_url.as_str());
        self.gray_url = text::trim(self.gray_url.as_str());
        let urls = items::duplicate_all(&self.subscription_urls);
        self.subscription_urls = sanitize_subscription_urls(urls);
        self.modems = sanitize_modems(&self.modems);
    }

    /// Whether the numbers among the settings are valid.
    fn validate_numbers(&self) -> (result: Result<(), Failure>)
        ensures
            failure::refusal(result) == numbers_verdict(self@),
    {
        if self.schema_version != APP_CONFIG_SCHEMA_VERSION {
            let mut message = "unsupported config schema_version ".to_string();
            message.append(text::decimal_text(self.schema_version as u64).as_str());
            message.append(", expected ");
            message.append(text::decimal_text(APP_CONFIG_SCHEMA_VERSION as u64).as_str());
            return Err(Failure::new(message));
        }
        if self.update_interval_minutes == 0 {
            return Err(Failure::of("update_interval_minutes must be greater than zero"));
        }
        if self.network_check_interval_minutes == 0 {
            return Err(Failure::of("network_check_interval_minutes must be greater than zero"));
        }
        if self.network_check_interval_minutes >= self.update_interval_minutes {
            return Err(
                Failure::of(
                    "network_check_interval_minutes must be less than update_interval_minutes",
                ),
            );
        }
        if self.ping_timeout_ms == 0 {
            return Err(Failure::of("ping_timeout_ms must be greater than zero"));
        }
        if self.max_concurrent_pings == 0 {
            return Err(Failure::of("max_concurrent_pings must be greater than zero"));
        }
        if self.max_concurrent_tunnels == 0 {
            return Err(Failure::of("max_concurrent_tunnels must be greater than zero"));
        }
        Ok(())
    }

    /// Whether the settings are valid, given the parts of their two addresses.
    pub fn validate_with(&self, white: &Option<UrlText>, gray: &Option<UrlText>) -> (result: Result<
        (),
        Failure,
    >)
        ensures
            failure::refusal(result) == config_verdict(self@, codec::parts_view(*white), codec::parts_view(*gray)),
    {
        match self.validate_numbers() {
            Ok(_) => {},
            Err(failure) => {
                return Err(failure);
            },
        }
        match validate_url_parts(white, "white_url") {
            Ok(_) => {},
            Err(failure) => {
                return Err(failure);
            },
        }
        match validate_url_parts(gray, "gray_url") {
            Ok(_) => {},
            Err(failure) => {
                return Err(failure);
            },
        }
        validate_modems(&self.modems)
    }

    /// Whether the settings are valid.
    pub fn validate(&self) -> (result: Result<(), Failure>)
        ensures
            failure::refusal(result) == verdict(self@),
    {
        let white = codec::parse_url(self.white_url.as_str());
        let gray = codec::parse_url(self.gray_url.as_str());
        self.validate_with(&white, &gray)
    }
}

/// The settings that a request asks for: what it does not name stays, and all
/// is cleaned up.
pub open spec fn requested_config(request: RequestView, current: ConfigView) -> ConfigView {
    clean_config(
        ConfigView {
            schema_version: APP_CONFIG_SCHEMA_VERSION,
            web_port: current.web_port,
            admin_token: current.admin_token,
            subscription_token: current.subscription_token,
            update_interval_minutes: request.update_interval_minutes,
            ping_timeout_ms: request.ping_timeout_ms,
            max_concurrent_pings: request.max_concurrent_pings,
            max_concurrent_tunnels: request.max_concurrent_tunnels,
            network_check_interval_minutes: request.network_check_interval_minutes,
            white_url: request.white_url,
            gray_url: request.gray_url,
            subscription_urls: request.subscription_urls,
            modems: request.modems,
        },
    )
}

impl UpdateConfigRequest {
    /// The settings that the request asks for.
    pub fn into_config(self, current: &AppConfig) -> (config: AppConfig)
        ensures
            config@ == requested_config(self@, current@),
    {
        let config = AppConfig {
            schema_version: APP_CONFIG_SCHEMA_VERSION,
            web_port: current.web_port,
            admin_token: current.admin_token.clone(),
            subscription_token: current.subscription_token.clone(),
            update_interval_minutes: self.update_interval_minutes,
            ping_timeout_ms: self.ping_timeout_ms,
            max_concurrent_pings: self.max_concurrent_pings,
            max_concurrent_tunnels: self.max_concurrent_tunnels,
            network_check_interval_minutes: self.network_check_interval_minutes,
            white_url: self.white_url,
            gray_url: self.gray_url,
            subscription_urls: self.subscription_urls,
            modems: self.modems,
        };
        config.sanitized()
    }
}

/// Settings that were read from a file: cleaned up, and refused where they are
/// not valid.
pub open spec fn accepted(config: ConfigView) -> Result<ConfigView, Seq<char>> {
    match verdict(clean_config(config)) {
        Ok(_) => Ok(clean_config(config)),
        Err(message) => Err(message),
    }
}

/// Settings that were read from a file, cleaned up and valid.
pub fn accept_config(config: AppConfig) -> (result: Result<AppConfig, Failure>)
    ensures
        failure::outcome(result) == accepted(config@),
{
    let config = config.sanitized();
    match config.validate() {
        Ok(_) => Ok(config),
        Err(failure) => Err(failure),
    }
}

// ---------------------------------------------------------------------------
// Laws
// ---------------------------------------------------------------------------

/// Addresses that are clean stay as they are.
proof fn lemma_clean_urls_idempotent(urls: Seq<Seq<char>>)
    ensures
        clean_urls(clean_urls(urls)) == clean_urls(urls),
    decreases urls.len(),
{
    if urls.len() > 0 {
        let earlier = clean_urls(urls.drop_last());
        let url = text::trimmed(urls.last());
        lemma_clean_urls_idempotent(urls.drop_last());
        text::law_trim_idempotent(urls.last());
        if url.len() > 0 {
            assert(earlier.push(url).drop_last() =~= earlier);
        }
    }
}

/// Cleaning settings up twice is cleaning them up once.
pub proof fn law_clean_up_idempotent(config: ConfigView)
    ensures
        clean_config(clean_config(config)) == clean_config(config),
{
    text::law_trim_idempotent(config.white_url);
    text::law_trim_idempotent(config.gray_url);
    lemma_clean_urls_idempotent(config.subscription_urls);
    let modems = clean_modems(config.modems);
    assert forall|i: int| 0 <= i < modems.len() implies clean_modem(#[trigger] modems[i])
        == modems[i] by {
        text::law_trim_idempotent(config.modems[i].modem_tag);
        text::law_trim_idempotent(config.modems[i].modem_interface);
    }
    assert(clean_modems(modems) =~= modems);
}

/// In valid modems no tag occurs twice, and every tag and interface is there.
pub proof fn law_valid_modems_are_distinct(modems: Seq<ModemView>)
    requires
        modems_verdict(modems) is Ok,
    ensures
        modems.len() > 0,
        forall|i: int, j: int|
            0 <= i < j < modems.len() ==> (#[trigger] modems[i]).modem_tag != (
            #[trigger] modems[j]).modem_tag,
        forall|i: int|
            0 <= i < modems.len() ==> (#[trigger] modems[i]).modem_tag.len() > 0 && is_tag_text(
                modems[i].modem_tag,
            ) && modems[i].modem_interface.len() > 0,
{
    lemma_each_distinct(modems);
}

/// The verdict on each modem holds for all of them.
proof fn lemma_each_distinct(modems: Seq<ModemView>)
    requires
        each_modem_verdict(modems) is Ok,
    ensures
        forall|i: int, j: int|
            0 <= i < j < modems.len() ==> (#[trigger] modems[i]).modem_tag != (
            #[trigger] modems[j]).modem_tag,
        forall|i: int|
            0 <= i < modems.len() ==> (#[trigger] modems[i]).modem_tag.len() > 0 && is_tag_text(
                modems[i].modem_tag,
            ) && modems[i].modem_interface.len() > 0,
    decreases modems.len(),
{
    if modems.len() > 0 {
        let earlier = modems.drop_last();
        lemma_each_distinct(earlier);
        assert forall|i: int, j: int| 0 <= i < j < modems.len() implies (
        #[trigger] modems[i]).modem_tag != (#[trigger] modems[j]).modem_tag by {
            assert(earlier[i] == modems[i]);
            if j < earlier.len() {
                assert(earlier[j] == modems[j]);
            } else {
                assert(!has_tag(earlier, modems.last().modem_tag));
            }
        }
        assert forall|i: int| 0 <= i < modems.len() implies (
        #[trigger] modems[i]).modem_tag.len() > 0 && is_tag_text(modems[i].modem_tag)
            && modems[i].modem_interface.len() > 0 by {
            if i < earlier.len() {
                assert(earlier[i] == modems[i]);
            }
        }
    }
}

/// The settings to start with are valid if their two addresses are.
pub proof fn law_default_is_valid(
    admin_token: Seq<char>,
    subscription_token: Seq<char>,
    white: Option<UrlParts>,
    gray: Option<UrlParts>,
)
    requires
        url_verdict(white, "white_url"@) is Ok,
        url_verdict(gray, "gray_url"@) is Ok,
    ensures
        config_verdict(default_config(admin_token, subscription_token), white, gray) is Ok,
{
    reveal_strlit("default");
    reveal_strlit("wwan0");
    let modems = default_config(admin_token, subscription_token).modems;
    assert(modems.drop_last() =~= Seq::empty());
    assert(each_modem_verdict(modems.drop_last()) is Ok);
    assert(modems.last() == modems[0]);
}

/// A request changes neither the port nor the tokens.
pub proof fn law_request_keeps_access(request: RequestView, current: ConfigView)
    ensures
        requested_config(request, current).web_port == current.web_port,
        requested_config(request, current).admin_token == current.admin_token,
        requested_config(request, current).subscription_token == current.subscription_token,
{
}

} // verus!
