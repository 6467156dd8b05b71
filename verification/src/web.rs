//! What the web panel and the subscription address answer.

use vstd::prelude::*;
use vstd::string::*;
use vstd::utf8::*;

use crate::cache::{EntryView, SubscriptionCache};
use crate::codec;
use crate::config;
use crate::config::{AppConfig, ConfigView, ModemConfig, ModemView, RequestView, UpdateConfigRequest};
use crate::encoder;
use crate::failure;
use crate::failure::Failure;
use crate::items;
use crate::node::{Node, NodeView};
use crate::strmap;
use crate::text;

verus! {

// ---------------------------------------------------------------------------
// Who may do what
// ---------------------------------------------------------------------------

/// The token in an `Authorization` header.
pub open spec fn bearer_token(header: Option<Seq<char>>) -> Option<Seq<char>> {
    match header {
        Some(header) => text::after_prefix(header, "Bearer "@),
        None => None,
    }
}

/// The token in an `Authorization` header.
pub fn extract_bearer_token(header: Option<&str>) -> (token: Option<String>)
    ensures
        text::text_view(token) == bearer_token(text::slice_view(header)),
{
    match header {
        Some(header) => text::strip_prefix(header, "Bearer "),
        None => None,
    }
}

/// The token in the first of the parts that gives one.
pub open spec fn token_in_parts(parts: Seq<Seq<char>>) -> Option<Seq<char>>
    decreases parts.len(),
{
    if parts.len() == 0 {
        None
    } else {
        match text::after_prefix(text::trimmed(parts[0]), "auth_token="@) {
            Some(token) => Some(token),
            None => token_in_parts(parts.skip(1)),
        }
    }
}

/// The token in a `Cookie` header.
pub open spec fn cookie_token(header: Option<Seq<char>>) -> Option<Seq<char>> {
    match header {
        Some(header) => token_in_parts(text::pieces(header, ';')),
        None => None,
    }
}

/// The token in a `Cookie` header.
pub fn extract_cookie_token(header: Option<&str>) -> (token: Option<String>)
    ensures
        text::text_view(token) == cookie_token(text::slice_view(header)),
{
    let value = match header {
        Some(value) => value,
        None => {
            return None;
        },
    };
    let parts = text::split(value, ';');
    let ghost all = text::pieces(value@, ';');
    assert(all == items::views(parts@));
    let mut i: usize = 0;
    assert(all.skip(0) =~= all);
    while i < parts.len()
        invariant
            i <= parts@.len(),
            all == items::views(parts@),
            cookie_token(text::slice_view(header)) == token_in_parts(all.skip(i as int)),
        decreases parts@.len() - i,
    {
        let ghost rest = all.skip(i as int);
        assert(rest[0] == parts@[i as int]@);
        let part = text::trim(parts[i].as_str());
        let token = text::strip_prefix(part.as_str(), "auth_token=");
        if token.is_some() {
            return token;
        }
        assert(rest.skip(1) =~= all.skip(i + 1));
        i = i + 1;
    }
    None
}

/// The token that a request brings: that of `Authorization`, or else that of
/// `Cookie`.
pub open spec fn request_token(
    authorization: Option<Seq<char>>,
    cookie: Option<Seq<char>>,
) -> Option<Seq<char>> {
    match bearer_token(authorization) {
        Some(token) => Some(token),
        None => cookie_token(cookie),
    }
}

/// Whether a request may use the web panel: it brings the token of the panel.
pub open spec fn admits(
    config: ConfigView,
    authorization: Option<Seq<char>>,
    cookie: Option<Seq<char>>,
) -> bool {
    request_token(authorization, cookie) == Some(config.admin_token)
}

/// Whether a request may use the web panel: it brings the token of the panel.
pub fn is_admin(config: &AppConfig, authorization: Option<&str>, cookie: Option<&str>) -> (admin:
    bool)
    ensures
        admin == admits(config@, text::slice_view(authorization), text::slice_view(cookie)),
{
    let token = match extract_bearer_token(authorization) {
        Some(token) => Some(token),
        None => extract_cookie_token(cookie),
    };
    match token {
        Some(token) => text::same_text(token.as_str(), config.admin_token.as_str()),
        None => false,
    }
}

/// The cookie that a token is kept in.
pub open spec fn session_cookie(token: Seq<char>) -> Seq<char> {
    "auth_token="@ + token + "; Path=/; HttpOnly; SameSite=Strict"@
}

/// The cookie for a login with a token; none where the token is not that of
/// the panel.
pub open spec fn login_cookie(config: ConfigView, token: Seq<char>) -> Option<Seq<char>> {
    if token == config.admin_token {
        Some(session_cookie(config.admin_token))
    } else {
        None
    }
}

/// The cookie for a login with a token; none where the token is not that of
/// the panel.
pub fn login(config: &AppConfig, token: &str) -> (cookie: Option<String>)
    ensures
        text::text_view(cookie) == login_cookie(config@, token@),
{
    if !text::same_text(token, config.admin_token.as_str()) {
        return None;
    }
    let mut cookie = "auth_token=".to_string();
    cookie.append(config.admin_token.as_str());
    cookie.append("; Path=/; HttpOnly; SameSite=Strict");
    Some(cookie)
}

// ---------------------------------------------------------------------------
// New settings
// ---------------------------------------------------------------------------

/// Whether two lists of modems are the same.
pub fn same_modems(a: &Vec<ModemConfig>, b: &Vec<ModemConfig>) -> (same: bool)
    ensures
        same == (items::views(a@) == items::views(b@)),
{
    let ghost left = items::views(a@);
    let ghost right = items::views(b@);
    if a.len() != b.len() {
        assert(left.len() != right.len());
        return false;
    }
    let mut i: usize = 0;
    while i < a.len()
        invariant
            i <= a@.len(),
            a@.len() == b@.len(),
            left == items::views(a@),
            right == items::views(b@),
            forall|j: int| 0 <= j < i ==> left[j] == right[j],
        decreases a@.len() - i,
    {
        assert(left[i as int] == a@[i as int]@ && right[i as int] == b@[i as int]@);
        if !text::same_text(a[i].modem_tag.as_str(), b[i].modem_tag.as_str()) || !text::same_text(
            a[i].modem_interface.as_str(),
            b[i].modem_interface.as_str(),
        ) {
            assert(left[i as int] != right[i as int]);
            return false;
        }
        i = i + 1;
    }
    assert(left =~= right);
    true
}

/// Whether two lists of texts are the same.
pub fn same_texts(a: &Vec<String>, b: &Vec<String>) -> (same: bool)
    ensures
        same == (items::views(a@) == items::views(b@)),
{
    let ghost left = items::views(a@);
    let ghost right = items::views(b@);
    if a.len() != b.len() {
        assert(left.len() != right.len());
        return false;
    }
    let mut i: usize = 0;
    while i < a.len()
        invariant
            i <= a@.len(),
            a@.len() == b@.len(),
            left == items::views(a@),
            right == items::views(b@),
            forall|j: int| 0 <= j < i ==> left[j] == right[j],
        decreases a@.len() - i,
    {
        assert(left[i as int] == a@[i as int]@ && right[i as int] == b@[i as int]@);
        if !text::same_text(a[i].as_str(), b[i].as_str()) {
            return false;
        }
        i = i + 1;
    }
    assert(left =~= right);
    true
}

/// Whether new settings ask for a check of the modems at once.
pub open spec fn needs_check(current: ConfigView, next: ConfigView) -> bool {
    ||| current.modems != next.modems
    ||| current.white_url != next.white_url
    ||| current.gray_url != next.gray_url
    ||| current.network_check_interval_minutes != next.network_check_interval_minutes
}

/// Whether new settings ask for an update at once.
pub open spec fn needs_update(current: ConfigView, next: ConfigView) -> bool {
    ||| needs_check(current, next)
    ||| current.subscription_urls != next.subscription_urls
    ||| current.ping_timeout_ms != next.ping_timeout_ms
    ||| current.max_concurrent_pings != next.max_concurrent_pings
    ||| current.max_concurrent_tunnels != next.max_concurrent_tunnels
}

/// New settings, and what they ask for at once.
#[derive(Debug)]
pub struct ConfigChange {
    pub config: AppConfig,
    pub should_refresh: bool,
    pub should_check_health: bool,
}

/// The mathematical form of new settings and what they ask for.
pub struct ChangeView {
    pub config: ConfigView,
    pub should_refresh: bool,
    pub should_check_health: bool,
}

impl View for ConfigChange {
    type V = ChangeView;

    open spec fn view(&self) -> ChangeView {
        ChangeView {
            config: self.config@,
            should_refresh: self.should_refresh,
            should_check_health: self.should_check_health,
        }
    }
}

/// What becomes of a request for new settings: they are refused where they are
/// not valid.
pub open spec fn change_of(request: RequestView, current: ConfigView) -> Result<
    ChangeView,
    Seq<char>,
> {
    let next = config::requested_config(request, current);
    match config::verdict(next) {
        Err(message) => Err(message),
        Ok(_) => Ok(
            ChangeView {
                config: next,
                should_refresh: needs_update(current, next),
                should_check_health: needs_check(current, next),
            },
        ),
    }
}

/// Whether new settings ask for a check of the modems, and for an update.
pub fn compare_configs(current: &AppConfig, next: &AppConfig) -> (needs: (bool, bool))
    ensures
        needs.0 == needs_check(current@, next@),
        needs.1 == needs_update(current@, next@),
{
    let check = !same_modems(&current.modems, &next.modems) || !text::same_text(
        current.white_url.as_str(),
        next.white_url.as_str(),
    ) || !text::same_text(current.gray_url.as_str(), next.gray_url.as_str())
        || current.network_check_interval_minutes != next.network_check_interval_minutes;
    let update = check || !same_texts(&current.subscription_urls, &next.subscription_urls)
        || current.ping_timeout_ms != next.ping_timeout_ms || current.max_concurrent_pings
        != next.max_concurrent_pings || current.max_concurrent_tunnels
        != next.max_concurrent_tunnels;
    (check, update)
}

/// What becomes of a request for new settings.
pub fn plan_update(request: UpdateConfigRequest, current: &AppConfig) -> (result: Result<
    ConfigChange,
    Failure,
>)
    ensures
        failure::outcome(result) == change_of(request@, current@),
{
    let config = request.into_config(current);
    match config.validate() {
        Err(failure) => Err(failure),
        Ok(_) => {
            let (should_check_health, should_refresh) = compare_configs(current, &config);
            Ok(ConfigChange { config, should_refresh, should_check_health })
        },
    }
}

// ---------------------------------------------------------------------------
// Subscriptions
// ---------------------------------------------------------------------------

/// A number of nodes at most.
pub open spec fn at_most(nodes: Seq<NodeView>, limit: Option<usize>) -> Seq<NodeView> {
    match limit {
        Some(limit) => if limit < nodes.len() {
            nodes.take(limit as int)
        } else {
            nodes
        },
        None => nodes,
    }
}

/// A number of nodes at most.
pub fn limited_nodes(nodes: Vec<Node>, limit: Option<usize>) -> (result: Vec<Node>)
    ensures
        items::views(result@) == at_most(items::views(nodes@), limit),
{
    let mut nodes = nodes;
    let ghost all = items::views(nodes@);
    match limit {
        Some(limit) => {
            if limit < nodes.len() {
                nodes.truncate(limit);
                assert(items::views(nodes@) =~= all.take(limit as int));
            }
        },
        None => {},
    }
    nodes
}

/// The lists one behind the other, of each so many nodes at most.
pub open spec fn in_turn(lists: Seq<Seq<NodeView>>, limit: Option<usize>) -> Seq<NodeView>
    decreases lists.len(),
{
    if lists.len() == 0 {
        Seq::empty()
    } else {
        in_turn(lists.drop_last(), limit) + at_most(lists.last(), limit)
    }
}

/// `limit` divided by `count`, rounded up.
pub open spec fn share(limit: usize, count: nat) -> nat {
    if limit as nat % count == 0 {
        limit as nat / count
    } else {
        limit as nat / count + 1
    }
}

/// The nodes of several modems as one list: where there is a limit, each modem
/// gives its share of it, and the whole is no longer than it.
pub open spec fn combined(lists: Seq<Seq<NodeView>>, limit: Option<usize>) -> Seq<NodeView> {
    match limit {
        None => in_turn(lists, None),
        Some(most) => if most == 0 || lists.len() == 0 {
            Seq::empty()
        } else {
            at_most(in_turn(lists, Some(share(most, lists.len()) as usize)), limit)
        },
    }
}

/// The views of lists of nodes.
pub open spec fn list_views(lists: Seq<&Vec<Node>>) -> Seq<Seq<NodeView>> {
    lists.map_values(|list: &Vec<Node>| items::views(list@))
}

/// Copies of the first nodes of a list.
fn copy_first(nodes: &Vec<Node>, limit: Option<usize>) -> (copies: Vec<Node>)
    ensures
        items::views(copies@) == at_most(items::views(nodes@), limit),
{
    let all = items::duplicate_all(nodes);
    limited_nodes(all, limit)
}

/// The lists one behind the other, of each so many nodes at most.
fn copy_in_turn(lists: &Vec<&Vec<Node>>, limit: Option<usize>) -> (nodes: Vec<Node>)
    ensures
        items::views(nodes@) == in_turn(list_views(lists@), limit),
{
    let ghost all = list_views(lists@);
    let mut nodes: Vec<Node> = Vec::new();
    let mut i: usize = 0;
    assert(items::views(nodes@) =~= in_turn(all.take(0), limit));
    while i < lists.len()
        invariant
            i <= lists@.len(),
            all == list_views(lists@),
            items::views(nodes@) == in_turn(all.take(i as int), limit),
        decreases lists@.len() - i,
    {
        let ghost before = nodes@;
        assert(all.take(i + 1).drop_last() =~= all.take(i as int));
        assert(all.take(i + 1).last() == items::views(lists@[i as int]@));
        let mut more = copy_first(lists[i], limit);
        let ghost added = more@;
        nodes.append(&mut more);
        assert(items::views(nodes@) =~= items::views(before) + items::views(added));
        i = i + 1;
    }
    assert(all.take(i as int) =~= all);
    nodes
}

/// The nodes of several modems as one list.
pub fn combine_modem_nodes(modem_nodes: &Vec<&Vec<Node>>, limit: Option<usize>) -> (nodes: Vec<Node>)
    ensures
        items::views(nodes@) == combined(list_views(modem_nodes@), limit),
{
    let most = match limit {
        Some(most) => most,
        None => {
            return copy_in_turn(modem_nodes, None);
        },
    };
    let count = modem_nodes.len();
    if most == 0 || count == 0 {
        let none: Vec<Node> = Vec::new();
        assert(items::views(none@) =~= Seq::empty());
        return none;
    }
    proof {
        lemma_share_fits(most, count as nat);
    }
    let modem_limit: usize = if most % count == 0 {
        most / count
    } else {
        most / count + 1
    };
    limited_nodes(copy_in_turn(modem_nodes, Some(modem_limit)), limit)
}

/// A share is no more than the whole.
proof fn lemma_share_fits(limit: usize, count: nat)
    by (nonlinear_arith)
    requires
        count > 0,
        limit > 0,
    ensures
        limit as nat / count <= limit,
        limit as nat % count != 0 ==> limit as nat / count + 1 <= limit,
        share(limit, count) <= limit,
{
}

/// What is answered to a request for a subscription.
#[derive(Debug)]
pub enum SubscriptionAnswer {
    /// The token is not right.
    Unauthorized,
    /// There is nothing to give yet.
    Unavailable,
    /// There is no such modem, or nothing was found for it.
    NotFound,
    /// The subscription.
    Text(String),
}

/// What is answered to a request for a subscription, before it is encoded.
pub enum AnswerView {
    Unauthorized,
    Unavailable,
    NotFound,
    Nodes(Seq<NodeView>),
}

/// The modem that a request names: what it says, without white space around it,
/// if that is something.
pub open spec fn requested_modem(modem: Option<Seq<char>>) -> Option<Seq<char>> {
    match modem {
        Some(modem) => if text::trimmed(modem).len() == 0 {
            None
        } else {
            Some(text::trimmed(modem))
        },
        None => None,
    }
}

/// The lists of nodes of the modems for which something was found.
pub open spec fn available_lists(
    modems: Seq<ModemView>,
    entries: Map<Seq<char>, EntryView>,
) -> Seq<Seq<NodeView>>
    decreases modems.len(),
{
    if modems.len() == 0 {
        Seq::empty()
    } else {
        let earlier = available_lists(modems.drop_last(), entries);
        match strmap::value_of(entries, modems.last().modem_tag) {
            Some(entry) => earlier.push(entry.nodes),
            None => earlier,
        }
    }
}

/// What is answered to a request for a subscription.
pub open spec fn answer_to(
    config: ConfigView,
    entries: Option<Map<Seq<char>, EntryView>>,
    token: Seq<char>,
    limit: Option<usize>,
    modem: Option<Seq<char>>,
) -> AnswerView {
    if token != config.subscription_token {
        AnswerView::Unauthorized
    } else {
        match entries {
            None => AnswerView::Unavailable,
            Some(entries) => match requested_modem(modem) {
                Some(tag) => if !config::has_tag(config.modems, tag) || !entries.contains_key(tag) {
                    AnswerView::NotFound
                } else {
                    AnswerView::Nodes(at_most(entries[tag].nodes, limit))
                },
                None => if available_lists(config.modems, entries).len() == 0 {
                    AnswerView::Unavailable
                } else {
                    AnswerView::Nodes(combined(available_lists(config.modems, entries), limit))
                },
            },
        }
    }
}

/// The nodes that are answered to a request for a subscription.
#[derive(Debug)]
pub enum SelectedNodes {
    Unauthorized,
    Unavailable,
    NotFound,
    Nodes(Vec<Node>),
}

impl View for SelectedNodes {
    type V = AnswerView;

    open spec fn view(&self) -> AnswerView {
        match *self {
            SelectedNodes::Unauthorized => AnswerView::Unauthorized,
            SelectedNodes::Unavailable => AnswerView::Unavailable,
            SelectedNodes::NotFound => AnswerView::NotFound,
            SelectedNodes::Nodes(nodes) => AnswerView::Nodes(items::views(nodes@)),
        }
    }
}

/// The entries of a cache, where there is one.
pub open spec fn entries_of(cache: Option<SubscriptionCache>) -> Option<Map<Seq<char>, EntryView>> {
    match cache {
        Some(cache) => Some(cache.by_modem@),
        None => None,
    }
}

/// The lists of nodes of the modems for which something was found.
fn find_lists<'a>(modems: &Vec<ModemConfig>, cache: &'a SubscriptionCache) -> (lists: Vec<
    &'a Vec<Node>,
>)
    ensures
        list_views(lists@) == available_lists(items::views(modems@), cache.by_modem@),
{
    let ghost all = items::views(modems@);
    let mut lists: Vec<&'a Vec<Node>> = Vec::new();
    let mut i: usize = 0;
    assert(list_views(lists@) =~= available_lists(all.take(0), cache.by_modem@));
    while i < modems.len()
        invariant
            i <= modems@.len(),
            all == items::views(modems@),
            list_views(lists@) == available_lists(all.take(i as int), cache.by_modem@),
        decreases modems@.len() - i,
    {
        let ghost before = lists@;
        assert(all.take(i + 1).drop_last() =~= all.take(i as int));
        assert(all.take(i + 1).last() == modems@[i as int]@);
        match cache.by_modem.get(modems[i].modem_tag.as_str()) {
            Some(entry) => {
                lists.push(&entry.nodes);
                assert(list_views(lists@) =~= list_views(before).push(
                    items::views(entry.nodes@),
                ));
            },
            None => {},
        }
        i = i + 1;
    }
    assert(all.take(i as int) =~= all);
    lists
}

/// The nodes that are answered to a request for a subscription.
pub fn select_nodes(
    config: &AppConfig,
    cache: &Option<SubscriptionCache>,
    token: &str,
    limit: Option<usize>,
    modem: Option<&str>,
) -> (selected: SelectedNodes)
    ensures
        selected@ == answer_to(
            config@,
            entries_of(*cache),
            token@,
            limit,
            text::slice_view(modem),
        ),
{
    if !text::same_text(token, config.subscription_token.as_str()) {
        return SelectedNodes::Unauthorized;
    }
    let cache = match cache {
        Some(cache) => cache,
        None => {
            return SelectedNodes::Unavailable;
        },
    };
    let named = match modem {
        Some(modem) => {
            let tag = text::trim(modem);
            if tag.as_str().is_empty() {
                None
            } else {
                Some(tag)
            }
        },
        None => None,
    };
    match named {
        Some(tag) => {
            if !config::is_configured(&config.modems, tag.as_str()) {
                return SelectedNodes::NotFound;
            }
            match cache.by_modem.get(tag.as_str()) {
                Some(entry) => SelectedNodes::Nodes(copy_first(&entry.nodes, limit)),
                None => SelectedNodes::NotFound,
            }
        },
        None => {
            let lists = find_lists(&config.modems, cache);
            assert(list_views(lists@).len() == lists@.len());
            if lists.len() == 0 {
                return SelectedNodes::Unavailable;
            }
            SelectedNodes::Nodes(combine_modem_nodes(&lists, limit))
        },
    }
}

/// Whether an answer is the one for selected nodes, their subscription encoded.
pub open spec fn answers(answer: SubscriptionAnswer, selected: AnswerView) -> bool {
    match selected {
        AnswerView::Unauthorized => answer is Unauthorized,
        AnswerView::Unavailable => answer is Unavailable,
        AnswerView::NotFound => answer is NotFound,
        AnswerView::Nodes(nodes) => answer matches SubscriptionAnswer::Text(text) && text@
            == codec::standard_encoded(
            encode_utf8(encoder::published_list(nodes)),
        ),
    }
}

/// What is answered to a request for a subscription.
pub fn get_subscription(
    config: &AppConfig,
    cache: &Option<SubscriptionCache>,
    token: &str,
    limit: Option<usize>,
    modem: Option<&str>,
) -> (answer: SubscriptionAnswer)
    ensures
        answers(
            answer,
            answer_to(
                config@,
                entries_of(*cache),
                token@,
                limit,
                text::slice_view(modem),
            ),
        ),
{
    match select_nodes(config, cache, token, limit, modem) {
        SelectedNodes::Unauthorized => SubscriptionAnswer::Unauthorized,
        SelectedNodes::Unavailable => SubscriptionAnswer::Unavailable,
        SelectedNodes::NotFound => SubscriptionAnswer::NotFound,
        SelectedNodes::Nodes(nodes) => SubscriptionAnswer::Text(
            encoder::encode_subscription(&nodes),
        ),
    }
}

// ---------------------------------------------------------------------------
// Laws
// ---------------------------------------------------------------------------

/// Whoever does not bring the token learns nothing but that.
pub proof fn law_wrong_token_is_refused(
    config: ConfigView,
    entries: Option<Map<Seq<char>, EntryView>>,
    token: Seq<char>,
    limit: Option<usize>,
    modem: Option<Seq<char>>,
)
    requires
        token != config.subscription_token,
    ensures
        answer_to(config, entries, token, limit, modem) == AnswerView::Unauthorized,
{
}

/// Until there is a cache, the right token is told to come back later.
pub proof fn law_no_cache_is_unavailable(
    config: ConfigView,
    limit: Option<usize>,
    modem: Option<Seq<char>>,
)
    ensures
        answer_to(config, None, config.subscription_token, limit, modem)
            == AnswerView::Unavailable,
{
}

/// No answer holds more nodes than it was limited to.
pub proof fn law_limit_is_kept(
    config: ConfigView,
    entries: Option<Map<Seq<char>, EntryView>>,
    token: Seq<char>,
    limit: usize,
    modem: Option<Seq<char>>,
)
    ensures
        answer_to(config, entries, token, Some(limit), modem) matches AnswerView::Nodes(nodes)
            ==> nodes.len() <= limit,
{
}

/// Whoever logs in with the token of the panel is let in by the cookie that
/// this gives, if the token has neither a semicolon nor white space at its end.
pub proof fn law_login_lets_in(token: Seq<char>)
    requires
        !token.contains(';'),
        token.len() > 0 ==> !text::is_space(token.last()),
    ensures
        request_token(None, Some("auth_token="@ + token)) == Some(token),
{
    let cookie = "auth_token="@ + token;
    reveal_strlit("auth_token=");
    assert forall|i: int| 0 <= i < cookie.len() implies cookie[i] != ';' by {
        if i >= "auth_token="@.len() {
            assert(cookie[i] == token[i - "auth_token="@.len()]);
        }
    }
    text::lemma_index_of(cookie, ';');
    assert(text::pieces(cookie, ';') =~= seq![cookie]);
    assert(cookie[0] == 'a');
    assert(token.len() > 0 ==> cookie.last() == token.last());
    assert(text::trimmed(cookie) == cookie);
    assert("auth_token="@.is_prefix_of(cookie));
    assert(cookie.skip("auth_token="@.len() as int) =~= token);
    assert(text::pieces(cookie, ';')[0] == cookie);
}

} // verus!
