//! Requests: who is let in, which nodes a subscription has, and what a change of
//! the settings brings with it.

use vstd::prelude::*;
use vstd::string::*;

use crate::cache::EntryView;
use crate::config;
use crate::config::{ConfigView, ModemView, RequestView};
use crate::node::NodeView;
use crate::roundtrip;
use crate::text;
use crate::web;
use crate::web::AnswerView;

verus! {

// ---------------------------------------------------------------------------
// Limits
// ---------------------------------------------------------------------------

/// The first `count` of some nodes, or all of them where there are no more.
pub open spec fn first_of(nodes: Seq<NodeView>, count: int) -> Seq<NodeView> {
    if count < nodes.len() {
        nodes.take(count)
    } else {
        nodes
    }
}

/// Some of the first nodes, as many as a limit says, and all where there is none.
proof fn lemma_at_most(nodes: Seq<NodeView>, limit: Option<usize>)
    ensures
        web::at_most(nodes, limit) == match limit {
            Some(limit) => first_of(nodes, limit as int),
            None => nodes,
        },
{
}

/// Lists one behind the other.
proof fn lemma_in_turn(lists: Seq<Seq<NodeView>>, limit: Option<usize>)
    ensures
        web::in_turn(lists, limit) == lists.map_values(
            |nodes: Seq<NodeView>| web::at_most(nodes, limit),
        ).flatten(),
    decreases lists.len(),
{
    let cut = |nodes: Seq<NodeView>| web::at_most(nodes, limit);
    let all = lists.map_values(cut);
    all.lemma_flatten_and_flatten_alt_are_equivalent();
    if lists.len() > 0 {
        lemma_in_turn(lists.drop_last(), limit);
        let earlier = lists.drop_last().map_values(cut);
        assert(all.drop_last() =~= earlier);
        earlier.lemma_flatten_and_flatten_alt_are_equivalent();
    } else {
        assert(all =~= Seq::empty());
    }
}

/// Without a limit, all nodes of all modems are given, one modem behind the
/// other.
pub proof fn law_no_limit(lists: Seq<Seq<NodeView>>)
    ensures
        web::combined(lists, None) == lists.flatten(),
{
    lemma_in_turn(lists, None);
    assert(lists.map_values(|nodes: Seq<NodeView>| web::at_most(nodes, None)) =~= lists);
}

/// A limit is shared between the modems: each gives its first `share` nodes,
/// where `share` is the least number with which they can reach the limit
/// together, one modem behind the other, and of those the first are given, up to
/// the limit.
pub proof fn law_limit_is_shared(lists: Seq<Seq<NodeView>>, limit: usize, share: int)
    requires
        lists.len() > 0,
        share * lists.len() >= limit,
        (share - 1) * lists.len() < limit,
    ensures
        web::combined(lists, Some(limit)) == first_of(
            lists.map_values(|nodes: Seq<NodeView>| first_of(nodes, share)).flatten(),
            limit as int,
        ),
{
    let count = lists.len();
    let least = web::share(limit, count);
    law_share(limit, count);
    assert(share == least) by (nonlinear_arith)
        requires
            count > 0,
            share * count >= limit,
            (share - 1) * count < limit,
            least * count >= limit,
            (least - 1) * count < limit,
    ;
    if limit > 0 {
        assert(least <= limit) by (nonlinear_arith)
            requires
                count > 0,
                limit > 0,
                (least - 1) * count < limit,
        ;
        lemma_in_turn(lists, Some(least as usize));
        assert(lists.map_values(|nodes: Seq<NodeView>| web::at_most(nodes, Some(least as usize)))
            =~= lists.map_values(|nodes: Seq<NodeView>| first_of(nodes, share)));
    } else {
        let all = lists.map_values(|nodes: Seq<NodeView>| first_of(nodes, share)).flatten();
        assert(first_of(all, 0) =~= Seq::empty());
    }
}

/// The share of each modem is the least number with which the modems can reach
/// the limit together.
pub proof fn law_share(limit: usize, count: nat)
    requires
        count > 0,
    ensures
        web::share(limit, count) * count >= limit,
        (web::share(limit, count) - 1) * count < limit,
{
    let quotient = limit as nat / count;
    let rest = limit as nat % count;
    vstd::arithmetic::div_mod::lemma_fundamental_div_mod(limit as int, count as int);
    vstd::arithmetic::div_mod::lemma_mod_bound(limit as int, count as int);
    assert(quotient * count == count * quotient) by (nonlinear_arith);
    assert((quotient + 1) * count == quotient * count + count) by (nonlinear_arith);
    assert((quotient - 1) * count == quotient * count - count) by (nonlinear_arith);
}

// ---------------------------------------------------------------------------
// Subscriptions
// ---------------------------------------------------------------------------

/// Whether nothing is given for a request that names no modem: no modem that is
/// configured has an entry.
pub open spec fn has_no_entry(
    modems: Seq<ModemView>,
    entries: Map<Seq<char>, EntryView>,
) -> bool {
    forall|i: int| 0 <= i < modems.len() ==> !entries.contains_key((#[trigger] modems[i]).modem_tag)
}

/// The lists of two groups of modems are those of the one and then those of the
/// other; a modem has one just where it has an entry, the nodes of the entry.
pub proof fn law_lists_in_order(
    first: Seq<ModemView>,
    second: Seq<ModemView>,
    modem: ModemView,
    entries: Map<Seq<char>, EntryView>,
)
    ensures
        web::available_lists(first + second, entries) == web::available_lists(first, entries)
            + web::available_lists(second, entries),
        web::available_lists(seq![modem], entries) == if entries.contains_key(modem.modem_tag) {
            seq![entries[modem.modem_tag].nodes]
        } else {
            Seq::empty()
        },
        web::available_lists(first, entries).len() == 0 <==> has_no_entry(first, entries),
    decreases second.len(), first.len(),
{
    let none = Seq::<Seq<NodeView>>::empty();
    assert(seq![modem].drop_last() =~= Seq::empty());
    assert(web::available_lists(Seq::empty(), entries) == none);
    if entries.contains_key(modem.modem_tag) {
        assert(none.push(entries[modem.modem_tag].nodes) =~= seq![entries[modem.modem_tag].nodes]);
    }
    if second.len() == 0 {
        assert(first + second =~= first);
        assert(web::available_lists(first, entries) + none =~= web::available_lists(
            first,
            entries,
        ));
        if first.len() > 0 {
            let less = first.drop_last();
            law_lists_in_order(less, second, modem, entries);
            if has_no_entry(first, entries) {
                assert(!entries.contains_key(first[first.len() - 1].modem_tag));
                assert forall|i: int| 0 <= i < less.len() implies !entries.contains_key(
                    (#[trigger] less[i]).modem_tag,
                ) by {
                    assert(less[i] == first[i]);
                }
            } else if web::available_lists(first, entries).len() == 0 {
                assert forall|i: int| 0 <= i < first.len() implies !entries.contains_key(
                    (#[trigger] first[i]).modem_tag,
                ) by {
                    if i < less.len() {
                        assert(less[i] == first[i]);
                    }
                }
            }
        }
    } else {
        law_lists_in_order(first, second.drop_last(), modem, entries);
        assert((first + second).drop_last() =~= first + second.drop_last());
        assert(web::available_lists(first + second, entries) =~= web::available_lists(
            first,
            entries,
        ) + web::available_lists(second, entries));
    }
}

/// A request with the right token that names a modem, white space around the
/// name left out, gets the first nodes of that modem, up to the limit; it is told
/// that there is none where the modem is not configured, or has no entry.
pub proof fn law_named_modem(
    config: ConfigView,
    entries: Map<Seq<char>, EntryView>,
    limit: Option<usize>,
    modem: Seq<char>,
)
    requires
        text::trimmed(modem).len() > 0,
    ensures
        ({
            let tag = text::trimmed(modem);
            let answer = web::answer_to(
                config,
                Some(entries),
                config.subscription_token,
                limit,
                Some(modem),
            );
            let is_configured = exists|i: int|
                0 <= i < config.modems.len() && (#[trigger] config.modems[i]).modem_tag == tag;
            if is_configured && entries.contains_key(tag) {
                answer == AnswerView::Nodes(
                    match limit {
                        Some(limit) => first_of(entries[tag].nodes, limit as int),
                        None => entries[tag].nodes,
                    },
                )
            } else {
                answer == AnswerView::NotFound
            }
        }),
{
}

/// A request with the right token that names no modem, or nothing but white
/// space, gets nodes of all configured modems that have an entry, in the order of
/// the settings, and is told that there is nothing yet where none has one.
pub proof fn law_all_modems(
    config: ConfigView,
    entries: Map<Seq<char>, EntryView>,
    limit: Option<usize>,
    modem: Option<Seq<char>>,
)
    requires
        modem matches Some(modem) ==> text::trimmed(modem).len() == 0,
    ensures
        ({
            let answer = web::answer_to(
                config,
                Some(entries),
                config.subscription_token,
                limit,
                modem,
            );
            if has_no_entry(config.modems, entries) {
                answer == AnswerView::Unavailable
            } else {
                answer == AnswerView::Nodes(
                    web::combined(web::available_lists(config.modems, entries), limit),
                )
            }
        }),
{
    law_lists_in_order(
        config.modems,
        Seq::empty(),
        ModemView { modem_tag: Seq::empty(), modem_interface: Seq::empty() },
        entries,
    );
}

// ---------------------------------------------------------------------------
// Access
// ---------------------------------------------------------------------------

/// The token behind `Bearer ` in the authorization header counts, whatever the
/// cookie.
pub proof fn law_bearer_token(token: Seq<char>, cookie: Option<Seq<char>>)
    ensures
        web::request_token(Some("Bearer "@ + token), cookie) == Some(token),
{
    let header = "Bearer "@ + token;
    assert(header.subrange(0, "Bearer "@.len() as int) =~= "Bearer "@);
    assert(header.skip("Bearer "@.len() as int) =~= token);
}

/// Where the authorization header is not there or does not start with `Bearer `,
/// the first part of the cookie that is called `auth_token` gives the token, and
/// there is none where no part is.
pub proof fn law_cookie_token(header: Option<Seq<char>>, parts: Seq<Seq<char>>, i: int)
    requires
        header matches Some(header) ==> !"Bearer "@.is_prefix_of(header),
        parts.len() > 0,
        0 <= i <= parts.len(),
        forall|j: int| 0 <= j < parts.len() ==> !(#[trigger] parts[j]).contains(';'),
        forall|j: int|
            0 <= j < i ==> !"auth_token="@.is_prefix_of(text::trimmed(#[trigger] parts[j])),
        i < parts.len() ==> "auth_token="@.is_prefix_of(text::trimmed(parts[i])),
    ensures
        web::request_token(header, Some(text::joined(parts, seq![';']))) == if i < parts.len() {
            Some(text::trimmed(parts[i]).skip(11))
        } else {
            None
        },
        web::request_token(header, None) is None,
{
    reveal_strlit("auth_token=");
    roundtrip::law_split_join(parts, ';');
    lemma_token_in_parts(parts, i);
}

/// The first part that gives a token.
proof fn lemma_token_in_parts(parts: Seq<Seq<char>>, i: int)
    requires
        0 <= i <= parts.len(),
        forall|j: int|
            0 <= j < i ==> !"auth_token="@.is_prefix_of(text::trimmed(#[trigger] parts[j])),
        i < parts.len() ==> "auth_token="@.is_prefix_of(text::trimmed(parts[i])),
    ensures
        web::token_in_parts(parts) == if i < parts.len() {
            Some(text::trimmed(parts[i]).skip("auth_token="@.len() as int))
        } else {
            None
        },
    decreases parts.len(),
{
    if parts.len() > 0 && i > 0 {
        let rest = parts.skip(1);
        assert(!"auth_token="@.is_prefix_of(text::trimmed(parts[0])));
        assert forall|j: int| 0 <= j < i - 1 implies !"auth_token="@.is_prefix_of(
            text::trimmed(#[trigger] rest[j]),
        ) by {
            assert(rest[j] == parts[j + 1]);
        }
        lemma_token_in_parts(rest, i - 1);
    }
}

/// The cookie that a login gives lets in: what a browser sends back of it, the
/// part before its first `;`, is read as the token.
pub proof fn law_session_cookie(token: Seq<char>)
    requires
        !token.contains(';'),
        token.len() > 0 ==> !text::is_space(token.last()),
    ensures
        ({
            let cookie = web::session_cookie(token);
            let kept = cookie.take(text::index_of(cookie, ';'));
            web::request_token(None, Some(kept)) == Some(token)
        }),
{
    let cookie = web::session_cookie(token);
    let kept = "auth_token="@ + token;
    reveal_strlit("auth_token=");
    reveal_strlit("; Path=/; HttpOnly; SameSite=Strict");
    web::law_login_lets_in(token);
    assert forall|j: int| 0 <= j < kept.len() implies cookie[j] != ';' by {
        if j >= 11 {
            assert(cookie[j] == token[j - 11]);
        }
    }
    assert(cookie[kept.len() as int] == ';');
    text::lemma_index_of_is(cookie, ';', kept.len() as int);
    assert(cookie.take(kept.len() as int) =~= kept);
}

/// A request is let in just where the token that it brings, in its header or else
/// in its cookie, is that of the panel; one that brings none is not.
pub proof fn law_admission(config: ConfigView, token: Seq<char>, cookie: Option<Seq<char>>)
    ensures
        web::admits(config, Some("Bearer "@ + token), cookie) <==> token == config.admin_token,
        !web::admits(config, None, None),
{
    law_bearer_token(token, cookie);
}

/// A login succeeds just with the token of the panel, and then the cookie that it
/// gives lets in, as far as a browser sends it back.
pub proof fn law_login(config: ConfigView, token: Seq<char>)
    requires
        !config.admin_token.contains(';'),
        config.admin_token.len() > 0 ==> !text::is_space(config.admin_token.last()),
    ensures
        web::login_cookie(config, token) is Some <==> token == config.admin_token,
        web::login_cookie(config, token) matches Some(cookie) ==> web::admits(
            config,
            None,
            Some(cookie.take(text::index_of(cookie, ';'))),
        ),
{
    law_session_cookie(config.admin_token);
}

// ---------------------------------------------------------------------------
// Changes of the settings
// ---------------------------------------------------------------------------

/// A request for other settings is refused just where the settings that it asks
/// for are not valid, with the reason; else those are taken.
pub proof fn law_change(request: RequestView, current: ConfigView)
    ensures
        web::change_of(request, current) is Err <==> config::verdict(
            config::requested_config(request, current),
        ) is Err,
        web::change_of(request, current) matches Ok(change) ==> change.config
            == config::requested_config(request, current),
{
}

/// Modems are checked anew just where the modems, one of the two pages or the
/// interval of the checks change; and the nodes are updated just where modems are
/// checked anew, or the subscriptions or a limit of the probes change.
pub proof fn law_change_brings(request: RequestView, current: ConfigView)
    ensures
        web::change_of(request, current) matches Ok(change) ==> {
            let next = change.config;
            let same_network = current.modems == next.modems && current.white_url == next.white_url
                && current.gray_url == next.gray_url && current.network_check_interval_minutes
                == next.network_check_interval_minutes;
            let same_probes = current.subscription_urls == next.subscription_urls
                && current.ping_timeout_ms == next.ping_timeout_ms && current.max_concurrent_pings
                == next.max_concurrent_pings && current.max_concurrent_tunnels
                == next.max_concurrent_tunnels;
            &&& change.should_check_health <==> !same_network
            &&& change.should_refresh <==> !(same_network && same_probes)
        },
{
}

} // verus!
