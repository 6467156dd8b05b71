//! Settings: which are valid, and what is made of those that are asked for.

use vstd::prelude::*;
use vstd::string::*;

use crate::codec;
use crate::config;
use crate::config::{ConfigView, ModemView, RequestView};
use crate::text;

verus! {

/// Whether a text is a URL with a scheme and a host.
pub open spec fn names_host(text: Seq<char>) -> bool {
    codec::url_parts(text) matches Some(parts) && parts.scheme.len() > 0 && parts.host is Some
}

/// Whether a modem has a tag of letters, digits, `_` and `-`, and an interface.
pub open spec fn is_usable(modem: ModemView) -> bool {
    &&& modem.modem_tag.len() > 0
    &&& modem.modem_interface.len() > 0
    &&& forall|i: int|
        0 <= i < modem.modem_tag.len() ==> {
            ||| 'a' <= #[trigger] modem.modem_tag[i] <= 'z'
            ||| 'A' <= modem.modem_tag[i] <= 'Z'
            ||| '0' <= modem.modem_tag[i] <= '9'
            ||| modem.modem_tag[i] == '_'
            ||| modem.modem_tag[i] == '-'
        }
}

/// Whether modems can be used together.
pub open spec fn are_usable(modems: Seq<ModemView>) -> bool {
    &&& forall|i: int| 0 <= i < modems.len() ==> is_usable(#[trigger] modems[i])
    &&& forall|i: int, j: int|
        0 <= i < j < modems.len() ==> (#[trigger] modems[i]).modem_tag != (
        #[trigger] modems[j]).modem_tag
}

/// Modems are accepted just where they can be used together.
proof fn lemma_each_modem(modems: Seq<ModemView>)
    ensures
        config::each_modem_verdict(modems) is Ok <==> are_usable(modems),
    decreases modems.len(),
{
    if modems.len() > 0 {
        let less = modems.drop_last();
        let last = modems.last();
        lemma_each_modem(less);
        assert(forall|i: int| 0 <= i < less.len() ==> less[i] == modems[i]);
        assert(modems[modems.len() - 1] == last);
        if are_usable(modems) {
            assert(is_usable(modems[modems.len() - 1]));
            assert(are_usable(less)) by {
                assert forall|i: int| 0 <= i < less.len() implies is_usable(#[trigger] less[i]) by {
                    assert(is_usable(modems[i]));
                }
            }
        }
        if config::each_modem_verdict(modems) is Ok {
            assert(is_usable(last));
            assert forall|i: int| 0 <= i < modems.len() implies is_usable(#[trigger] modems[i]) by {
                if i < less.len() {
                    assert(is_usable(less[i]));
                }
            }
            assert forall|i: int, j: int| 0 <= i < j < modems.len() implies (
            #[trigger] modems[i]).modem_tag != (#[trigger] modems[j]).modem_tag by {
                if j < less.len() {
                    assert(less[i].modem_tag != less[j].modem_tag);
                } else {
                    assert(less[i].modem_tag != last.modem_tag);
                }
            }
        }
    }
}

/// Settings are valid just where their version is known, no number is zero, the
/// interval of the checks is under that of the updates, both pages are URLs with
/// a scheme and a host, and there are modems that can be used together.
pub proof fn law_valid_settings(config: ConfigView)
    ensures
        config::verdict(config) is Ok <==> {
            &&& config.schema_version == 1
            &&& config.update_interval_minutes > config.network_check_interval_minutes > 0
            &&& config.ping_timeout_ms > 0
            &&& config.max_concurrent_pings > 0
            &&& config.max_concurrent_tunnels > 0
            &&& names_host(config.white_url)
            &&& names_host(config.gray_url)
            &&& config.modems.len() > 0
            &&& are_usable(config.modems)
        },
{
    lemma_each_modem(config.modems);
}

/// What is wrong with the numbers of settings of the known version is told first,
/// each by its name.
pub proof fn law_wrong_number(config: ConfigView, message: Seq<char>)
    requires
        config.schema_version == 1,
        config::verdict(config) == Err::<(), Seq<char>>(message),
    ensures
        config.update_interval_minutes == 0 ==> message
            == "update_interval_minutes must be greater than zero"@,
        config.update_interval_minutes > 0 && config.network_check_interval_minutes == 0 ==> message
            == "network_check_interval_minutes must be greater than zero"@,
        0 < config.update_interval_minutes <= config.network_check_interval_minutes ==> message
            == "network_check_interval_minutes must be less than update_interval_minutes"@,
        ({
            let are_in_order = config.update_interval_minutes
                > config.network_check_interval_minutes > 0;
            &&& are_in_order && config.ping_timeout_ms == 0 ==> message
                == "ping_timeout_ms must be greater than zero"@
            &&& are_in_order && config.ping_timeout_ms > 0 && config.max_concurrent_pings == 0
                ==> message == "max_concurrent_pings must be greater than zero"@
            &&& are_in_order && config.ping_timeout_ms > 0 && config.max_concurrent_pings > 0
                && config.max_concurrent_tunnels == 0 ==> message
                == "max_concurrent_tunnels must be greater than zero"@
        }),
{
}

/// Settings of another version are refused for it, whatever else they hold.
pub proof fn law_wrong_version(config: ConfigView)
    requires
        config.schema_version != 1,
    ensures
        config::verdict(config) == Err::<(), Seq<char>>(
            "unsupported config schema_version "@ + text::decimal(config.schema_version as nat)
                + ", expected "@ + text::decimal(1),
        ),
{
}

/// Where the numbers are valid, the first page that is wrong is told by its name,
/// and the modems only where both are right.
pub proof fn law_wrong_page(config: ConfigView, message: Seq<char>)
    requires
        config::numbers_verdict(config) is Ok,
        config::verdict(config) == Err::<(), Seq<char>>(message),
    ensures
        codec::url_parts(config.white_url) is None ==> message == "white_url"@
            + " must be a valid URL"@,
        codec::url_parts(config.white_url) is Some && !names_host(config.white_url) ==> message
            == "white_url"@ + " must include scheme and host"@,
        names_host(config.white_url) && codec::url_parts(config.gray_url) is None ==> message
            == "gray_url"@ + " must be a valid URL"@,
        names_host(config.white_url) && codec::url_parts(config.gray_url) is Some && !names_host(
            config.gray_url,
        ) ==> message == "gray_url"@ + " must include scheme and host"@,
        names_host(config.white_url) && names_host(config.gray_url) && config.modems.len() == 0
            ==> message == "at least one modem must be configured"@,
{
}

/// Of modems that cannot be used together, the first that is at fault is told by
/// its tag, with the fault: an empty tag, a character that a tag cannot have, the
/// tag of an earlier modem, or an empty interface.
pub proof fn law_wrong_modem(modems: Seq<ModemView>, i: int)
    requires
        0 <= i < modems.len(),
        are_usable(modems.take(i)),
        !are_usable(modems.take(i + 1)),
    ensures
        ({
            let tag = modems[i].modem_tag;
            let with_interface = ModemView { modem_interface: seq!['-'], ..modems[i] };
            let is_taken = exists|j: int| 0 <= j < i && (#[trigger] modems[j]).modem_tag == tag;
            let message = if tag.len() == 0 {
                "modem_tag must not be empty"@
            } else if !is_usable(with_interface) {
                "modem_tag "@ + tag + " contains unsupported characters"@
            } else if is_taken {
                "duplicate modem_tag "@ + tag
            } else {
                "modem_interface for "@ + tag + " must not be empty"@
            };
            config::modems_verdict(modems) == Err::<(), Seq<char>>(message)
        }),
{
    let upto = modems.take(i + 1);
    let earlier = modems.take(i);
    lemma_each_modem(earlier);
    lemma_each_modem(upto);
    assert(upto.drop_last() =~= earlier);
    assert(upto.last() == modems[i]);
    lemma_first_fault(modems, i + 1);
    let tag = modems[i].modem_tag;
    if config::has_tag(earlier, tag) {
        let j = choose|j: int| 0 <= j < earlier.len() && (#[trigger] earlier[j]).modem_tag == tag;
        assert(modems[j].modem_tag == tag);
    }
    assert forall|j: int| 0 <= j < i && (#[trigger] modems[j]).modem_tag == tag implies
        config::has_tag(earlier, tag) by {
        assert(earlier[j].modem_tag == tag);
    }
}

/// A fault of the first modems is that of all.
proof fn lemma_first_fault(modems: Seq<ModemView>, count: int)
    requires
        0 <= count <= modems.len(),
        config::each_modem_verdict(modems.take(count)) is Err,
    ensures
        config::each_modem_verdict(modems) == config::each_modem_verdict(modems.take(count)),
    decreases modems.len(),
{
    if count < modems.len() {
        let less = modems.drop_last();
        assert(less.take(count) =~= modems.take(count));
        lemma_first_fault(less, count);
    } else {
        assert(modems.take(count) =~= modems);
    }
}

/// The settings that a request asks for have what it says, white space around
/// texts left out, and the port and both tokens as they are.
pub proof fn law_requested_settings(request: RequestView, current: ConfigView)
    ensures
        ({
            let next = config::requested_config(request, current);
            &&& next.schema_version == 1
            &&& next.web_port == current.web_port
            &&& next.admin_token == current.admin_token
            &&& next.subscription_token == current.subscription_token
            &&& next.update_interval_minutes == request.update_interval_minutes
            &&& next.ping_timeout_ms == request.ping_timeout_ms
            &&& next.max_concurrent_pings == request.max_concurrent_pings
            &&& next.max_concurrent_tunnels == request.max_concurrent_tunnels
            &&& next.network_check_interval_minutes == request.network_check_interval_minutes
            &&& next.white_url == text::trimmed(request.white_url)
            &&& next.gray_url == text::trimmed(request.gray_url)
            &&& next.subscription_urls == config::clean_urls(request.subscription_urls)
            &&& next.modems.len() == request.modems.len()
            &&& forall|i: int|
                0 <= i < request.modems.len() ==> (#[trigger] next.modems[i]).modem_tag
                    == text::trimmed(request.modems[i].modem_tag) && next.modems[i].modem_interface
                    == text::trimmed(request.modems[i].modem_interface)
        }),
{
}

/// Stored settings that are accepted keep everything but white space around
/// texts and empty subscriptions.
pub proof fn law_accepted_settings(config: ConfigView)
    ensures
        config::accepted(config) matches Ok(next) ==> {
            &&& config::verdict(next) is Ok
            &&& next.schema_version == config.schema_version
            &&& next.web_port == config.web_port
            &&& next.admin_token == config.admin_token
            &&& next.subscription_token == config.subscription_token
            &&& next.update_interval_minutes == config.update_interval_minutes
            &&& next.ping_timeout_ms == config.ping_timeout_ms
            &&& next.max_concurrent_pings == config.max_concurrent_pings
            &&& next.max_concurrent_tunnels == config.max_concurrent_tunnels
            &&& next.network_check_interval_minutes == config.network_check_interval_minutes
            &&& next.white_url == text::trimmed(config.white_url)
            &&& next.gray_url == text::trimmed(config.gray_url)
            &&& next.subscription_urls == config::clean_urls(config.subscription_urls)
            &&& next.modems.len() == config.modems.len()
            &&& forall|i: int|
                0 <= i < config.modems.len() ==> (#[trigger] next.modems[i]).modem_tag
                    == text::trimmed(config.modems[i].modem_tag) && next.modems[i].modem_interface
                    == text::trimmed(config.modems[i].modem_interface)
        },
{
}

/// The subscriptions of two lists are those of the one and then those of the
/// other; one is kept without the white space around it, unless nothing is left.
pub proof fn law_subscriptions(first: Seq<Seq<char>>, second: Seq<Seq<char>>, url: Seq<char>)
    ensures
        config::clean_urls(first + second) == config::clean_urls(first) + config::clean_urls(
            second,
        ),
        config::clean_urls(seq![url]) == if text::trimmed(url).len() > 0 {
            seq![text::trimmed(url)]
        } else {
            Seq::empty()
        },
        config::clean_urls(Seq::empty()).len() == 0,
    decreases second.len(),
{
    assert(seq![url].drop_last() =~= Seq::empty());
    assert(config::clean_urls(Seq::empty()) =~= Seq::empty());
    assert(Seq::empty().push(text::trimmed(url)) =~= seq![text::trimmed(url)]);
    if second.len() == 0 {
        assert(first + second =~= first);
        assert(config::clean_urls(first) + config::clean_urls(second) =~= config::clean_urls(first));
    } else {
        law_subscriptions(first, second.drop_last(), url);
        assert((first + second).drop_last() =~= first + second.drop_last());
        assert(config::clean_urls(first + second) =~= config::clean_urls(first)
            + config::clean_urls(second));
    }
}

/// New settings have the given tokens, serve at port 8080, update every hour and
/// check every ten minutes, know one modem and no subscription, and are as clean as
/// they can be.
pub proof fn law_new_settings(admin_token: Seq<char>, subscription_token: Seq<char>)
    ensures
        ({
            let config = config::default_config(admin_token, subscription_token);
            &&& config.schema_version == 1
            &&& config.web_port == 8080
            &&& config.admin_token == admin_token
            &&& config.subscription_token == subscription_token
            &&& config.update_interval_minutes == 60
            &&& config.network_check_interval_minutes == 10
            &&& config.ping_timeout_ms == 3000
            &&& config.max_concurrent_pings == 100
            &&& config.max_concurrent_tunnels == 20
            &&& config.white_url == "https://www.gstatic.com/generate_204"@
            &&& config.gray_url == "https://example.com"@
            &&& config.subscription_urls.len() == 0
            &&& config.modems.len() == 1
            &&& config.modems[0].modem_tag == "default"@
            &&& config.modems[0].modem_interface == "wwan0"@
            &&& are_usable(config.modems)
        }),
{
    reveal_strlit("default");
    reveal_strlit("wwan0");
}

} // verus!
