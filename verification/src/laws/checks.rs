//! Checks of the connections of modems.

use vstd::prelude::*;
use vstd::string::*;

use crate::cache;
use crate::clock::Timestamp;
use crate::codec;
use crate::config;
use crate::config::ModemView;
use crate::health;
use crate::health::{CurlEnd, HealthView, OutcomeView};
use crate::laws::updates;
use crate::text;

verus! {

/// A probe may take as many whole seconds as its time has, and one at least.
pub proof fn law_probe_seconds(timeout_ms: u64)
    ensures
        health::probe_seconds(timeout_ms) >= 1,
        timeout_ms >= 1000 ==> 1000 * health::probe_seconds(timeout_ms) <= timeout_ms < 1000 * (
        health::probe_seconds(timeout_ms) + 1),
        timeout_ms < 1000 ==> health::probe_seconds(timeout_ms) == 1,
{
}

/// Whether one argument follows another.
pub open spec fn is_followed(arguments: Seq<Seq<char>>, option: Seq<char>, value: Seq<char>) -> bool {
    exists|i: int|
        0 <= i < arguments.len() - 1 && #[trigger] arguments[i] == option && arguments[i + 1]
            == value
}

/// A page is asked for over the interface, without output, through redirections,
/// with an error where it is not found, and for no longer than the probe may take;
/// the page comes last.
pub proof fn law_probe_arguments(url: Seq<char>, interface: Seq<char>, timeout_ms: u64)
    ensures
        ({
            let arguments = health::curl_arguments(url, interface, timeout_ms);
            let seconds = text::decimal(health::probe_seconds(timeout_ms));
            &&& arguments.len() == 13
            &&& arguments.last() == url
            &&& is_followed(arguments, "--interface"@, interface)
            &&& is_followed(arguments, "--connect-timeout"@, seconds)
            &&& is_followed(arguments, "--max-time"@, seconds)
            &&& is_followed(arguments, "--output"@, "/dev/null"@)
            &&& arguments.take(4) == seq![
                "--silent"@,
                "--show-error"@,
                "--fail"@,
                "--location"@,
            ]
        }),
{
    let arguments = health::curl_arguments(url, interface, timeout_ms);
    assert(arguments[4] == "--output"@ && arguments[5] == "/dev/null"@);
    assert(arguments[6] == "--connect-timeout"@);
    assert(arguments[8] == "--max-time"@);
    assert(arguments[10] == "--interface"@ && arguments[11] == interface);
    assert(arguments.take(4) =~= seq![
        "--silent"@,
        "--show-error"@,
        "--fail"@,
        "--location"@,
    ]);
}

/// A page is reached just where the probe succeeds; the probe itself fails where
/// it was not over in time, was not made, or ended with the code of a timeout or
/// of a bad interface; else the page is not reached.
pub proof fn law_probe_outcome(
    end: CurlEnd,
    url: Seq<char>,
    interface: Seq<char>,
    timeout_ms: u64,
)
    ensures
        ({
            let outcome = health::curl_outcome(end, url, interface, timeout_ms);
            let is_fault = end matches CurlEnd::Exited(code, _, _) && (code == Some(28i32) || code
                == Some(45i32));
            &&& outcome is Reached <==> end is Succeeded
            &&& outcome is Failed <==> end is TimedOut || end is NotRun || is_fault
            &&& end is TimedOut ==> outcome == OutcomeView::Failed(
                "curl probe timed out after "@ + text::decimal(timeout_ms as nat) + " ms"@,
            )
            &&& end matches CurlEnd::NotRun(reason) ==> outcome == OutcomeView::Failed(
                "failed to execute curl: "@ + reason@,
            )
            &&& end matches CurlEnd::Exited(code, status, output) ==> is_fault ==> outcome
                == OutcomeView::Failed(
                "curl exited with status "@ + status@ + " while checking "@ + url + " via "@
                    + interface + ": "@ + text::trimmed(codec::lenient_text(output@)),
            )
        }),
{
}

/// After both pages, the modem is online just where the first was reached, and
/// lets only some pages pass just where the second was not; the reason of the last
/// probe that failed is kept.
pub proof fn law_check(modem: ModemView, now: Timestamp, white: OutcomeView, gray: OutcomeView)
    ensures
        ({
            let first = health::after_white(modem, now, white);
            let both = health::after_gray(first, gray);
            &&& first.modem_tag == modem.modem_tag
            &&& first.modem_interface == modem.modem_interface
            &&& first.last_check == Some(now)
            &&& first.next_check is None
            &&& !first.check_in_progress
            &&& first.white_url_ok == Some(white is Reached)
            &&& first.modem_online == Some(white is Reached)
            &&& first.gray_url_ok is None
            &&& !first.whitelist_mode
            &&& match white {
                OutcomeView::Failed(reason) => first.last_error == Some(reason),
                _ => first.last_error is None,
            }
            &&& both.gray_url_ok == Some(gray is Reached)
            &&& both.whitelist_mode <==> !(gray is Reached)
            &&& match gray {
                OutcomeView::Failed(reason) => both.last_error == Some(reason),
                _ => both.last_error == first.last_error,
            }
            &&& both == (HealthView {
                gray_url_ok: both.gray_url_ok,
                whitelist_mode: both.whitelist_mode,
                last_error: both.last_error,
                ..first
            })
        }),
{
}

/// While a modem is checked, what was known of it stays but for the last error,
/// under its interface and with the time of the next check; a modem of which
/// nothing was known is known by its name.
pub proof fn law_checking(
    states: Map<Seq<char>, HealthView>,
    modem: ModemView,
    next_check: Option<Timestamp>,
)
    ensures
        ({
            let now = health::checking(states, modem, next_check);
            let tag = modem.modem_tag;
            &&& now.check_in_progress
            &&& now.modem_interface == modem.modem_interface
            &&& now.next_check == next_check
            &&& now.last_error is None
            &&& states.contains_key(tag) ==> {
                &&& now.modem_tag == states[tag].modem_tag
                &&& now.last_check == states[tag].last_check
                &&& now.white_url_ok == states[tag].white_url_ok
                &&& now.gray_url_ok == states[tag].gray_url_ok
                &&& now.whitelist_mode == states[tag].whitelist_mode
                &&& now.modem_online == states[tag].modem_online
            }
            &&& !states.contains_key(tag) ==> {
                &&& now.modem_tag == tag
                &&& now.last_check is None
                &&& now.white_url_ok is None
                &&& now.gray_url_ok is None
                &&& !now.whitelist_mode
                &&& now.modem_online is None
            }
        }),
{
}

/// What a check found stays, with the time of the next one, and it is over.
pub proof fn law_checked(found: HealthView, next_check: Option<Timestamp>)
    ensures
        !health::checked(found, next_check).check_in_progress,
        health::checked(found, next_check).next_check == next_check,
        found == (HealthView {
            check_in_progress: found.check_in_progress,
            next_check: found.next_check,
            ..health::checked(found, next_check)
        }),
{
}

/// As many modems are checked at a time as there may be tunnels, or as there are
/// modems where these are fewer, and one at least.
pub proof fn law_checked_at_a_time(tunnels: nat, modems: nat)
    ensures
        ({
            let limit = health::check_limit(tunnels, modems);
            &&& tunnels >= 1 && modems >= 1 ==> limit <= tunnels && limit <= modems && (limit
                == tunnels || limit == modems)
            &&& tunnels == 0 || modems == 0 ==> limit == 1
        }),
{
}

/// Whether nothing is known of a modem.
pub open spec fn is_unknown(
    state: HealthView,
    modem: ModemView,
    next_check: Option<Timestamp>,
) -> bool {
    &&& state.modem_tag == modem.modem_tag
    &&& state.modem_interface == modem.modem_interface
    &&& state.last_check is None
    &&& state.next_check == next_check
    &&& !state.check_in_progress
    &&& state.white_url_ok is None
    &&& state.gray_url_ok is None
    &&& !state.whitelist_mode
    &&& state.modem_online is None
    &&& state.last_error is None
}

/// Modems without the last are told apart where all are.
proof fn lemma_told_apart(modems: Seq<ModemView>)
    requires
        updates::are_told_apart(modems),
        modems.len() > 0,
    ensures
        updates::are_told_apart(modems.drop_last()),
{
    let less = modems.drop_last();
    assert forall|a: int, b: int| 0 <= a < b < less.len() implies (#[trigger] less[a]).modem_tag
        != (#[trigger] less[b]).modem_tag by {
        assert(modems[a].modem_tag != modems[b].modem_tag);
    }
}

/// At the start nothing is known of any modem.
pub proof fn law_unknown_at_first(
    modems: Seq<ModemView>,
    next_check: Option<Timestamp>,
    i: int,
)
    requires
        updates::are_told_apart(modems),
        0 <= i < modems.len(),
    ensures
        health::unchecked_modems(modems, next_check).contains_key(modems[i].modem_tag),
        is_unknown(
            health::unchecked_modems(modems, next_check)[modems[i].modem_tag],
            modems[i],
            next_check,
        ),
    decreases modems.len(),
{
    let last = modems.len() - 1;
    assert(modems.last() == modems[last]);
    if i < last {
        assert(modems[i].modem_tag != modems[last].modem_tag);
        lemma_told_apart(modems);
        law_unknown_at_first(modems.drop_last(), next_check, i);
    }
}

/// Nothing changes for a tag that no modem has.
proof fn lemma_other_health(
    map: Map<Seq<char>, HealthView>,
    modems: Seq<ModemView>,
    next_check: Option<Timestamp>,
    tag: Seq<char>,
)
    requires
        forall|j: int| 0 <= j < modems.len() ==> (#[trigger] modems[j]).modem_tag != tag,
    ensures
        health::with_modems(map, modems, next_check).contains_key(tag) == map.contains_key(tag),
        health::with_modems(map, modems, next_check)[tag] == map[tag],
    decreases modems.len(),
{
    if modems.len() > 0 {
        let less = modems.drop_last();
        assert(modems[modems.len() - 1].modem_tag != tag);
        assert forall|j: int| 0 <= j < less.len() implies (#[trigger] less[j]).modem_tag
            != tag by {
            assert(modems[j].modem_tag != tag);
        }
        lemma_other_health(map, less, next_check, tag);
    }
}

/// What becomes of what is known of one modem.
proof fn lemma_with_modems(
    map: Map<Seq<char>, HealthView>,
    modems: Seq<ModemView>,
    next_check: Option<Timestamp>,
    i: int,
)
    requires
        updates::are_told_apart(modems),
        0 <= i < modems.len(),
    ensures
        health::with_modems(map, modems, next_check).contains_key(modems[i].modem_tag),
        health::with_modems(map, modems, next_check)[modems[i].modem_tag] == health::kept_health(
            map,
            modems[i],
            next_check,
        ),
    decreases modems.len(),
{
    let less = modems.drop_last();
    let last = modems.len() - 1;
    assert(modems.last() == modems[last]);
    if i < last {
        assert(modems[i].modem_tag != modems[last].modem_tag);
        lemma_told_apart(modems);
        lemma_with_modems(map, less, next_check, i);
        assert(less[i] == modems[i]);
    } else {
        assert forall|j: int| 0 <= j < less.len() implies (#[trigger] less[j]).modem_tag
            != modems[last].modem_tag by {
            assert(modems[j].modem_tag != modems[last].modem_tag);
        }
        lemma_other_health(map, less, next_check, modems[last].modem_tag);
    }
}

/// What is known of a modem stays when the settings change, but for its interface
/// and the time of the next check; nothing is known of a new one.
pub proof fn law_synced_health(
    map: Map<Seq<char>, HealthView>,
    modems: Seq<ModemView>,
    next_check: Option<Timestamp>,
    i: int,
)
    requires
        updates::are_told_apart(modems),
        0 <= i < modems.len(),
    ensures
        ({
            let tag = modems[i].modem_tag;
            let synced = health::synced_health(map, modems, next_check);
            &&& synced.contains_key(tag)
            &&& !map.contains_key(tag) ==> is_unknown(synced[tag], modems[i], next_check)
            &&& map.contains_key(tag) ==> {
                &&& synced[tag].modem_interface == modems[i].modem_interface
                &&& synced[tag].next_check == next_check
                &&& synced[tag] == (HealthView {
                    modem_interface: synced[tag].modem_interface,
                    next_check: synced[tag].next_check,
                    ..map[tag]
                })
            }
        }),
{
    assert(config::has_tag(modems, modems[i].modem_tag));
    lemma_with_modems(cache::configured_entries(map, modems), modems, next_check, i);
}

} // verus!
