//! Whether modems are online, and how that is found out.

use vstd::prelude::*;
use vstd::string::*;

use crate::cache;
use crate::clock::Timestamp;
use crate::codec;
use crate::config;
use crate::config::{ModemConfig, ModemView};
use crate::items;
use crate::items::Duplicate;
use crate::strmap::StrMap;
use crate::text;

verus! {

// ---------------------------------------------------------------------------
// Types
// ---------------------------------------------------------------------------

/// What is known of the connection of a modem.
#[derive(Debug)]
pub struct ModemHealthState {
    pub modem_tag: String,
    pub modem_interface: String,
    pub last_check: Option<Timestamp>,
    pub next_check: Option<Timestamp>,
    pub check_in_progress: bool,
    pub white_url_ok: Option<bool>,
    pub gray_url_ok: Option<bool>,
    pub whitelist_mode: bool,
    pub modem_online: Option<bool>,
    pub last_error: Option<String>,
}

/// The mathematical form of what is known of the connection of a modem.
pub struct HealthView {
    pub modem_tag: Seq<char>,
    pub modem_interface: Seq<char>,
    pub last_check: Option<Timestamp>,
    pub next_check: Option<Timestamp>,
    pub check_in_progress: bool,
    pub white_url_ok: Option<bool>,
    pub gray_url_ok: Option<bool>,
    pub whitelist_mode: bool,
    pub modem_online: Option<bool>,
    pub last_error: Option<Seq<char>>,
}

impl View for ModemHealthState {
    type V = HealthView;

    open spec fn view(&self) -> HealthView {
        HealthView {
            modem_tag: self.modem_tag@,
            modem_interface: self.modem_interface@,
            last_check: self.last_check,
            next_check: self.next_check,
            check_in_progress: self.check_in_progress,
            white_url_ok: self.white_url_ok,
            gray_url_ok: self.gray_url_ok,
            whitelist_mode: self.whitelist_mode,
            modem_online: self.modem_online,
            last_error: text::text_view(self.last_error),
        }
    }
}

impl Duplicate for ModemHealthState {
    fn duplicate(&self) -> (copy: Self) {
        ModemHealthState {
            modem_tag: self.modem_tag.clone(),
            modem_interface: self.modem_interface.clone(),
            last_check: self.last_check,
            next_check: self.next_check,
            check_in_progress: self.check_in_progress,
            white_url_ok: self.white_url_ok,
            gray_url_ok: self.gray_url_ok,
            whitelist_mode: self.whitelist_mode,
            modem_online: self.modem_online,
            last_error: text::copy_text(&self.last_error),
        }
    }
}

impl Clone for ModemHealthState {
    fn clone(&self) -> (copy: Self)
        ensures
            copy@ == self@,
    {
        self.duplicate()
    }
}

/// A modem whose connection has not been checked.
pub open spec fn unchecked(modem: ModemView, next_check: Option<Timestamp>) -> HealthView {
    HealthView {
        modem_tag: modem.modem_tag,
        modem_interface: modem.modem_interface,
        last_check: None,
        next_check,
        check_in_progress: false,
        white_url_ok: None,
        gray_url_ok: None,
        whitelist_mode: false,
        modem_online: None,
        last_error: None,
    }
}

impl ModemHealthState {
    /// A modem whose connection has not been checked.
    pub fn pending(modem: &ModemConfig, next_check: Option<Timestamp>) -> (state: Self)
        ensures
            state@ == unchecked(modem@, next_check),
    {
        ModemHealthState {
            modem_tag: modem.modem_tag.clone(),
            modem_interface: modem.modem_interface.clone(),
            last_check: None,
            next_check,
            check_in_progress: false,
            white_url_ok: None,
            gray_url_ok: None,
            whitelist_mode: false,
            modem_online: None,
            last_error: None,
        }
    }
}

// ---------------------------------------------------------------------------
// Probes
// ---------------------------------------------------------------------------

/// The seconds that a probe may take: the whole seconds of its timeout, and no
/// less than one.
pub open spec fn probe_seconds(timeout_ms: u64) -> nat {
    if timeout_ms < 1000 {
        1
    } else {
        timeout_ms as nat / 1000
    }
}

/// The arguments of the `curl` call that probes an address through an
/// interface.
pub open spec fn curl_arguments(
    url: Seq<char>,
    interface: Seq<char>,
    timeout_ms: u64,
) -> Seq<Seq<char>> {
    let seconds = text::decimal(probe_seconds(timeout_ms));
    seq![
        "--silent"@,
        "--show-error"@,
        "--fail"@,
        "--location"@,
        "--output"@,
        "/dev/null"@,
        "--connect-timeout"@,
        seconds,
        "--max-time"@,
        seconds,
        "--interface"@,
        interface,
        url,
    ]
}

/// The arguments of the `curl` call that probes an address.
pub fn curl_args(url: &str, interface: &str, timeout_ms: u64) -> (args: Vec<String>)
    ensures
        items::views(args@) == curl_arguments(url@, interface@, timeout_ms),
{
    let seconds: u64 = if timeout_ms < 1000 {
        1
    } else {
        timeout_ms / 1000
    };
    let args = vec![
        "--silent".to_string(),
        "--show-error".to_string(),
        "--fail".to_string(),
        "--location".to_string(),
        "--output".to_string(),
        "/dev/null".to_string(),
        "--connect-timeout".to_string(),
        text::decimal_text(seconds),
        "--max-time".to_string(),
        text::decimal_text(seconds),
        "--interface".to_string(),
        interface.to_string(),
        url.to_string(),
    ];
    assert(items::views(args@) =~= curl_arguments(url@, interface@, timeout_ms));
    args
}

/// How a `curl` call ended.
#[derive(Debug)]
pub enum CurlEnd {
    /// It was not over in time.
    TimedOut,
    /// It could not be made, for a reason.
    NotRun(String),
    /// It ended well.
    Succeeded,
    /// It ended badly: its exit code where it has one, its status as text, and
    /// what it wrote to its error output.
    Exited(Option<i32>, String, Vec<u8>),
}

/// What a probe found.
#[derive(Debug)]
pub enum ProbeOutcome {
    /// The address was reached.
    Reached,
    /// The address was not reached.
    Unreached,
    /// The probe itself failed, for a reason.
    Failed(String),
}

/// The mathematical form of what a probe found.
pub enum OutcomeView {
    Reached,
    Unreached,
    Failed(Seq<char>),
}

impl View for ProbeOutcome {
    type V = OutcomeView;

    open spec fn view(&self) -> OutcomeView {
        match *self {
            ProbeOutcome::Reached => OutcomeView::Reached,
            ProbeOutcome::Unreached => OutcomeView::Unreached,
            ProbeOutcome::Failed(reason) => OutcomeView::Failed(reason@),
        }
    }
}

/// What a `curl` call that ended in one way or another found. Of the bad ends,
/// exit codes 28 and 45 (a timeout, and an interface that cannot be used) are
/// failures of the probe.
pub open spec fn curl_outcome(
    end: CurlEnd,
    url: Seq<char>,
    interface: Seq<char>,
    timeout_ms: u64,
) -> OutcomeView {
    match end {
        CurlEnd::TimedOut => OutcomeView::Failed(
            "curl probe timed out after "@ + text::decimal(timeout_ms as nat) + " ms"@,
        ),
        CurlEnd::NotRun(reason) => OutcomeView::Failed("failed to execute curl: "@ + reason@),
        CurlEnd::Succeeded => OutcomeView::Reached,
        CurlEnd::Exited(code, status, stderr) => if code == Some(28i32) || code == Some(45i32) {
            OutcomeView::Failed(
                "curl exited with status "@ + status@ + " while checking "@ + url + " via "@
                    + interface + ": "@ + text::trimmed(codec::lenient_text(stderr@)),
            )
        } else {
            OutcomeView::Unreached
        },
    }
}

/// What a `curl` call found.
pub fn read_curl_end(end: &CurlEnd, url: &str, interface: &str, timeout_ms: u64) -> (outcome:
    ProbeOutcome)
    ensures
        outcome@ == curl_outcome(*end, url@, interface@, timeout_ms),
{
    match end {
        CurlEnd::TimedOut => {
            let mut message = "curl probe timed out after ".to_string();
            message.append(text::decimal_text(timeout_ms).as_str());
            message.append(" ms");
            ProbeOutcome::Failed(message)
        },
        CurlEnd::NotRun(reason) => {
            let mut message = "failed to execute curl: ".to_string();
            message.append(reason.as_str());
            ProbeOutcome::Failed(message)
        },
        CurlEnd::Succeeded => ProbeOutcome::Reached,
        CurlEnd::Exited(code, status, stderr) => {
            let failed = match code {
                Some(code) => *code == 28 || *code == 45,
                None => false,
            };
            if !failed {
                return ProbeOutcome::Unreached;
            }
            let output = codec::lossy_utf8(stderr);
            let mut message = "curl exited with status ".to_string();
            message.append(status.as_str());
            message.append(" while checking ");
            message.append(url);
            message.append(" via ");
            message.append(interface);
            message.append(": ");
            message.append(text::trim(output.as_str()).as_str());
            ProbeOutcome::Failed(message)
        },
    }
}

// ---------------------------------------------------------------------------
// Checks
// ---------------------------------------------------------------------------

/// What is known of a modem at `now`, once the page has been probed that it
/// reaches whenever it is online.
pub open spec fn after_white(modem: ModemView, now: Timestamp, white: OutcomeView) -> HealthView {
    let started = HealthView { last_check: Some(now), ..unchecked(modem, None) };
    match white {
        OutcomeView::Reached => HealthView {
            white_url_ok: Some(true),
            modem_online: Some(true),
            ..started
        },
        OutcomeView::Unreached => HealthView {
            white_url_ok: Some(false),
            modem_online: Some(false),
            ..started
        },
        OutcomeView::Failed(reason) => HealthView {
            white_url_ok: Some(false),
            modem_online: Some(false),
            last_error: Some(reason),
            ..started
        },
    }
}

/// What is known of a modem once the other page has been probed too, which
/// tells whether its network lets only some pages pass.
pub open spec fn after_gray(state: HealthView, gray: OutcomeView) -> HealthView {
    match gray {
        OutcomeView::Reached => HealthView {
            gray_url_ok: Some(true),
            whitelist_mode: false,
            ..state
        },
        OutcomeView::Unreached => HealthView {
            gray_url_ok: Some(false),
            whitelist_mode: true,
            ..state
        },
        OutcomeView::Failed(reason) => HealthView {
            gray_url_ok: Some(false),
            whitelist_mode: true,
            last_error: Some(reason),
            ..state
        },
    }
}

/// What is known of a modem once the first page has been probed, and whether
/// the other page is still to be probed.
pub fn check_white(modem: &ModemConfig, now: Timestamp, white: &ProbeOutcome) -> (result: (
    ModemHealthState,
    bool,
))
    ensures
        result.0@ == after_white(modem@, now, white@),
        result.1 == (white@ is Reached),
{
    let mut state = ModemHealthState::pending(modem, None);
    state.last_check = Some(now);
    match white {
        ProbeOutcome::Reached => {
            state.white_url_ok = Some(true);
            state.modem_online = Some(true);
            (state, true)
        },
        ProbeOutcome::Unreached => {
            state.white_url_ok = Some(false);
            state.modem_online = Some(false);
            (state, false)
        },
        ProbeOutcome::Failed(reason) => {
            state.white_url_ok = Some(false);
            state.modem_online = Some(false);
            state.last_error = Some(reason.clone());
            (state, false)
        },
    }
}

/// What is known of a modem once the other page has been probed too.
pub fn check_gray(state: ModemHealthState, gray: &ProbeOutcome) -> (result: ModemHealthState)
    ensures
        result@ == after_gray(state@, gray@),
{
    let mut state = state;
    match gray {
        ProbeOutcome::Reached => {
            state.gray_url_ok = Some(true);
            state.whitelist_mode = false;
        },
        ProbeOutcome::Unreached => {
            state.gray_url_ok = Some(false);
            state.whitelist_mode = true;
        },
        ProbeOutcome::Failed(reason) => {
            state.gray_url_ok = Some(false);
            state.whitelist_mode = true;
            state.last_error = Some(reason.clone());
        },
    }
    state
}

/// What is known of a modem while its connection is being checked.
pub open spec fn checking(
    states: Map<Seq<char>, HealthView>,
    modem: ModemView,
    next_check: Option<Timestamp>,
) -> HealthView {
    let known = if states.contains_key(modem.modem_tag) {
        states[modem.modem_tag]
    } else {
        unchecked(modem, next_check)
    };
    HealthView {
        modem_interface: modem.modem_interface,
        check_in_progress: true,
        next_check,
        last_error: None,
        ..known
    }
}

/// Notes that the connection of a modem is being checked.
pub fn begin_check(
    states: &mut StrMap<ModemHealthState>,
    modem: &ModemConfig,
    next_check: Option<Timestamp>,
) -> (state: ModemHealthState)
    ensures
        state@ == checking(old(states)@, modem@, next_check),
        final(states)@ == old(states)@.insert(modem@.modem_tag, state@),
{
    let mut state = match states.remove(modem.modem_tag.as_str()) {
        Some(state) => state,
        None => ModemHealthState::pending(modem, next_check),
    };
    state.modem_interface = modem.modem_interface.clone();
    state.check_in_progress = true;
    state.next_check = next_check;
    state.last_error = None;
    states.insert(modem.modem_tag.clone(), state.duplicate());
    assert(states@ =~= old(states)@.insert(modem@.modem_tag, state@));
    state
}

/// What is known of a modem when its check is over.
pub open spec fn checked(state: HealthView, next_check: Option<Timestamp>) -> HealthView {
    HealthView { next_check, check_in_progress: false, ..state }
}

/// Notes what a check of a modem found.
pub fn finish_check(
    states: &mut StrMap<ModemHealthState>,
    modem: &ModemConfig,
    state: ModemHealthState,
    next_check: Option<Timestamp>,
) -> (result: ModemHealthState)
    ensures
        result@ == checked(state@, next_check),
        final(states)@ == old(states)@.insert(modem@.modem_tag, result@),
{
    let mut state = state;
    state.next_check = next_check;
    state.check_in_progress = false;
    states.insert(modem.modem_tag.clone(), state.duplicate());
    state
}

/// How many checks may run at once: as many as tunnels, but no more than there
/// are modems, and at least one.
pub open spec fn check_limit(max_concurrent_tunnels: nat, modems: nat) -> nat {
    let tunnels = if max_concurrent_tunnels < 1 {
        1
    } else {
        max_concurrent_tunnels
    };
    let most = if modems < 1 {
        1
    } else {
        modems
    };
    if tunnels < most {
        tunnels
    } else {
        most
    }
}

/// How many checks may run at once.
pub fn concurrent_checks(max_concurrent_tunnels: usize, modems: usize) -> (limit: usize)
    ensures
        limit == check_limit(max_concurrent_tunnels as nat, modems as nat),
{
    let tunnels: usize = if max_concurrent_tunnels < 1 {
        1
    } else {
        max_concurrent_tunnels
    };
    let most: usize = if modems < 1 {
        1
    } else {
        modems
    };
    if tunnels < most {
        tunnels
    } else {
        most
    }
}

// ---------------------------------------------------------------------------
// Keeping up with the settings
// ---------------------------------------------------------------------------

/// Modems whose connections have not been checked, by their tags.
pub open spec fn unchecked_modems(
    modems: Seq<ModemView>,
    next_check: Option<Timestamp>,
) -> Map<Seq<char>, HealthView>
    decreases modems.len(),
{
    if modems.len() == 0 {
        Map::empty()
    } else {
        unchecked_modems(modems.drop_last(), next_check).insert(
            modems.last().modem_tag,
            unchecked(modems.last(), next_check),
        )
    }
}

/// Modems whose connections have not been checked, by their tags.
pub fn initial_health_state(modems: &Vec<ModemConfig>, next_check: Option<Timestamp>) -> (states:
    StrMap<ModemHealthState>)
    ensures
        states@ == unchecked_modems(items::views(modems@), next_check),
{
    let ghost all = items::views(modems@);
    let mut states: StrMap<ModemHealthState> = StrMap::new();
    let mut i: usize = 0;
    assert(all.take(0) =~= Seq::empty());
    while i < modems.len()
        invariant
            i <= modems@.len(),
            all == items::views(modems@),
            states@ == unchecked_modems(all.take(i as int), next_check),
        decreases modems@.len() - i,
    {
        assert(all.take(i + 1).drop_last() =~= all.take(i as int));
        assert(all.take(i + 1).last() == modems@[i as int]@);
        states.insert(
            modems[i].modem_tag.clone(),
            ModemHealthState::pending(&modems[i], next_check),
        );
        i = i + 1;
    }
    assert(all.take(i as int) =~= all);
    states
}

/// What is known of a modem, under the interface and the next check that it has
/// now.
pub open spec fn kept_health(
    map: Map<Seq<char>, HealthView>,
    modem: ModemView,
    next_check: Option<Timestamp>,
) -> HealthView {
    if map.contains_key(modem.modem_tag) {
        HealthView {
            modem_interface: modem.modem_interface,
            next_check,
            ..map[modem.modem_tag]
        }
    } else {
        unchecked(modem, next_check)
    }
}

/// A map with an entry for each modem.
pub open spec fn with_modems(
    map: Map<Seq<char>, HealthView>,
    modems: Seq<ModemView>,
    next_check: Option<Timestamp>,
) -> Map<Seq<char>, HealthView>
    decreases modems.len(),
{
    if modems.len() == 0 {
        map
    } else {
        let earlier = with_modems(map, modems.drop_last(), next_check);
        earlier.insert(modems.last().modem_tag, kept_health(earlier, modems.last(), next_check))
    }
}

/// What is known of the modems that are configured.
pub open spec fn synced_health(
    map: Map<Seq<char>, HealthView>,
    modems: Seq<ModemView>,
    next_check: Option<Timestamp>,
) -> Map<Seq<char>, HealthView> {
    with_modems(cache::configured_entries(map, modems), modems, next_check)
}

/// Forgets the modems that are not configured and adds those that are new.
pub fn sync_health(
    states: &mut StrMap<ModemHealthState>,
    modems: &Vec<ModemConfig>,
    next_check: Option<Timestamp>,
)
    ensures
        final(states)@ == synced_health(old(states)@, items::views(modems@), next_check),
{
    let ghost all = items::views(modems@);
    cache::retain_configured(states, modems);
    let ghost start = states@;
    let mut i: usize = 0;
    assert(all.take(0) =~= Seq::empty());
    while i < modems.len()
        invariant
            i <= modems@.len(),
            all == items::views(modems@),
            states@ == with_modems(start, all.take(i as int), next_check),
        decreases modems@.len() - i,
    {
        let ghost before = states@;
        assert(all.take(i + 1).drop_last() =~= all.take(i as int));
        assert(all.take(i + 1).last() == modems@[i as int]@);
        let state = match states.remove(modems[i].modem_tag.as_str()) {
            Some(state) => {
                let mut state = state;
                state.modem_interface = modems[i].modem_interface.clone();
                state.next_check = next_check;
                state
            },
            None => ModemHealthState::pending(&modems[i], next_check),
        };
        states.insert(modems[i].modem_tag.clone(), state);
        assert(states@ =~= before.insert(
            modems@[i as int]@.modem_tag,
            kept_health(before, modems@[i as int]@, next_check),
        ));
        i = i + 1;
    }
    assert(all.take(i as int) =~= all);
}

// ---------------------------------------------------------------------------
// Laws
// ---------------------------------------------------------------------------

/// A check says that a modem is online just where its first page was reached,
/// and speaks of the other page and of a list of pages just then.
pub proof fn law_check_is_consistent(
    modem: ModemView,
    now: Timestamp,
    white: OutcomeView,
    gray: OutcomeView,
)
    ensures
        after_white(modem, now, white).modem_online == Some(white is Reached),
        after_white(modem, now, white).white_url_ok == Some(white is Reached),
        after_white(modem, now, white).gray_url_ok is None,
        !after_white(modem, now, white).whitelist_mode,
        after_gray(after_white(modem, now, white), gray).gray_url_ok == Some(gray is Reached),
        after_gray(after_white(modem, now, white), gray).whitelist_mode == !(gray is Reached),
        after_gray(after_white(modem, now, white), gray).modem_online == after_white(
            modem,
            now,
            white,
        ).modem_online,
{
}

/// After keeping up with the settings the modems that are known are those that
/// are configured.
pub proof fn law_known_are_configured(
    map: Map<Seq<char>, HealthView>,
    modems: Seq<ModemView>,
    next_check: Option<Timestamp>,
    tag: Seq<char>,
)
    ensures
        synced_health(map, modems, next_check).contains_key(tag) <==> config::has_tag(
            modems,
            tag,
        ),
{
    lemma_with_modems(cache::configured_entries(map, modems), modems, next_check, tag);
}

/// The entries of a map with an entry for each modem.
proof fn lemma_with_modems(
    map: Map<Seq<char>, HealthView>,
    modems: Seq<ModemView>,
    next_check: Option<Timestamp>,
    tag: Seq<char>,
)
    ensures
        with_modems(map, modems, next_check).contains_key(tag) <==> map.contains_key(tag)
            || config::has_tag(modems, tag),
    decreases modems.len(),
{
    if modems.len() > 0 {
        let earlier = modems.drop_last();
        lemma_with_modems(map, earlier, next_check, tag);
        if config::has_tag(modems, tag) && tag != modems.last().modem_tag {
            let i = choose|i: int| 0 <= i < modems.len() && (#[trigger] modems[i]).modem_tag == tag;
            assert(earlier[i] == modems[i]);
        }
        if config::has_tag(earlier, tag) {
            let i = choose|i: int|
                0 <= i < earlier.len() && (#[trigger] earlier[i]).modem_tag == tag;
            assert(modems[i] == earlier[i]);
        }
        if tag == modems.last().modem_tag {
            assert(modems[modems.len() - 1].modem_tag == tag);
        }
    }
}

/// At least one check may run, and no more than there are tunnels or modems.
pub proof fn law_check_limit(max_concurrent_tunnels: nat, modems: nat)
    ensures
        check_limit(max_concurrent_tunnels, modems) >= 1,
        max_concurrent_tunnels >= 1 ==> check_limit(max_concurrent_tunnels, modems)
            <= max_concurrent_tunnels,
        modems >= 1 ==> check_limit(max_concurrent_tunnels, modems) <= modems,
{
}

} // verus!
