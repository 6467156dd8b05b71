//! What the last update found for each modem.

use vstd::prelude::*;
use vstd::string::*;

use crate::clock::Timestamp;
use crate::config;
use crate::config::{ModemConfig, ModemView, SUBSCRIPTION_CACHE_SCHEMA_VERSION};
use crate::failure;
use crate::failure::Failure;
use crate::items;
use crate::items::Duplicate;
use crate::node::{Node, NodeView};
use crate::strmap;
use crate::strmap::StrMap;
use crate::text;

verus! {

// ---------------------------------------------------------------------------
// Types
// ---------------------------------------------------------------------------

/// What an update found for a modem.
#[derive(Debug)]
pub struct ModemCacheEntry {
    pub modem_tag: String,
    pub modem_interface: String,
    pub last_update: Timestamp,
    pub nodes_after_ping: usize,
    pub nodes_after_tunnel: usize,
    pub nodes: Vec<Node>,
}

/// The mathematical form of what an update found for a modem.
pub struct EntryView {
    pub modem_tag: Seq<char>,
    pub modem_interface: Seq<char>,
    pub last_update: Timestamp,
    pub nodes_after_ping: usize,
    pub nodes_after_tunnel: usize,
    pub nodes: Seq<NodeView>,
}

impl View for ModemCacheEntry {
    type V = EntryView;

    open spec fn view(&self) -> EntryView {
        EntryView {
            modem_tag: self.modem_tag@,
            modem_interface: self.modem_interface@,
            last_update: self.last_update,
            nodes_after_ping: self.nodes_after_ping,
            nodes_after_tunnel: self.nodes_after_tunnel,
            nodes: items::views(self.nodes@),
        }
    }
}

impl Duplicate for ModemCacheEntry {
    fn duplicate(&self) -> (copy: Self) {
        ModemCacheEntry {
            modem_tag: self.modem_tag.clone(),
            modem_interface: self.modem_interface.clone(),
            last_update: self.last_update,
            nodes_after_ping: self.nodes_after_ping,
            nodes_after_tunnel: self.nodes_after_tunnel,
            nodes: items::duplicate_all(&self.nodes),
        }
    }
}

impl Clone for ModemCacheEntry {
    fn clone(&self) -> (copy: Self)
        ensures
            copy@ == self@,
    {
        self.duplicate()
    }
}

/// What the last update found, by the tags of the modems.
#[derive(Debug)]
pub struct SubscriptionCache {
    pub schema_version: u32,
    pub last_update: Timestamp,
    pub nodes_total: usize,
    pub nodes_after_dedup: usize,
    pub nodes_after_ping: Option<usize>,
    pub by_modem: StrMap<ModemCacheEntry>,
}

/// The mathematical form of what the last update found.
pub struct CacheView {
    pub schema_version: u32,
    pub last_update: Timestamp,
    pub nodes_total: usize,
    pub nodes_after_dedup: usize,
    pub nodes_after_ping: Option<usize>,
    pub by_modem: Map<Seq<char>, EntryView>,
}

impl View for SubscriptionCache {
    type V = CacheView;

    open spec fn view(&self) -> CacheView {
        CacheView {
            schema_version: self.schema_version,
            last_update: self.last_update,
            nodes_total: self.nodes_total,
            nodes_after_dedup: self.nodes_after_dedup,
            nodes_after_ping: self.nodes_after_ping,
            by_modem: self.by_modem@,
        }
    }
}

impl Duplicate for SubscriptionCache {
    fn duplicate(&self) -> (copy: Self) {
        SubscriptionCache {
            schema_version: self.schema_version,
            last_update: self.last_update,
            nodes_total: self.nodes_total,
            nodes_after_dedup: self.nodes_after_dedup,
            nodes_after_ping: self.nodes_after_ping,
            by_modem: self.by_modem.duplicate(),
        }
    }
}

impl Clone for SubscriptionCache {
    fn clone(&self) -> (copy: Self)
        ensures
            copy@ == self@,
    {
        self.duplicate()
    }
}

// ---------------------------------------------------------------------------
// Entries of configured modems
// ---------------------------------------------------------------------------

/// The entries of a map whose keys are tags of modems.
pub open spec fn configured_entries<T>(
    map: Map<Seq<char>, T>,
    modems: Seq<ModemView>,
) -> Map<Seq<char>, T> {
    Map::new(
        |tag: Seq<char>| map.contains_key(tag) && config::has_tag(modems, tag),
        |tag: Seq<char>| map[tag],
    )
}

/// Takes every entry out of `map` whose key is no tag of a modem.
pub fn retain_configured<V: View>(map: &mut StrMap<V>, modems: &Vec<ModemConfig>)
    ensures
        final(map)@ == configured_entries(old(map)@, items::views(modems@)),
{
    let ghost start = map@;
    let ghost pairs = strmap::ordered_pairs(start);
    let ghost tags = items::views(modems@);
    let count = map.len();
    let mut keys: Vec<String> = Vec::new();
    let mut i: usize = 0;
    while i < count
        invariant
            i <= count,
            count == pairs.len(),
            map@ == start,
            pairs == strmap::ordered_pairs(start),
            keys@.len() == i,
            forall|j: int| 0 <= j < i ==> (#[trigger] keys@[j])@ == pairs[j].0,
        decreases count - i,
    {
        keys.push(map.key_at(i).clone());
        i = i + 1;
    }
    let mut k: usize = 0;
    while k < keys.len()
        invariant
            k <= keys@.len(),
            keys@.len() == pairs.len(),
            tags == items::views(modems@),
            forall|j: int| 0 <= j < keys@.len() ==> (#[trigger] keys@[j])@ == pairs[j].0,
            forall|tag: Seq<char>|
                #![trigger map@.contains_key(tag)]
                map@.contains_key(tag) ==> start.contains_key(tag) && map@[tag] == start[tag],
            forall|tag: Seq<char>|
                #![trigger map@.contains_key(tag)]
                start.contains_key(tag) && config::has_tag(tags, tag) ==> map@.contains_key(tag),
            forall|j: int|
                0 <= j < k && !config::has_tag(tags, (#[trigger] pairs[j]).0) ==> !map@.contains_key(
                    pairs[j].0,
                ),
        decreases keys@.len() - k,
    {
        assert(keys@[k as int]@ == pairs[k as int].0);
        if !config::is_configured(modems, keys[k].as_str()) {
            map.remove(keys[k].as_str());
        }
        k = k + 1;
    }
    proof {
        assert forall|tag: Seq<char>| #[trigger] map@.contains_key(tag) implies config::has_tag(
            tags,
            tag,
        ) by {
            strmap::lemma_pair_map_keys(pairs, tag);
            let j = choose|j: int| 0 <= j < pairs.len() && (#[trigger] pairs[j]).0 == tag;
            assert(pairs[j].0 == tag);
        }
        assert(map@ =~= configured_entries(start, tags));
    }
}

// ---------------------------------------------------------------------------
// The cache
// ---------------------------------------------------------------------------

/// Whether every entry stands under its own tag; the message names the first
/// that does not.
pub open spec fn entries_verdict(pairs: Seq<(Seq<char>, EntryView)>) -> Result<(), Seq<char>>
    decreases pairs.len(),
{
    if pairs.len() == 0 {
        Ok(())
    } else {
        match entries_verdict(pairs.drop_last()) {
            Err(message) => Err(message),
            Ok(_) => if pairs.last().0 != pairs.last().1.modem_tag {
                Err(
                    "cache by_modem key "@ + pairs.last().0 + " does not match entry modem_tag"@,
                )
            } else {
                Ok(())
            },
        }
    }
}

/// Whether a cache is valid: of the right version, and every entry under its
/// own tag.
pub open spec fn cache_verdict(cache: CacheView) -> Result<(), Seq<char>> {
    if cache.schema_version != SUBSCRIPTION_CACHE_SCHEMA_VERSION {
        Err(
            "unsupported cache schema_version "@ + text::decimal(cache.schema_version as nat)
                + ", expected "@ + text::decimal(SUBSCRIPTION_CACHE_SCHEMA_VERSION as nat),
        )
    } else {
        entries_verdict(strmap::ordered_pairs(cache.by_modem))
    }
}

/// A cache without entries.
pub open spec fn empty_cache(
    now: Timestamp,
    nodes_total: usize,
    nodes_after_dedup: usize,
    nodes_after_ping: usize,
) -> CacheView {
    CacheView {
        schema_version: SUBSCRIPTION_CACHE_SCHEMA_VERSION,
        last_update: now,
        nodes_total,
        nodes_after_dedup,
        nodes_after_ping: Some(nodes_after_ping),
        by_modem: Map::empty(),
    }
}

/// What is wrong with the first entries is wrong with all of them.
proof fn lemma_entries_verdict_stays(pairs: Seq<(Seq<char>, EntryView)>, count: int)
    requires
        0 <= count <= pairs.len(),
        entries_verdict(pairs.take(count)) is Err,
    ensures
        entries_verdict(pairs) == entries_verdict(pairs.take(count)),
    decreases pairs.len(),
{
    if count == pairs.len() {
        assert(pairs.take(count) =~= pairs);
    } else {
        assert(pairs.drop_last().take(count) =~= pairs.take(count));
        lemma_entries_verdict_stays(pairs.drop_last(), count);
    }
}

impl SubscriptionCache {
    /// A cache without entries.
    pub fn empty(
        now: Timestamp,
        nodes_total: usize,
        nodes_after_dedup: usize,
        nodes_after_ping: usize,
    ) -> (cache: Self)
        ensures
            cache@ == empty_cache(now, nodes_total, nodes_after_dedup, nodes_after_ping),
    {
        SubscriptionCache {
            schema_version: SUBSCRIPTION_CACHE_SCHEMA_VERSION,
            last_update: now,
            nodes_total,
            nodes_after_dedup,
            nodes_after_ping: Some(nodes_after_ping),
            by_modem: StrMap::new(),
        }
    }

    /// Whether the cache is valid.
    pub fn validate(&self) -> (result: Result<(), Failure>)
        ensures
            failure::refusal(result) == cache_verdict(self@),
    {
        if self.schema_version != SUBSCRIPTION_CACHE_SCHEMA_VERSION {
            let mut message = "unsupported cache schema_version ".to_string();
            message.append(text::decimal_text(self.schema_version as u64).as_str());
            message.append(", expected ");
            message.append(text::decimal_text(SUBSCRIPTION_CACHE_SCHEMA_VERSION as u64).as_str());
            return Err(Failure::new(message));
        }
        let ghost pairs = strmap::ordered_pairs(self.by_modem@);
        let count = self.by_modem.len();
        let mut i: usize = 0;
        assert(pairs.take(0) =~= Seq::empty());
        while i < count
            invariant
                i <= count,
                count == pairs.len(),
                pairs == strmap::ordered_pairs(self.by_modem@),
                self.schema_version == SUBSCRIPTION_CACHE_SCHEMA_VERSION,
                entries_verdict(pairs.take(i as int)) is Ok,
            decreases count - i,
        {
            let ghost seen = pairs.take(i + 1);
            assert(seen.drop_last() =~= pairs.take(i as int));
            let tag = self.by_modem.key_at(i);
            let entry = self.by_modem.value_at(i);
            if !text::same_text(tag.as_str(), entry.modem_tag.as_str()) {
                let mut message = "cache by_modem key ".to_string();
                message.append(tag.as_str());
                message.append(" does not match entry modem_tag");
                proof {
                    lemma_entries_verdict_stays(pairs, i + 1);
                }
                return Err(Failure::new(message));
            }
            i = i + 1;
        }
        assert(pairs.take(i as int) =~= pairs);
        Ok(())
    }

    /// Takes out the entries of modems that are not configured.
    pub fn retain_configured_modems(&mut self, modems: &Vec<ModemConfig>)
        ensures
            final(self)@ == (CacheView {
                by_modem: configured_entries(old(self)@.by_modem, items::views(modems@)),
                ..old(self)@
            }),
    {
        retain_configured(&mut self.by_modem, modems);
    }
}

/// A cache that was read from a file, if it is valid.
pub fn accept_cache(cache: SubscriptionCache) -> (result: Option<SubscriptionCache>)
    ensures
        cache_view(result) == if cache_verdict(cache@) is Ok {
            Some(cache@)
        } else {
            None
        },
{
    match cache.validate() {
        Ok(_) => Some(cache),
        Err(_) => None,
    }
}

// ---------------------------------------------------------------------------
// The cache after an update
// ---------------------------------------------------------------------------

/// The entry that a modem has after an update: what the update found, under
/// the interface that the modem has now; else what was there before.
pub open spec fn entry_after(
    modem: ModemView,
    found: Map<Seq<char>, EntryView>,
    before: Map<Seq<char>, EntryView>,
) -> Option<EntryView> {
    if found.contains_key(modem.modem_tag) {
        Some(
            EntryView { modem_interface: modem.modem_interface, ..found[modem.modem_tag] },
        )
    } else if before.contains_key(modem.modem_tag) {
        Some(before[modem.modem_tag])
    } else {
        None
    }
}

/// The entries after an update, modem by modem: what an update found for a tag
/// goes to the first modem with it.
pub open spec fn entries_after(
    modems: Seq<ModemView>,
    found: Map<Seq<char>, EntryView>,
    before: Map<Seq<char>, EntryView>,
) -> Map<Seq<char>, EntryView>
    decreases modems.len(),
{
    if modems.len() == 0 {
        Map::empty()
    } else {
        let earlier = entries_after(modems.drop_last(), found, before);
        let modem = modems.last();
        let left = if config::has_tag(modems.drop_last(), modem.modem_tag) {
            found.remove(modem.modem_tag)
        } else {
            found
        };
        match entry_after(modem, left, before) {
            Some(entry) => earlier.insert(modem.modem_tag, entry),
            None => earlier,
        }
    }
}

/// The entries that a cache holds, none where there is no cache.
pub open spec fn cached_entries(cache: Option<SubscriptionCache>) -> Map<Seq<char>, EntryView> {
    match cache {
        Some(cache) => cache.by_modem@,
        None => Map::empty(),
    }
}

/// A copy of the entry of a modem.
fn copy_entry(cache: &Option<SubscriptionCache>, tag: &str) -> (entry: Option<ModemCacheEntry>)
    ensures
        match entry {
            Some(entry) => cached_entries(*cache).contains_key(tag@) && entry@ == cached_entries(
                *cache,
            )[tag@],
            None => !cached_entries(*cache).contains_key(tag@),
        },
{
    match cache {
        Some(cache) => match cache.by_modem.get(tag) {
            Some(entry) => Some(entry.duplicate()),
            None => None,
        },
        None => None,
    }
}

/// What was found and is still to be handed out.
spec fn still_found(
    found: Map<Seq<char>, EntryView>,
    modems: Seq<ModemView>,
) -> Map<Seq<char>, EntryView> {
    Map::new(
        |tag: Seq<char>| found.contains_key(tag) && !config::has_tag(modems, tag),
        |tag: Seq<char>| found[tag],
    )
}

/// The entries after an update.
pub fn merge_entries(
    modems: &Vec<ModemConfig>,
    found: StrMap<ModemCacheEntry>,
    before: &Option<SubscriptionCache>,
) -> (entries: StrMap<ModemCacheEntry>)
    ensures
        entries@ == entries_after(items::views(modems@), found@, cached_entries(*before)),
{
    let ghost all = items::views(modems@);
    let ghost start = found@;
    let ghost old_entries = cached_entries(*before);
    let mut by_modem: StrMap<ModemCacheEntry> = StrMap::new();
    let mut left = found;
    let mut i: usize = 0;
    assert(all.take(0) =~= Seq::empty());
    assert(still_found(start, all.take(0)) =~= left@);
    while i < modems.len()
        invariant
            i <= modems@.len(),
            all == items::views(modems@),
            old_entries == cached_entries(*before),
            by_modem@ == entries_after(all.take(i as int), start, old_entries),
            left@ == still_found(start, all.take(i as int)),
        decreases modems@.len() - i,
    {
        let ghost seen = all.take(i + 1);
        let ghost done = all.take(i as int);
        assert(seen.drop_last() =~= done);
        assert(seen.last() == modems@[i as int]@);
        let tag = modems[i].modem_tag.as_str();
        proof {
            assert forall|other: Seq<char>| config::has_tag(seen, other) <==> (config::has_tag(
                done,
                other,
            ) || other == tag@) by {
                if config::has_tag(seen, other) && other != tag@ {
                    let j = choose|j: int|
                        0 <= j < seen.len() && (#[trigger] seen[j]).modem_tag == other;
                    assert(done[j] == seen[j]);
                }
                if config::has_tag(done, other) {
                    let j = choose|j: int|
                        0 <= j < done.len() && (#[trigger] done[j]).modem_tag == other;
                    assert(seen[j] == done[j]);
                }
                if other == tag@ {
                    assert(seen[seen.len() - 1].modem_tag == other);
                }
            }
        }
        match left.remove(tag) {
            Some(entry) => {
                let mut entry = entry;
                entry.modem_interface = modems[i].modem_interface.clone();
                by_modem.insert(tag.to_string(), entry);
            },
            None => match copy_entry(before, tag) {
                Some(entry) => by_modem.insert(tag.to_string(), entry),
                None => {},
            },
        }
        assert(left@ =~= still_found(start, seen));
        i = i + 1;
    }
    assert(all.take(i as int) =~= all);
    by_modem
}

// ---------------------------------------------------------------------------
// Totals
// ---------------------------------------------------------------------------

/// The nodes that passed the tunnel probes, over all entries.
pub open spec fn tunnel_total(pairs: Seq<(Seq<char>, EntryView)>) -> nat
    decreases pairs.len(),
{
    if pairs.len() == 0 {
        0
    } else {
        tunnel_total(pairs.drop_last()) + pairs.last().1.nodes_after_tunnel as nat
    }
}

/// The nodes that passed the pings, over all entries.
pub open spec fn ping_total(pairs: Seq<(Seq<char>, EntryView)>) -> nat
    decreases pairs.len(),
{
    if pairs.len() == 0 {
        0
    } else {
        ping_total(pairs.drop_last()) + pairs.last().1.nodes_after_ping as nat
    }
}

/// More entries have no smaller totals.
proof fn lemma_totals_grow(pairs: Seq<(Seq<char>, EntryView)>, count: int)
    requires
        0 <= count <= pairs.len(),
    ensures
        tunnel_total(pairs.take(count)) <= tunnel_total(pairs),
        ping_total(pairs.take(count)) <= ping_total(pairs),
    decreases pairs.len(),
{
    if count == pairs.len() {
        assert(pairs.take(count) =~= pairs);
    } else {
        assert(pairs.drop_last().take(count) =~= pairs.take(count));
        lemma_totals_grow(pairs.drop_last(), count);
    }
}

/// The nodes that passed the tunnel probes, over all entries, where that number
/// can be held.
pub fn total_after_tunnel(entries: &StrMap<ModemCacheEntry>) -> (total: Option<usize>)
    ensures
        total == if tunnel_total(strmap::ordered_pairs(entries@)) <= usize::MAX {
            Some(tunnel_total(strmap::ordered_pairs(entries@)) as usize)
        } else {
            None
        },
{
    let ghost pairs = strmap::ordered_pairs(entries@);
    let count = entries.len();
    let mut total: usize = 0;
    let mut i: usize = 0;
    assert(pairs.take(0) =~= Seq::empty());
    while i < count
        invariant
            i <= count,
            count == pairs.len(),
            pairs == strmap::ordered_pairs(entries@),
            total == tunnel_total(pairs.take(i as int)),
        decreases count - i,
    {
        assert(pairs.take(i + 1).drop_last() =~= pairs.take(i as int));
        proof {
            lemma_totals_grow(pairs, i + 1);
        }
        match total.checked_add(entries.value_at(i).nodes_after_tunnel) {
            Some(sum) => {
                total = sum;
            },
            None => {
                return None;
            },
        }
        i = i + 1;
    }
    assert(pairs.take(i as int) =~= pairs);
    Some(total)
}

/// The nodes that passed the pings, over all entries, where that number can be
/// held.
pub fn total_after_ping(entries: &StrMap<ModemCacheEntry>) -> (total: Option<usize>)
    ensures
        total == if ping_total(strmap::ordered_pairs(entries@)) <= usize::MAX {
            Some(ping_total(strmap::ordered_pairs(entries@)) as usize)
        } else {
            None
        },
{
    let ghost pairs = strmap::ordered_pairs(entries@);
    let count = entries.len();
    let mut total: usize = 0;
    let mut i: usize = 0;
    assert(pairs.take(0) =~= Seq::empty());
    while i < count
        invariant
            i <= count,
            count == pairs.len(),
            pairs == strmap::ordered_pairs(entries@),
            total == ping_total(pairs.take(i as int)),
        decreases count - i,
    {
        assert(pairs.take(i + 1).drop_last() =~= pairs.take(i as int));
        proof {
            lemma_totals_grow(pairs, i + 1);
        }
        match total.checked_add(entries.value_at(i).nodes_after_ping) {
            Some(sum) => {
                total = sum;
            },
            None => {
                return None;
            },
        }
        i = i + 1;
    }
    assert(pairs.take(i as int) =~= pairs);
    Some(total)
}

/// The cache after an update; none where the number of nodes that passed the
/// pings cannot be held.
pub open spec fn cache_after(
    now: Timestamp,
    nodes_total: usize,
    nodes_after_dedup: usize,
    modems: Seq<ModemView>,
    found: Map<Seq<char>, EntryView>,
    before: Map<Seq<char>, EntryView>,
) -> Option<CacheView> {
    let entries = entries_after(modems, found, before);
    let pings = ping_total(strmap::ordered_pairs(entries));
    if pings <= usize::MAX {
        Some(
            CacheView {
                by_modem: entries,
                ..empty_cache(now, nodes_total, nodes_after_dedup, pings as usize)
            },
        )
    } else {
        None
    }
}

/// The view of an optional cache.
pub open spec fn cache_view(cache: Option<SubscriptionCache>) -> Option<CacheView> {
    match cache {
        Some(cache) => Some(cache@),
        None => None,
    }
}

/// The cache after an update.
pub fn next_cache(
    now: Timestamp,
    nodes_total: usize,
    nodes_after_dedup: usize,
    modems: &Vec<ModemConfig>,
    found: StrMap<ModemCacheEntry>,
    before: &Option<SubscriptionCache>,
) -> (cache: Option<SubscriptionCache>)
    ensures
        cache_view(cache) == cache_after(
            now,
            nodes_total,
            nodes_after_dedup,
            items::views(modems@),
            found@,
            cached_entries(*before),
        ),
{
    let entries = merge_entries(modems, found, before);
    match total_after_ping(&entries) {
        Some(pings) => {
            let mut cache = SubscriptionCache::empty(now, nodes_total, nodes_after_dedup, pings);
            cache.by_modem = entries;
            Some(cache)
        },
        None => None,
    }
}

// ---------------------------------------------------------------------------
// Laws
// ---------------------------------------------------------------------------

/// Whether every entry stands under its own tag.
pub open spec fn under_own_tags(entries: Map<Seq<char>, EntryView>) -> bool {
    forall|tag: Seq<char>| #[trigger]
        entries.contains_key(tag) ==> entries[tag].modem_tag == tag
}

/// Entries that stand under their own tags are valid.
proof fn lemma_entries_valid(pairs: Seq<(Seq<char>, EntryView)>)
    requires
        forall|i: int| 0 <= i < pairs.len() ==> (#[trigger] pairs[i]).0 == pairs[i].1.modem_tag,
    ensures
        entries_verdict(pairs) is Ok,
    decreases pairs.len(),
{
    if pairs.len() > 0 {
        let earlier = pairs.drop_last();
        assert forall|i: int| 0 <= i < earlier.len() implies (#[trigger] earlier[i]).0
            == earlier[i].1.modem_tag by {
            assert(earlier[i] == pairs[i]);
        }
        lemma_entries_valid(earlier);
        assert(pairs[pairs.len() - 1].0 == pairs[pairs.len() - 1].1.modem_tag);
    }
}

/// The entries after an update are finitely many and stand under their own
/// tags, if those that they are made of do.
proof fn lemma_entries_after_own_tags(
    modems: Seq<ModemView>,
    found: Map<Seq<char>, EntryView>,
    before: Map<Seq<char>, EntryView>,
)
    requires
        under_own_tags(found),
        under_own_tags(before),
    ensures
        entries_after(modems, found, before).dom().finite(),
        under_own_tags(entries_after(modems, found, before)),
    decreases modems.len(),
{
    if modems.len() > 0 {
        lemma_entries_after_own_tags(modems.drop_last(), found, before);
    }
}

/// A cache that an update makes is valid, if what the update found and the
/// cache before it stand under their own tags.
pub proof fn law_update_gives_valid_cache(
    now: Timestamp,
    nodes_total: usize,
    nodes_after_dedup: usize,
    modems: Seq<ModemView>,
    found: Map<Seq<char>, EntryView>,
    before: Map<Seq<char>, EntryView>,
)
    requires
        under_own_tags(found),
        under_own_tags(before),
    ensures
        cache_after(now, nodes_total, nodes_after_dedup, modems, found, before) matches Some(
            cache,
        ) ==> cache_verdict(cache) is Ok,
{
    let entries = entries_after(modems, found, before);
    let pairs = strmap::ordered_pairs(entries);
    lemma_entries_after_own_tags(modems, found, before);
    strmap::law_ordered_pairs_exist(entries);
    assert forall|i: int| 0 <= i < pairs.len() implies (#[trigger] pairs[i]).0
        == pairs[i].1.modem_tag by {
        strmap::lemma_pair_map_value(pairs, i);
    }
    lemma_entries_valid(pairs);
}


/// A cache holds entries of configured modems alone, once the others are taken
/// out, and taking them out again changes nothing.
pub proof fn law_retained_are_configured<T>(map: Map<Seq<char>, T>, modems: Seq<ModemView>)
    ensures
        forall|tag: Seq<char>| #[trigger]
            configured_entries(map, modems).contains_key(tag) ==> config::has_tag(modems, tag),
        configured_entries(configured_entries(map, modems), modems) == configured_entries(
            map,
            modems,
        ),
{
    assert(configured_entries(configured_entries(map, modems), modems) =~= configured_entries(
        map,
        modems,
    ));
}

/// After an update the entries are those of configured modems alone, and where
/// tags are distinct each modem has the entry that it is owed: the fresh one, or
/// else the one from before, so a failed modem loses nothing.
pub proof fn law_update_keeps_entries(
    modems: Seq<ModemView>,
    found: Map<Seq<char>, EntryView>,
    before: Map<Seq<char>, EntryView>,
    tag: Seq<char>,
)
    requires
        config::modems_verdict(modems) is Ok,
    ensures
        entries_after(modems, found, before).contains_key(tag) <==> config::has_tag(modems, tag)
            && (found.contains_key(tag) || before.contains_key(tag)),
        forall|i: int|
            0 <= i < modems.len() && (#[trigger] modems[i]).modem_tag == tag && entries_after(
                modems,
                found,
                before,
            ).contains_key(tag) ==> Some(entries_after(modems, found, before)[tag]) == entry_after(
                modems[i],
                found,
                before,
            ),
{
    config::law_valid_modems_are_distinct(modems);
    lemma_entries_after(modems, found, before, tag);
}

/// The entries after an update, where no tag occurs twice.
proof fn lemma_entries_after(
    modems: Seq<ModemView>,
    found: Map<Seq<char>, EntryView>,
    before: Map<Seq<char>, EntryView>,
    tag: Seq<char>,
)
    requires
        forall|i: int, j: int|
            0 <= i < j < modems.len() ==> (#[trigger] modems[i]).modem_tag != (
            #[trigger] modems[j]).modem_tag,
    ensures
        entries_after(modems, found, before).contains_key(tag) <==> config::has_tag(modems, tag)
            && (found.contains_key(tag) || before.contains_key(tag)),
        forall|i: int|
            0 <= i < modems.len() && (#[trigger] modems[i]).modem_tag == tag && entries_after(
                modems,
                found,
                before,
            ).contains_key(tag) ==> Some(entries_after(modems, found, before)[tag]) == entry_after(
                modems[i],
                found,
                before,
            ),
    decreases modems.len(),
{
    if modems.len() > 0 {
        let earlier = modems.drop_last();
        let last = modems.last();
        assert forall|i: int, j: int| 0 <= i < j < earlier.len() implies (
        #[trigger] earlier[i]).modem_tag != (#[trigger] earlier[j]).modem_tag by {
            assert(earlier[i] == modems[i] && earlier[j] == modems[j]);
        }
        lemma_entries_after(earlier, found, before, tag);
        assert(!config::has_tag(earlier, last.modem_tag)) by {
            if config::has_tag(earlier, last.modem_tag) {
                let i = choose|i: int|
                    0 <= i < earlier.len() && (#[trigger] earlier[i]).modem_tag == last.modem_tag;
                assert(modems[i] == earlier[i]);
                assert(modems[modems.len() - 1] == last);
            }
        }
        assert(config::has_tag(modems, tag) <==> (config::has_tag(earlier, tag) || tag
            == last.modem_tag)) by {
            if config::has_tag(modems, tag) && tag != last.modem_tag {
                let i = choose|i: int|
                    0 <= i < modems.len() && (#[trigger] modems[i]).modem_tag == tag;
                assert(earlier[i] == modems[i]);
            }
            if config::has_tag(earlier, tag) {
                let i = choose|i: int|
                    0 <= i < earlier.len() && (#[trigger] earlier[i]).modem_tag == tag;
                assert(modems[i] == earlier[i]);
            }
            if tag == last.modem_tag {
                assert(modems[modems.len() - 1].modem_tag == tag);
            }
        }
        assert forall|i: int|
            0 <= i < modems.len() && (#[trigger] modems[i]).modem_tag == tag && entries_after(
                modems,
                found,
                before,
            ).contains_key(tag) implies Some(entries_after(modems, found, before)[tag])
            == entry_after(modems[i], found, before) by {
            if i < earlier.len() {
                assert(earlier[i] == modems[i]);
                assert(modems[modems.len() - 1] == last);
                assert(tag != last.modem_tag);
            }
        }
    }
}

} // verus!
