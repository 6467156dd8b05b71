//! What is kept of the nodes that were found.

use vstd::prelude::*;
use vstd::string::*;

use crate::cache;
use crate::cache::{CacheView, EntryView};
use crate::clock::Timestamp;
use crate::config;
use crate::config::ModemView;
use crate::strmap;
use crate::text;

verus! {

/// After an update each modem with valid settings has the entry that was found
/// for it, under its interface, or else the entry it had, as it was; no other
/// entry stays.
pub proof fn law_entries_after_update(
    modems: Seq<ModemView>,
    found: Map<Seq<char>, EntryView>,
    before: Map<Seq<char>, EntryView>,
    i: int,
    other: Seq<char>,
)
    requires
        config::modems_verdict(modems) is Ok,
        0 <= i < modems.len(),
        forall|j: int| 0 <= j < modems.len() ==> (#[trigger] modems[j]).modem_tag != other,
    ensures
        ({
            let entries = cache::entries_after(modems, found, before);
            let tag = modems[i].modem_tag;
            let entry = entries[tag];
            &&& !entries.contains_key(other)
            &&& entries.contains_key(tag) <==> found.contains_key(tag) || before.contains_key(tag)
            &&& found.contains_key(tag) ==> {
                &&& entry.modem_tag == found[tag].modem_tag
                &&& entry.modem_interface == modems[i].modem_interface
                &&& entry.last_update == found[tag].last_update
                &&& entry.nodes_after_ping == found[tag].nodes_after_ping
                &&& entry.nodes_after_tunnel == found[tag].nodes_after_tunnel
                &&& entry.nodes == found[tag].nodes
            }
            &&& !found.contains_key(tag) && before.contains_key(tag) ==> entry == before[tag]
        }),
{
    cache::law_update_keeps_entries(modems, found, before, modems[i].modem_tag);
    cache::law_update_keeps_entries(modems, found, before, other);
    assert(config::has_tag(modems, modems[i].modem_tag));
}

/// Entries of modems that are no longer configured go, the others stay as they
/// are.
pub proof fn law_retained_entries<T>(
    entries: Map<Seq<char>, T>,
    modems: Seq<ModemView>,
    tag: Seq<char>,
)
    ensures
        strmap::value_of(cache::configured_entries(entries, modems), tag) == if exists|i: int|
            0 <= i < modems.len() && (#[trigger] modems[i]).modem_tag == tag {
            strmap::value_of(entries, tag)
        } else {
            None
        },
{
}

/// The totals of two lists of entries are the sums of those of the one and of the
/// other, and those of one entry are its own.
pub proof fn law_totals(
    first: Seq<(Seq<char>, EntryView)>,
    second: Seq<(Seq<char>, EntryView)>,
    pair: (Seq<char>, EntryView),
)
    ensures
        cache::ping_total(first + second) == cache::ping_total(first) + cache::ping_total(second),
        cache::tunnel_total(first + second) == cache::tunnel_total(first) + cache::tunnel_total(
            second,
        ),
        cache::ping_total(seq![pair]) == pair.1.nodes_after_ping,
        cache::tunnel_total(seq![pair]) == pair.1.nodes_after_tunnel,
        cache::ping_total(Seq::empty()) == 0,
        cache::tunnel_total(Seq::empty()) == 0,
    decreases second.len(),
{
    assert(seq![pair].drop_last() =~= Seq::empty());
    reveal_with_fuel(cache::ping_total, 2);
    reveal_with_fuel(cache::tunnel_total, 2);
    if second.len() == 0 {
        assert(first + second =~= first);
    } else {
        law_totals(first, second.drop_last(), pair);
        assert((first + second).drop_last() =~= first + second.drop_last());
        assert((first + second).last() == second.last());
    }
}

/// The cache that an update writes says when it was made, how many nodes were
/// read, how many were left after duplicates went, and how many answered over all
/// entries together.
pub proof fn law_cache_after_update(
    now: Timestamp,
    nodes_total: usize,
    nodes_after_dedup: usize,
    modems: Seq<ModemView>,
    found: Map<Seq<char>, EntryView>,
    before: Map<Seq<char>, EntryView>,
)
    ensures
        ({
            let entries = cache::entries_after(modems, found, before);
            let answered = cache::ping_total(strmap::ordered_pairs(entries));
            let written = cache::cache_after(
                now,
                nodes_total,
                nodes_after_dedup,
                modems,
                found,
                before,
            );
            &&& written is Some <==> answered <= usize::MAX
            &&& written matches Some(written) ==> {
                &&& written.schema_version == 1
                &&& written.last_update == now
                &&& written.nodes_total == nodes_total
                &&& written.nodes_after_dedup == nodes_after_dedup
                &&& written.nodes_after_ping == Some(answered as usize)
                &&& written.by_modem == entries
            }
        }),
{
}

/// A list of entries is accepted just where each is under its own tag.
proof fn lemma_entries(pairs: Seq<(Seq<char>, EntryView)>)
    ensures
        cache::entries_verdict(pairs) is Ok <==> forall|i: int|
            0 <= i < pairs.len() ==> (#[trigger] pairs[i]).0 == pairs[i].1.modem_tag,
    decreases pairs.len(),
{
    if pairs.len() > 0 {
        let less = pairs.drop_last();
        lemma_entries(less);
        assert(forall|i: int| 0 <= i < less.len() ==> less[i] == pairs[i]);
        assert(pairs[pairs.len() - 1] == pairs.last());
        if cache::entries_verdict(pairs) is Ok {
            assert forall|i: int| 0 <= i < pairs.len() implies (#[trigger] pairs[i]).0
                == pairs[i].1.modem_tag by {
                if i < less.len() {
                    assert(less[i].0 == less[i].1.modem_tag);
                }
            }
        } else if forall|i: int|
            0 <= i < pairs.len() ==> (#[trigger] pairs[i]).0 == pairs[i].1.modem_tag {
            assert forall|i: int| 0 <= i < less.len() implies (#[trigger] less[i]).0
                == less[i].1.modem_tag by {
                assert(pairs[i].0 == pairs[i].1.modem_tag);
            }
        }
    }
}

/// A stored cache is accepted just where its version is known and each entry is
/// under the tag of its modem; one of another version is refused for it.
pub proof fn law_valid_cache(stored: CacheView)
    requires
        stored.by_modem.dom().finite(),
    ensures
        cache::cache_verdict(stored) is Ok <==> stored.schema_version == 1 && forall|
            tag: Seq<char>,
        |
            stored.by_modem.contains_key(tag) ==> (#[trigger] stored.by_modem[tag]).modem_tag
                == tag,
        stored.schema_version != 1 ==> cache::cache_verdict(stored) == Err::<(), Seq<char>>(
            "unsupported cache schema_version "@ + text::decimal(stored.schema_version as nat)
                + ", expected "@ + text::decimal(1),
        ),
{
    let pairs = strmap::ordered_pairs(stored.by_modem);
    strmap::law_ordered_pairs_exist(stored.by_modem);
    lemma_entries(pairs);
    if cache::entries_verdict(pairs) is Ok {
        assert forall|tag: Seq<char>| stored.by_modem.contains_key(tag) implies (
        #[trigger] stored.by_modem[tag]).modem_tag == tag by {
            strmap::lemma_pair_map_keys(pairs, tag);
            let i = choose|i: int| 0 <= i < pairs.len() && (#[trigger] pairs[i]).0 == tag;
            strmap::lemma_pair_map_value(pairs, i);
        }
    }
    if forall|tag: Seq<char>|
        stored.by_modem.contains_key(tag) ==> (#[trigger] stored.by_modem[tag]).modem_tag == tag {
        assert forall|i: int| 0 <= i < pairs.len() implies (#[trigger] pairs[i]).0
            == pairs[i].1.modem_tag by {
            strmap::lemma_pair_map_value(pairs, i);
            strmap::lemma_pair_map_keys(pairs, pairs[i].0);
            assert(stored.by_modem[pairs[i].0].modem_tag == pairs[i].0);
        }
    }
}

} // verus!
