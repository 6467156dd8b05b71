//! A map with text keys, kept in key order.
//!
//! Keys are ordered as texts are: by the bytes of their UTF-8 form. The view
//! of a map is the mathematical map from keys to the views of the values, and
//! `ordered_pairs` lists the entries of such a map in key order.

use vstd::prelude::*;
use vstd::string::*;
use vstd::utf8::*;

use crate::codec;
use crate::items::Duplicate;
use crate::text;

verus! {

// ---------------------------------------------------------------------------
// The order of keys
// ---------------------------------------------------------------------------

/// Whether `a` comes before `b` in dictionary order.
pub open spec fn bytes_before(a: Seq<u8>, b: Seq<u8>) -> bool
    decreases a.len(),
{
    if b.len() == 0 {
        false
    } else if a.len() == 0 {
        true
    } else if a[0] != b[0] {
        a[0] < b[0]
    } else {
        bytes_before(a.skip(1), b.skip(1))
    }
}

/// Whether the text `a` comes before the text `b`.
pub open spec fn text_before(a: Seq<char>, b: Seq<char>) -> bool {
    bytes_before(encode_utf8(a), encode_utf8(b))
}

proof fn lemma_bytes_before_total(a: Seq<u8>, b: Seq<u8>)
    ensures
        !bytes_before(a, a),
        a != b ==> bytes_before(a, b) || bytes_before(b, a),
        bytes_before(a, b) ==> !bytes_before(b, a),
    decreases a.len(),
{
    if a.len() > 0 {
        lemma_bytes_before_total(a.skip(1), b.skip(1));
        if b.len() > 0 && a[0] == b[0] && a != b {
            if a.skip(1) == b.skip(1) {
                assert(a =~= seq![a[0]] + a.skip(1));
                assert(b =~= seq![b[0]] + b.skip(1));
            }
        }
    } else if b.len() == 0 {
        assert(a =~= b);
    }
}

proof fn lemma_bytes_before_transitive(a: Seq<u8>, b: Seq<u8>, c: Seq<u8>)
    requires
        bytes_before(a, b),
        bytes_before(b, c),
    ensures
        bytes_before(a, c),
    decreases a.len(),
{
    if a.len() > 0 && a[0] == b[0] && b[0] == c[0] {
        lemma_bytes_before_transitive(a.skip(1), b.skip(1), c.skip(1));
    }
}

/// The order of texts is total: of two texts one comes before the other, or
/// they are equal.
pub proof fn law_text_order_total(a: Seq<char>, b: Seq<char>)
    ensures
        !text_before(a, a),
        a != b ==> text_before(a, b) || text_before(b, a),
        text_before(a, b) ==> !text_before(b, a),
{
    encode_utf8_decode_utf8(a);
    encode_utf8_decode_utf8(b);
    lemma_bytes_before_total(encode_utf8(a), encode_utf8(b));
}

/// The order of texts is transitive.
pub proof fn law_text_order_transitive(a: Seq<char>, b: Seq<char>, c: Seq<char>)
    requires
        text_before(a, b),
        text_before(b, c),
    ensures
        text_before(a, c),
{
    lemma_bytes_before_transitive(encode_utf8(a), encode_utf8(b), encode_utf8(c));
}

/// Where one text stands with respect to another.
#[derive(Debug, Clone, Copy, PartialEq, Eq)]
pub enum Side {
    Before,
    Same,
    After,
}

/// Where `a` stands with respect to `b`.
pub fn side_of(a: &str, b: &str) -> (side: Side)
    ensures
        side is Before <==> text_before(a@, b@),
        side is Same <==> a@ == b@,
        side is After <==> text_before(b@, a@),
{
    let left = a.as_bytes();
    let right = b.as_bytes();
    let ghost whole_left = left@;
    let ghost whole_right = right@;
    proof {
        law_text_order_total(a@, b@);
        law_text_order_total(b@, a@);
        encode_utf8_decode_utf8(a@);
        encode_utf8_decode_utf8(b@);
    }
    let mut i: usize = 0;
    assert(left@.skip(0) =~= left@);
    assert(right@.skip(0) =~= right@);
    while i < left.len() && i < right.len()
        invariant
            i <= left@.len(),
            i <= right@.len(),
            left@ == encode_utf8(a@),
            right@ == encode_utf8(b@),
            forall|j: int| 0 <= j < i ==> left@[j] == right@[j],
            text_before(a@, b@) == bytes_before(left@.skip(i as int), right@.skip(i as int)),
            text_before(b@, a@) == bytes_before(right@.skip(i as int), left@.skip(i as int)),
            left@ == right@ <==> a@ == b@,
        decreases left@.len() - i,
    {
        let ghost l = left@.skip(i as int);
        let ghost r = right@.skip(i as int);
        assert(l[0] == left@[i as int]);
        assert(r[0] == right@[i as int]);
        if left[i] < right[i] {
            return Side::Before;
        }
        if left[i] > right[i] {
            return Side::After;
        }
        assert(l.skip(1) =~= left@.skip(i + 1));
        assert(r.skip(1) =~= right@.skip(i + 1));
        i = i + 1;
    }
    if i < right.len() {
        Side::Before
    } else if i < left.len() {
        Side::After
    } else {
        assert(left@ =~= right@);
        Side::Same
    }
}

// ---------------------------------------------------------------------------
// Entries in key order
// ---------------------------------------------------------------------------

/// Whether the keys of `pairs` strictly increase.
pub open spec fn strictly_ordered<T>(pairs: Seq<(Seq<char>, T)>) -> bool {
    forall|i: int, j: int|
        0 <= i < j < pairs.len() ==> text_before(#[trigger] pairs[i].0, #[trigger] pairs[j].0)
}

/// Ordered pairs stay ordered with one more, if its key is behind the last one.
pub proof fn lemma_one_more<T>(pairs: Seq<(Seq<char>, T)>, i: int)
    requires
        0 <= i < pairs.len(),
        strictly_ordered(pairs.take(i)),
        i > 0 ==> text_before(pairs[i - 1].0, pairs[i].0),
    ensures
        strictly_ordered(pairs.take(i + 1)),
{
    let more = pairs.take(i + 1);
    assert forall|a: int, b: int| 0 <= a < b < more.len() implies text_before(
        #[trigger] more[a].0,
        #[trigger] more[b].0,
    ) by {
        if b < i {
            assert(text_before(pairs.take(i)[a].0, pairs.take(i)[b].0));
        } else if a < i - 1 {
            assert(text_before(pairs.take(i)[a].0, pairs.take(i)[i - 1].0));
            law_text_order_transitive(pairs[a].0, pairs[i - 1].0, pairs[i].0);
        }
    }
}

/// The map that holds the entries of `pairs`; of two with one key, the later.
pub open spec fn pair_map<T>(pairs: Seq<(Seq<char>, T)>) -> Map<Seq<char>, T>
    decreases pairs.len(),
{
    if pairs.len() == 0 {
        Map::empty()
    } else {
        pair_map(pairs.drop_last()).insert(pairs.last().0, pairs.last().1)
    }
}

/// The entries of `map` in key order.
pub open spec fn ordered_pairs<T>(map: Map<Seq<char>, T>) -> Seq<(Seq<char>, T)> {
    choose|pairs: Seq<(Seq<char>, T)>| strictly_ordered(pairs) && pair_map(pairs) == map
}

/// The keys of a map made of `pairs` are those of `pairs`.
pub proof fn lemma_pair_map_keys<T>(pairs: Seq<(Seq<char>, T)>, key: Seq<char>)
    ensures
        pair_map(pairs).contains_key(key) <==> exists|i: int|
            0 <= i < pairs.len() && (#[trigger] pairs[i]).0 == key,
    decreases pairs.len(),
{
    if pairs.len() > 0 {
        let rest = pairs.drop_last();
        lemma_pair_map_keys(rest, key);
        if pair_map(pairs).contains_key(key) {
            if pairs.last().0 == key {
                assert(pairs[pairs.len() - 1].0 == key);
            } else {
                let i = choose|i: int| 0 <= i < rest.len() && (#[trigger] rest[i]).0 == key;
                assert(pairs[i].0 == key);
            }
        }
        if exists|i: int| 0 <= i < pairs.len() && (#[trigger] pairs[i]).0 == key {
            let i = choose|i: int| 0 <= i < pairs.len() && (#[trigger] pairs[i]).0 == key;
            if i < rest.len() {
                assert(rest[i].0 == key);
            }
        }
    }
}

/// A map made of ordered pairs holds each of them.
pub proof fn lemma_pair_map_value<T>(pairs: Seq<(Seq<char>, T)>, i: int)
    requires
        strictly_ordered(pairs),
        0 <= i < pairs.len(),
    ensures
        pair_map(pairs).contains_key(pairs[i].0),
        pair_map(pairs)[pairs[i].0] == pairs[i].1,
    decreases pairs.len(),
{
    let rest = pairs.drop_last();
    if i < rest.len() {
        assert(strictly_ordered(rest)) by {
            assert forall|a: int, b: int| 0 <= a < b < rest.len() implies text_before(
                #[trigger] rest[a].0,
                #[trigger] rest[b].0,
            ) by {
                assert(text_before(pairs[a].0, pairs[b].0));
            }
        }
        lemma_pair_map_value(rest, i);
        assert(rest[i] == pairs[i]);
        assert(text_before(pairs[i].0, pairs[pairs.len() - 1].0));
        law_text_order_total(pairs[i].0, pairs[i].0);
    }
}

proof fn lemma_ordered_drop_last<T>(pairs: Seq<(Seq<char>, T)>)
    requires
        strictly_ordered(pairs),
        pairs.len() > 0,
    ensures
        strictly_ordered(pairs.drop_last()),
        pair_map(pairs.drop_last()) == pair_map(pairs).remove(pairs.last().0),
        forall|key: Seq<char>|
            pair_map(pairs).contains_key(key) ==> key == pairs.last().0 || text_before(
                key,
                pairs.last().0,
            ),
{
    let rest = pairs.drop_last();
    assert forall|a: int, b: int| 0 <= a < b < rest.len() implies text_before(
        #[trigger] rest[a].0,
        #[trigger] rest[b].0,
    ) by {
        assert(text_before(pairs[a].0, pairs[b].0));
    }
    let key = pairs.last().0;
    lemma_pair_map_keys(rest, key);
    if pair_map(rest).contains_key(key) {
        let i = choose|i: int| 0 <= i < rest.len() && (#[trigger] rest[i]).0 == key;
        assert(text_before(pairs[i].0, pairs[pairs.len() - 1].0));
        law_text_order_total(key, key);
    }
    assert(pair_map(rest) =~= pair_map(pairs).remove(key));
    assert forall|other: Seq<char>| pair_map(pairs).contains_key(other) implies other == key
        || text_before(other, key) by {
        lemma_pair_map_keys(pairs, other);
        let i = choose|i: int| 0 <= i < pairs.len() && (#[trigger] pairs[i]).0 == other;
        if i < pairs.len() - 1 {
            assert(text_before(pairs[i].0, pairs[pairs.len() - 1].0));
        }
    }
}

/// The entries of a map have one order by key.
pub proof fn lemma_ordered_unique<T>(a: Seq<(Seq<char>, T)>, b: Seq<(Seq<char>, T)>)
    requires
        strictly_ordered(a),
        strictly_ordered(b),
        pair_map(a) == pair_map(b),
    ensures
        a == b,
    decreases a.len(),
{
    if a.len() == 0 {
        if b.len() > 0 {
            lemma_pair_map_value(b, b.len() - 1);
            assert(!pair_map(a).contains_key(b[b.len() - 1].0));
        }
        assert(a =~= b);
    } else {
        lemma_pair_map_value(a, a.len() - 1);
        if b.len() == 0 {
            assert(!pair_map(b).contains_key(a[a.len() - 1].0));
        }
        lemma_pair_map_value(b, b.len() - 1);
        lemma_ordered_drop_last(a);
        lemma_ordered_drop_last(b);
        law_text_order_total(a.last().0, b.last().0);
        assert(a.last().0 == b.last().0);
        assert(a.last() == b.last());
        lemma_ordered_unique(a.drop_last(), b.drop_last());
        assert(a =~= a.drop_last().push(a.last()));
        assert(b =~= b.drop_last().push(b.last()));
    }
}

/// `ordered_pairs` undoes `pair_map` on ordered pairs.
pub proof fn lemma_ordered_pairs_of<T>(pairs: Seq<(Seq<char>, T)>)
    requires
        strictly_ordered(pairs),
    ensures
        ordered_pairs(pair_map(pairs)) == pairs,
{
    let chosen = ordered_pairs(pair_map(pairs));
    assert(strictly_ordered(chosen) && pair_map(chosen) == pair_map(pairs));
    lemma_ordered_unique(chosen, pairs);
}

// ---------------------------------------------------------------------------
// The map
// ---------------------------------------------------------------------------

/// A map from texts to values, its entries in key order.
#[derive(Debug)]
pub struct StrMap<V> {
    entries: Vec<(String, V)>,
}

/// The views of stored entries.
spec fn entry_views<V: View>(entries: Seq<(String, V)>) -> Seq<(Seq<char>, V::V)> {
    entries.map_values(|entry: (String, V)| (entry.0@, entry.1@))
}

spec fn keys_ordered<V>(entries: Seq<(String, V)>) -> bool {
    forall|i: int, j: int|
        0 <= i < j < entries.len() ==> text_before(#[trigger] entries[i].0@, #[trigger] entries[j].0@)
}

impl<V: View> View for StrMap<V> {
    type V = Map<Seq<char>, V::V>;

    closed spec fn view(&self) -> Map<Seq<char>, V::V> {
        pair_map(entry_views(self.entries@))
    }
}

impl<V> StrMap<V> {
    #[verifier::type_invariant]
    spec fn well_formed(self) -> bool {
        keys_ordered(self.entries@)
    }
}

impl<V: View> StrMap<V> {
    /// A map without entries.
    pub fn new() -> (map: Self)
        ensures
            map@ == Map::<Seq<char>, V::V>::empty(),
    {
        let map = StrMap { entries: Vec::new() };
        assert(entry_views(map.entries@) =~= Seq::empty());
        map
    }

    /// The number of entries.
    pub fn len(&self) -> (count: usize)
        ensures
            count == ordered_pairs(self@).len(),
            strictly_ordered(ordered_pairs(self@)),
            pair_map(ordered_pairs(self@)) == self@,
    {
        proof {
            use_type_invariant(self);
            lemma_ordered_pairs_of(entry_views(self.entries@));
        }
        self.entries.len()
    }

    /// The key of the entry at `index` in key order.
    pub fn key_at(&self, index: usize) -> (key: &String)
        requires
            index < ordered_pairs(self@).len(),
        ensures
            key@ == ordered_pairs(self@)[index as int].0,
    {
        proof {
            use_type_invariant(self);
            lemma_ordered_pairs_of(entry_views(self.entries@));
        }
        &self.entries[index].0
    }

    /// The value of the entry at `index` in key order.
    pub fn value_at(&self, index: usize) -> (value: &V)
        requires
            index < ordered_pairs(self@).len(),
        ensures
            value@ == ordered_pairs(self@)[index as int].1,
    {
        proof {
            use_type_invariant(self);
            lemma_ordered_pairs_of(entry_views(self.entries@));
        }
        &self.entries[index].1
    }

    /// The number of keys before `key`.
    fn position(&self, key: &str) -> (index: usize)
        ensures
            index <= self.entries@.len(),
            forall|j: int|
                0 <= j < index ==> text_before((#[trigger] self.entries@[j]).0@, key@),
            forall|j: int|
                index <= j < self.entries@.len() ==> !text_before(
                    (#[trigger] self.entries@[j]).0@,
                    key@,
                ),
    {
        proof {
            use_type_invariant(self);
        }
        let mut low: usize = 0;
        let mut high: usize = self.entries.len();
        while low < high
            invariant
                low <= high <= self.entries@.len(),
                keys_ordered(self.entries@),
                forall|j: int|
                    0 <= j < low ==> text_before((#[trigger] self.entries@[j]).0@, key@),
                forall|j: int|
                    high <= j < self.entries@.len() ==> !text_before(
                        (#[trigger] self.entries@[j]).0@,
                        key@,
                    ),
            decreases high - low,
        {
            let middle: usize = low + (high - low) / 2;
            let side = side_of(self.entries[middle].0.as_str(), key);
            let ghost found = self.entries@[middle as int].0@;
            match side {
                Side::Before => {
                    assert forall|j: int| 0 <= j < middle + 1 implies text_before(
                        (#[trigger] self.entries@[j]).0@,
                        key@,
                    ) by {
                        if j < middle {
                            law_text_order_transitive(self.entries@[j].0@, found, key@);
                        }
                    }
                    low = middle + 1;
                },
                _ => {
                    assert forall|j: int| middle <= j < self.entries@.len() implies !text_before(
                        (#[trigger] self.entries@[j]).0@,
                        key@,
                    ) by {
                        law_text_order_total(found, key@);
                        if j > middle && text_before(self.entries@[j].0@, key@) {
                            law_text_order_transitive(found, self.entries@[j].0@, key@);
                        }
                    }
                    high = middle;
                },
            }
        }
        low
    }

    /// Where `key` stands, if it is there.
    fn find(&self, key: &str) -> (index: Option<usize>)
        ensures
            match index {
                Some(i) => {
                    &&& i < self.entries@.len()
                    &&& self.entries@[i as int].0@ == key@
                    &&& self@.contains_key(key@)
                    &&& self@[key@] == self.entries@[i as int].1@
                },
                None => !self@.contains_key(key@),
            },
    {
        let i = self.position(key);
        let ghost pairs = entry_views(self.entries@);
        proof {
            use_type_invariant(self);
            assert(strictly_ordered(pairs));
            lemma_pair_map_keys(pairs, key@);
        }
        if i < self.entries.len() {
            match side_of(self.entries[i].0.as_str(), key) {
                Side::Same => {
                    proof {
                        lemma_pair_map_value(pairs, i as int);
                        assert(pairs[i as int].0 == key@);
                    }
                    return Some(i);
                },
                _ => {},
            }
        }
        proof {
            if self@.contains_key(key@) {
                let j = choose|j: int| 0 <= j < pairs.len() && (#[trigger] pairs[j]).0 == key@;
                assert(self.entries@[j].0@ == key@);
                law_text_order_total(key@, key@);
                assert(j >= i);
                if j > i {
                    assert(text_before(self.entries@[i as int].0@, self.entries@[j].0@));
                }
            }
        }
        None
    }

    /// The value stored under `key`.
    pub fn get(&self, key: &str) -> (value: Option<&V>)
        ensures
            match value {
                Some(value) => self@.contains_key(key@) && self@[key@] == value@,
                None => !self@.contains_key(key@),
            },
    {
        match self.find(key) {
            Some(i) => Some(&self.entries[i].1),
            None => None,
        }
    }

    /// Whether a value is stored under `key`.
    pub fn contains_key(&self, key: &str) -> (found: bool)
        ensures
            found == self@.contains_key(key@),
    {
        self.find(key).is_some()
    }

    /// Stores `value` under `key`, in place of what was there.
    pub fn insert(&mut self, key: String, value: V)
        ensures
            final(self)@ == old(self)@.insert(key@, value@),
    {
        let found = self.find(key.as_str());
        let place = self.position(key.as_str());
        proof {
            use_type_invariant(&*self);
        }
        let mut entries: Vec<(String, V)> = Vec::new();
        std::mem::swap(&mut entries, &mut self.entries);
        let ghost before = entries@;
        let ghost old_pairs = entry_views(before);
        match found {
            Some(i) => {
                entries.remove(i);
                entries.insert(i, (key, value));
                assert(entries@ =~= before.update(i as int, (key, value)));
                assert(keys_ordered(entries@)) by {
                    assert forall|a: int, b: int| 0 <= a < b < entries@.len() implies text_before(
                        #[trigger] entries@[a].0@,
                        #[trigger] entries@[b].0@,
                    ) by {
                        assert(text_before(before[a].0@, before[b].0@));
                    }
                }
                proof {
                    lemma_update_pairs(old_pairs, i as int, value@);
                    assert(entry_views(entries@) =~= old_pairs.update(i as int, (key@, value@)));
                }
            },
            None => {
                proof {
                    lemma_pair_map_keys(old_pairs, key@);
                    assert forall|j: int| 0 <= j < before.len() implies (#[trigger] before[j]).0@
                        != key@ by {
                        assert(old_pairs[j].0 == before[j].0@);
                    }
                }
                entries.insert(place, (key, value));
                assert(keys_ordered(entries@)) by {
                    assert forall|a: int, b: int| 0 <= a < b < entries@.len() implies text_before(
                        #[trigger] entries@[a].0@,
                        #[trigger] entries@[b].0@,
                    ) by {
                        if a < place {
                            assert(entries@[a] == before[a]);
                            if b < place {
                                assert(text_before(before[a].0@, before[b].0@));
                            } else if b > place {
                                assert(entries@[b] == before[b - 1]);
                                assert(text_before(before[a].0@, before[b - 1].0@));
                            }
                        } else if a == place {
                            assert(entries@[b] == before[b - 1]);
                            law_text_order_total(before[b - 1].0@, key@);
                        } else {
                            assert(entries@[a] == before[a - 1]);
                            assert(entries@[b] == before[b - 1]);
                            assert(text_before(before[a - 1].0@, before[b - 1].0@));
                        }
                    }
                }
                proof {
                    lemma_insert_pairs(old_pairs, place as int, key@, value@);
                    assert(entry_views(entries@) =~= old_pairs.insert(
                        place as int,
                        (key@, value@),
                    ));
                }
            },
        }
        self.entries = entries;
    }

    /// Takes out what is stored under `key`.
    pub fn remove(&mut self, key: &str) -> (value: Option<V>)
        ensures
            final(self)@ == old(self)@.remove(key@),
            match value {
                Some(value) => old(self)@.contains_key(key@) && old(self)@[key@] == value@,
                None => !old(self)@.contains_key(key@),
            },
    {
        let found = self.find(key);
        match found {
            Some(i) => {
                proof {
                    use_type_invariant(&*self);
                }
                let mut entries: Vec<(String, V)> = Vec::new();
                std::mem::swap(&mut entries, &mut self.entries);
                let ghost before = entries@;
                let entry = entries.remove(i);
                assert(keys_ordered(entries@)) by {
                    assert forall|a: int, b: int| 0 <= a < b < entries@.len() implies text_before(
                        #[trigger] entries@[a].0@,
                        #[trigger] entries@[b].0@,
                    ) by {
                        let x = if a < i { a } else { a + 1 };
                        let y = if b < i { b } else { b + 1 };
                        assert(text_before(before[x].0@, before[y].0@));
                    }
                }
                proof {
                    lemma_remove_pairs(entry_views(before), i as int);
                    assert(entry_views(entries@) =~= entry_views(before).remove(i as int));
                }
                self.entries = entries;
                Some(entry.1)
            },
            None => {
                assert(self@.remove(key@) =~= self@);
                None
            },
        }
    }
}

/// The entries of a map of texts, in key order.
pub fn pairs_of(map: &StrMap<String>) -> (pairs: Vec<(String, String)>)
    ensures
        codec::pair_views(pairs@) == ordered_pairs(map@),
        strictly_ordered(ordered_pairs(map@)),
        pair_map(ordered_pairs(map@)) == map@,
{
    let ghost all = ordered_pairs(map@);
    proof {
        use_type_invariant(map);
        lemma_ordered_pairs_of(entry_views(map.entries@));
    }
    let mut pairs: Vec<(String, String)> = Vec::with_capacity(map.len());
    let mut i: usize = 0;
    while i < map.len()
        invariant
            i <= all.len(),
            all == ordered_pairs(map@),
            codec::pair_views(pairs@) == all.take(i as int),
        decreases all.len() - i,
    {
        let ghost before = codec::pair_views(pairs@);
        pairs.push((map.key_at(i).clone(), map.value_at(i).clone()));
        assert(codec::pair_views(pairs@) =~= before.push(all[i as int]));
        i = i + 1;
        assert(codec::pair_views(pairs@) =~= all.take(i as int));
    }
    assert(all.take(i as int) =~= all);
    pairs
}

/// `map` with `value` under `key`, where there is a value.
pub open spec fn with_some(
    map: Map<Seq<char>, Seq<char>>,
    key: Seq<char>,
    value: Option<Seq<char>>,
) -> Map<Seq<char>, Seq<char>> {
    match value {
        Some(value) => map.insert(key, value),
        None => map,
    }
}

/// Stores a copy of `value` under `key`, where there is a value.
pub fn insert_some(map: &mut StrMap<String>, key: &str, value: &Option<String>)
    ensures
        final(map)@ == with_some(old(map)@, key@, text::text_view(*value)),
{
    match value {
        Some(value) => map.insert(key.to_string(), value.clone()),
        None => {},
    }
}

/// Stores a copy of `value` under `key`.
pub fn put(map: &mut StrMap<String>, key: &str, value: &str)
    ensures
        final(map)@ == old(map)@.insert(key@, value@),
{
    map.insert(key.to_string(), value.to_string());
}

/// A copy of the text stored under `key`.
pub fn get_text(map: &StrMap<String>, key: &str) -> (value: Option<String>)
    ensures
        text::text_view(value) == value_of(map@, key@),
{
    match map.get(key) {
        Some(value) => Some(value.clone()),
        None => None,
    }
}

/// What is stored under `key`.
pub open spec fn value_of<T>(map: Map<Seq<char>, T>, key: Seq<char>) -> Option<T> {
    if map.contains_key(key) {
        Some(map[key])
    } else {
        None
    }
}

impl<V: Duplicate> Duplicate for StrMap<V> {
    fn duplicate(&self) -> (copy: Self) {
        proof {
            use_type_invariant(self);
        }
        let mut entries: Vec<(String, V)> = Vec::with_capacity(self.entries.len());
        let mut i: usize = 0;
        while i < self.entries.len()
            invariant
                i <= self.entries@.len(),
                keys_ordered(self.entries@),
                entries@.len() == i,
                forall|j: int|
                    0 <= j < i ==> (#[trigger] entries@[j]).0 == self.entries@[j].0 && entries@[j].1@
                        == self.entries@[j].1@,
            decreases self.entries@.len() - i,
        {
            let key = self.entries[i].0.clone();
            let value = self.entries[i].1.duplicate();
            entries.push((key, value));
            i = i + 1;
        }
        assert(entry_views(entries@) =~= entry_views(self.entries@));
        StrMap { entries }
    }
}

impl<V: Duplicate> Clone for StrMap<V> {
    fn clone(&self) -> (copy: Self)
        ensures
            copy@ == self@,
    {
        self.duplicate()
    }
}

/// One more entry has its place among entries in key order.
proof fn lemma_ordered_insert<T>(pairs: Seq<(Seq<char>, T)>, key: Seq<char>, value: T)
    requires
        strictly_ordered(pairs),
        !pair_map(pairs).contains_key(key),
    ensures
        exists|more: Seq<(Seq<char>, T)>|
            #![trigger strictly_ordered(more)]
            strictly_ordered(more) && pair_map(more) == pair_map(pairs).insert(key, value),
    decreases pairs.len(),
{
    if pairs.len() == 0 {
        let more = pairs.push((key, value));
        assert(more.drop_last() =~= pairs);
        assert(strictly_ordered(more));
    } else {
        let last = pairs.last();
        lemma_ordered_drop_last(pairs);
        law_text_order_total(key, last.0);
        if text_before(last.0, key) {
            let more = pairs.push((key, value));
            assert(more.drop_last() =~= pairs);
            assert forall|i: int, j: int| 0 <= i < j < more.len() implies text_before(
                #[trigger] more[i].0,
                #[trigger] more[j].0,
            ) by {
                if j == pairs.len() && i < pairs.len() - 1 {
                    assert(text_before(pairs[i].0, pairs[pairs.len() - 1].0));
                    law_text_order_transitive(pairs[i].0, last.0, key);
                }
            }
            assert(strictly_ordered(more));
        } else {
            lemma_ordered_insert(pairs.drop_last(), key, value);
            let most = choose|most: Seq<(Seq<char>, T)>|
                #![trigger strictly_ordered(most)]
                strictly_ordered(most) && pair_map(most) == pair_map(pairs.drop_last()).insert(
                    key,
                    value,
                );
            let more = most.push(last);
            assert(more.drop_last() =~= most);
            assert forall|i: int, j: int| 0 <= i < j < more.len() implies text_before(
                #[trigger] more[i].0,
                #[trigger] more[j].0,
            ) by {
                if j == most.len() {
                    assert(most[i].0 == more[i].0);
                    lemma_pair_map_keys(most, most[i].0);
                    assert(pair_map(most).contains_key(most[i].0));
                }
            }
            assert(strictly_ordered(more));
            assert(pair_map(more) =~= pair_map(pairs).insert(key, value));
        }
    }
}

/// Every finite map has its entries in key order.
pub proof fn law_ordered_pairs_exist<T>(map: Map<Seq<char>, T>)
    requires
        map.dom().finite(),
    ensures
        strictly_ordered(ordered_pairs(map)),
        pair_map(ordered_pairs(map)) == map,
    decreases map.dom().len(),
{
    if map.dom().len() == 0 {
        let none = Seq::<(Seq<char>, T)>::empty();
        assert(strictly_ordered(none));
        assert(map.dom() =~= Set::empty());
        assert(pair_map(none) =~= map);
        assert(strictly_ordered(none) && pair_map(none) == map);
    } else {
        let key = map.dom().choose();
        let rest = map.remove(key);
        assert(rest.dom() =~= map.dom().remove(key));
        law_ordered_pairs_exist(rest);
        lemma_ordered_insert(ordered_pairs(rest), key, map[key]);
        assert(rest.insert(key, map[key]) =~= map);
        let all = choose|all: Seq<(Seq<char>, T)>|
            #![trigger strictly_ordered(all)]
            strictly_ordered(all) && pair_map(all) == rest.insert(key, map[key]);
        assert(strictly_ordered(all) && pair_map(all) == map);
    }
}

proof fn lemma_update_pairs<T>(pairs: Seq<(Seq<char>, T)>, i: int, value: T)
    requires
        strictly_ordered(pairs),
        0 <= i < pairs.len(),
    ensures
        pair_map(pairs.update(i, (pairs[i].0, value))) == pair_map(pairs).insert(pairs[i].0, value),
    decreases pairs.len(),
{
    let updated = pairs.update(i, (pairs[i].0, value));
    lemma_ordered_drop_last(pairs);
    if i == pairs.len() - 1 {
        assert(updated.drop_last() =~= pairs.drop_last());
    } else {
        lemma_update_pairs(pairs.drop_last(), i, value);
        assert(updated.drop_last() =~= pairs.drop_last().update(i, (pairs[i].0, value)));
        assert(text_before(pairs[i].0, pairs[pairs.len() - 1].0));
        law_text_order_total(pairs[i].0, pairs[i].0);
    }
    assert(pair_map(updated) =~= pair_map(pairs).insert(pairs[i].0, value));
}

proof fn lemma_insert_pairs<T>(pairs: Seq<(Seq<char>, T)>, i: int, key: Seq<char>, value: T)
    requires
        0 <= i <= pairs.len(),
        forall|j: int| 0 <= j < pairs.len() ==> (#[trigger] pairs[j]).0 != key,
    ensures
        pair_map(pairs.insert(i, (key, value))) == pair_map(pairs).insert(key, value),
    decreases pairs.len(),
{
    let inserted = pairs.insert(i, (key, value));
    if i == pairs.len() {
        assert(inserted.drop_last() =~= pairs);
    } else {
        let rest = pairs.drop_last();
        assert forall|j: int| 0 <= j < rest.len() implies (#[trigger] rest[j]).0 != key by {
            assert(rest[j] == pairs[j]);
        }
        lemma_insert_pairs(rest, i, key, value);
        assert(inserted.drop_last() =~= rest.insert(i, (key, value)));
        assert(pairs[pairs.len() - 1].0 != key);
    }
    assert(pair_map(inserted) =~= pair_map(pairs).insert(key, value));
}

proof fn lemma_remove_pairs<T>(pairs: Seq<(Seq<char>, T)>, i: int)
    requires
        strictly_ordered(pairs),
        0 <= i < pairs.len(),
    ensures
        pair_map(pairs.remove(i)) == pair_map(pairs).remove(pairs[i].0),
    decreases pairs.len(),
{
    let removed = pairs.remove(i);
    lemma_ordered_drop_last(pairs);
    if i == pairs.len() - 1 {
        assert(removed =~= pairs.drop_last());
    } else {
        lemma_remove_pairs(pairs.drop_last(), i);
        assert(removed.drop_last() =~= pairs.drop_last().remove(i));
        assert(text_before(pairs[i].0, pairs[pairs.len() - 1].0));
        law_text_order_total(pairs[i].0, pairs[i].0);
    }
    assert(pair_map(removed) =~= pair_map(pairs).remove(pairs[i].0));
}

} // verus!
