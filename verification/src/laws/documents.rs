//! Parts of JSON documents: what is found under a key, and the texts, ports and
//! parameters that are made of it.

use vstd::prelude::*;
use vstd::string::*;

use crate::fields;
use crate::json;
use crate::json::JsonValue;
use crate::strmap;
use crate::text;

verus! {

// ---------------------------------------------------------------------------
// Under a key
// ---------------------------------------------------------------------------

/// What is found under a key is the value of the first entry with that key;
/// nothing is found just where no entry has it.
pub proof fn law_entry(entries: Seq<(Seq<char>, JsonValue)>, key: Seq<char>)
    ensures
        json::entry(entries, key) is None <==> forall|i: int|
            0 <= i < entries.len() ==> (#[trigger] entries[i]).0 != key,
        forall|i: int|
            0 <= i < entries.len() && (#[trigger] entries[i]).0 == key && (forall|j: int|
                0 <= j < i ==> (#[trigger] entries[j]).0 != key) ==> json::entry(entries, key)
                == Some(entries[i].1),
    decreases entries.len(),
{
    if entries.len() > 0 {
        let rest = entries.skip(1);
        law_entry(rest, key);
        assert forall|i: int|
            0 <= i < entries.len() && (#[trigger] entries[i]).0 == key && (forall|j: int|
                0 <= j < i ==> (#[trigger] entries[j]).0 != key) implies json::entry(entries, key)
            == Some(entries[i].1) by {
            if i > 0 {
                assert(entries[0].0 != key);
                assert(rest[i - 1] == entries[i]);
                assert forall|j: int| 0 <= j < i - 1 implies (#[trigger] rest[j]).0 != key by {
                    assert(rest[j] == entries[j + 1]);
                }
            }
        }
        if json::entry(entries, key) is None {
            assert forall|i: int| 0 <= i < entries.len() implies (#[trigger] entries[i]).0
                != key by {
                if i > 0 {
                    assert(rest[i - 1] == entries[i]);
                }
            }
        }
        if forall|i: int| 0 <= i < entries.len() ==> (#[trigger] entries[i]).0 != key {
            assert(entries[0].0 != key);
            assert forall|i: int| 0 <= i < rest.len() implies (#[trigger] rest[i]).0 != key by {
                assert(rest[i] == entries[i + 1]);
            }
        }
    }
}

/// An object that was made of fields holds each of them under its key, and
/// nothing else.
pub proof fn law_object_holds_fields(map: Map<Seq<char>, JsonValue>, key: Seq<char>)
    requires
        map.dom().finite(),
    ensures
        json::member(json::object_with(map), key) == strmap::value_of(map, key),
{
    let pairs = strmap::ordered_pairs(map);
    strmap::law_ordered_pairs_exist(map);
    strmap::lemma_pair_map_keys(pairs, key);
    law_entry(pairs, key);
    if map.contains_key(key) {
        let i = choose|i: int| 0 <= i < pairs.len() && (#[trigger] pairs[i]).0 == key;
        strmap::lemma_pair_map_value(pairs, i);
        assert forall|j: int| 0 <= j < i implies (#[trigger] pairs[j]).0 != key by {
            assert(strmap::text_before(pairs[j].0, pairs[i].0));
            strmap::law_text_order_total(key, key);
        }
    }
}

/// The text of a field: a text as it is, a number as it is written, `true` or
/// `false`; nothing for an empty text, for null, for an object, and where there
/// is no such field.
pub proof fn law_string_field(entries: Seq<(Seq<char>, JsonValue)>, key: Seq<char>)
    ensures
        ({
            let found = fields::string_field(entries, key);
            match json::entry(entries, key) {
                Some(JsonValue::Text(said)) => found == if said == Seq::<char>::empty() {
                    None
                } else {
                    Some(said)
                },
                Some(JsonValue::Number(said, _)) => said.len() > 0 ==> found == Some(said),
                Some(JsonValue::Bool(flag)) => found == Some(
                    if flag {
                        "true"@
                    } else {
                        "false"@
                    },
                ),
                Some(JsonValue::Array(list)) => found == if text::joined(
                    fields::texts_of(list),
                    seq![','],
                ).len() > 0 {
                    Some(text::joined(fields::texts_of(list), seq![',']))
                } else {
                    None
                },
                _ => found is None,
            }
        }),
{
    reveal_strlit("true");
    reveal_strlit("false");
    reveal_strlit(",");
    assert(","@ =~= seq![',']);
    if let Some(JsonValue::Text(said)) = json::entry(entries, key) {
        if said.len() == 0 {
            assert(said =~= Seq::empty());
        }
    }
}

/// The text of a list of texts is the texts with commas between them.
pub proof fn law_text_of_list(texts: Seq<Seq<char>>)
    ensures
        fields::stringified(json::text_list(texts)) == Some(text::joined(texts, ","@)),
{
    lemma_texts_of(texts);
}

/// The texts of a list of texts.
proof fn lemma_texts_of(texts: Seq<Seq<char>>)
    ensures
        fields::texts_of(json::text_list(texts)->Array_0) == texts,
    decreases texts.len(),
{
    let list = json::text_list(texts)->Array_0;
    if texts.len() > 0 {
        lemma_texts_of(texts.drop_last());
        assert(list.drop_last() =~= json::text_list(texts.drop_last())->Array_0);
        assert(list.last() == JsonValue::Text(texts.last()));
        reveal_with_fuel(fields::stringified, 2);
        assert(fields::stringified(list.last()) == Some(texts.last()));
        assert(texts.drop_last().push(texts.last()) =~= texts);
    } else {
        assert(fields::texts_of(list) =~= texts);
    }
}

/// A port is a number from 0 to 65535, as a number or in decimal; nothing else
/// is one.
pub proof fn law_port(number: u64, value: Option<JsonValue>)
    ensures
        fields::port_of(Some(json::number_value(number))) == if number < 65536 {
            Some(number as u16)
        } else {
            None
        },
        number < 65536 ==> fields::port_of(
            Some(JsonValue::Text(text::decimal(number as nat))),
        ) == Some(number as u16),
        number >= 65536 ==> fields::port_of(
            Some(JsonValue::Text(text::decimal(number as nat))),
        ) is None,
        !(value matches Some(JsonValue::Number(_, Some(_)))) && !(value matches Some(
            JsonValue::Text(_),
        )) ==> fields::port_of(value) is None,
{
    text::law_decimal_round_trip(number as nat, number as nat);
}

// ---------------------------------------------------------------------------
// Transports
// ---------------------------------------------------------------------------

/// The path of a transport is its `path`; where it has none, its service name;
/// where it has neither, the path among its headers.
pub proof fn law_transport_path(transport: Seq<(Seq<char>, JsonValue)>)
    ensures
        ({
            let path = fields::string_field(transport, "path"@);
            let service = fields::string_field(transport, "service_name"@);
            &&& path is Some ==> fields::transport_path(transport) == path
            &&& path is None && service is Some ==> fields::transport_path(transport) == service
            &&& path is None && service is None ==> fields::transport_path(transport) == match json::entry(
                transport,
                "headers"@,
            ) {
                Some(headers) => fields::part_text(json::member(headers, "path"@)),
                None => None,
            }
        }),
{
    let steps = seq!["headers"@, "path"@];
    assert(steps.skip(1) =~= seq!["path"@]);
    assert(steps.skip(1).skip(1) =~= Seq::empty());
    reveal_with_fuel(fields::nested, 3);
}

/// The host of a transport is its `host`, a text or texts with commas between
/// them; where that gives none, the first of a list of hosts; where there is
/// none, the `Host` among its headers, or else the `host`.
pub proof fn law_transport_host(transport: Seq<(Seq<char>, JsonValue)>)
    ensures
        ({
            let said = fields::string_field(transport, "host"@);
            let host = fields::transport_host(transport);
            &&& said is Some ==> host == said
            &&& said is None && (json::entry(transport, "host"@) matches Some(
                JsonValue::Array(hosts),
            ) && fields::texts_of(hosts).len() > 0) ==> host == Some(
                fields::texts_of(json::entry(transport, "host"@)->0->Array_0)[0],
            )
            &&& said is None && !(json::entry(transport, "host"@) matches Some(
                JsonValue::Array(hosts),
            ) && fields::texts_of(hosts).len() > 0) ==> host == match json::entry(
                transport,
                "headers"@,
            ) {
                Some(JsonValue::Object(headers)) => if fields::part_text(
                    json::entry(headers, "Host"@),
                ) is Some {
                    fields::part_text(json::entry(headers, "Host"@))
                } else {
                    fields::part_text(json::entry(headers, "host"@))
                },
                _ => None,
            }
        }),
{
}

/// The header type of a transport is its `header_type`, or else the type of its
/// header.
pub proof fn law_header_type(transport: Seq<(Seq<char>, JsonValue)>)
    ensures
        ({
            let said = fields::string_field(transport, "header_type"@);
            &&& said is Some ==> fields::header_type_of(transport) == said
            &&& said is None ==> fields::header_type_of(transport) == match json::entry(
                transport,
                "header"@,
            ) {
                Some(header) => fields::part_text(json::member(header, "type"@)),
                None => None,
            }
        }),
{
    let steps = seq!["header"@, "type"@];
    assert(steps.skip(1) =~= seq!["type"@]);
    assert(steps.skip(1).skip(1) =~= Seq::empty());
    reveal_with_fuel(fields::nested, 3);
}

// ---------------------------------------------------------------------------
// Parameters
// ---------------------------------------------------------------------------

/// The scalars of an object are the texts of its fields, each under its key, as
/// far as they have texts: those of two objects together are those of the first,
/// overridden by those of the second.
pub proof fn law_scalars(
    first: Seq<(Seq<char>, JsonValue)>,
    second: Seq<(Seq<char>, JsonValue)>,
    key: Seq<char>,
    value: JsonValue,
)
    ensures
        fields::scalar_fields(first + second) == fields::scalar_fields(
            first,
        ).union_prefer_right(fields::scalar_fields(second)),
        fields::scalar_fields(Seq::empty()) == Map::<Seq<char>, Seq<char>>::empty(),
        fields::scalar_fields(seq![(key, value)]) == match fields::stringified(value) {
            Some(text) => Map::<Seq<char>, Seq<char>>::empty().insert(key, text),
            None => Map::empty(),
        },
    decreases second.len(),
{
    let none = Map::<Seq<char>, Seq<char>>::empty();
    assert(seq![(key, value)].drop_last() =~= Seq::empty());
    assert(fields::scalar_fields(Seq::empty()) == none);
    if second.len() == 0 {
        assert(first + second =~= first);
        assert(fields::scalar_fields(first).union_prefer_right(none) =~= fields::scalar_fields(
            first,
        ));
    } else {
        law_scalars(first, second.drop_last(), key, value);
        assert((first + second).drop_last() =~= first + second.drop_last());
        assert(fields::scalar_fields(first + second) =~= fields::scalar_fields(
            first,
        ).union_prefer_right(fields::scalar_fields(second)));
    }
}

/// A text, a number and a flag have the texts that they are; null and an object
/// have none.
pub proof fn law_texts(
    said: Seq<char>,
    number: Option<u64>,
    flag: bool,
    entries: Seq<(Seq<char>, JsonValue)>,
)
    ensures
        fields::stringified(JsonValue::Text(said)) == Some(said),
        fields::stringified(JsonValue::Number(said, number)) == Some(said),
        fields::stringified(JsonValue::Bool(flag)) == Some(
            if flag {
                "true"@
            } else {
                "false"@
            },
        ),
        fields::stringified(JsonValue::Null) is None,
        fields::stringified(JsonValue::Object(entries)) is None,
{
}

/// A section is laid out with the path to each of its values as the name of the
/// value: entries one behind the other, one that has a text under the name of the
/// section, a dot and its own name, and one that is a section itself likewise
/// within.
pub proof fn law_sections_are_laid_out(
    prefix: Seq<char>,
    first: Seq<(Seq<char>, JsonValue)>,
    second: Seq<(Seq<char>, JsonValue)>,
    key: Seq<char>,
    said: Seq<char>,
    params: Map<Seq<char>, Seq<char>>,
)
    ensures
        fields::flattened(prefix, JsonValue::Object(first + second), params) == fields::flattened(
            prefix,
            JsonValue::Object(second),
            fields::flattened(prefix, JsonValue::Object(first), params),
        ),
        fields::flattened(prefix, JsonValue::Object(Seq::empty()), params) == params,
        fields::flattened(
            prefix,
            JsonValue::Object(seq![(key, JsonValue::Text(said))]),
            params,
        ) == params.insert(prefix + "."@ + key, said),
        fields::flattened(
            prefix,
            JsonValue::Object(seq![(key, JsonValue::Object(first))]),
            params,
        ) == fields::flattened(prefix + "."@ + key, JsonValue::Object(first), params),
    decreases second.len(),
{
    let one = seq![(key, JsonValue::Text(said))];
    let inner = seq![(key, JsonValue::Object(first))];
    assert(one.drop_last() =~= Seq::empty());
    assert(inner.drop_last() =~= Seq::empty());
    reveal_with_fuel(fields::flattened, 3);
    reveal_with_fuel(fields::flattened_entries, 3);
    reveal_with_fuel(fields::stringified, 2);
    assert(fields::stringified(JsonValue::Text(said)) == Some(said));
    assert(fields::flattened_entries(prefix, Seq::empty(), params) == params);
    if second.len() == 0 {
        assert(first + second =~= first);
        assert(second =~= Seq::empty());
        let laid = fields::flattened_entries(prefix, first, params);
        assert(fields::flattened_entries(prefix, second, laid) == laid);
    } else {
        law_sections_are_laid_out(prefix, first, second.drop_last(), key, said, params);
        assert((first + second).drop_last() =~= first + second.drop_last());
        assert((first + second).last() == second.last());
    }
}

/// The texts of two lists are those of the one and then those of the other; a
/// value has one unless it is nothing or an object.
pub proof fn law_texts_of(first: Seq<JsonValue>, second: Seq<JsonValue>, value: JsonValue)
    ensures
        fields::texts_of(first + second) == fields::texts_of(first) + fields::texts_of(second),
        fields::texts_of(Seq::empty()).len() == 0,
        fields::texts_of(seq![value]) == match fields::stringified(value) {
            Some(text) => seq![text],
            None => Seq::empty(),
        },
        fields::stringified(JsonValue::Array(first)) == Some(
            text::joined(fields::texts_of(first), seq![',']),
        ),
        fields::stringified(value) is None <==> value is Null || value is Object,
        fields::scalar_text(value) == match fields::stringified(value) {
            Some(text) => text,
            None => Seq::empty(),
        },
    decreases second.len(),
{
    reveal_strlit(",");
    assert(","@ =~= seq![',']);
    reveal_with_fuel(fields::texts_of, 3);
    reveal_with_fuel(fields::stringified, 3);
    let none = Seq::<Seq<char>>::empty();
    assert(seq![value].drop_last() =~= Seq::empty());
    assert(fields::texts_of(Seq::empty()) =~= none);
    if let Some(text) = fields::stringified(value) {
        assert(none.push(text) =~= seq![text]);
    }
    if second.len() == 0 {
        assert(first + second =~= first);
        assert(second =~= Seq::empty());
        assert(fields::texts_of(first) + none =~= fields::texts_of(first));
    } else {
        law_texts_of(first, second.drop_last(), value);
        assert((first + second).drop_last() =~= first + second.drop_last());
        assert((first + second).last() == second.last());
        assert(fields::texts_of(first + second) =~= fields::texts_of(first) + fields::texts_of(
            second,
        ));
    }
}

/// A value that is no section is laid out under its name: a list as its texts,
/// unless they are empty, and anything else as its text where it has one.
pub proof fn law_value_is_laid_out(
    prefix: Seq<char>,
    key: Seq<char>,
    value: JsonValue,
    params: Map<Seq<char>, Seq<char>>,
)
    requires
        !(value is Object),
    ensures
        ({
            let name = prefix + seq!['.'] + key;
            let laid = fields::flattened(prefix, JsonValue::Object(seq![(key, value)]), params);
            &&& laid == match fields::stringified(value) {
                Some(text) => if value is Array && text.len() == 0 {
                    params
                } else {
                    params.insert(name, text)
                },
                None => params,
            }
            &&& fields::flattened(name, value, params) == laid
        }),
{
    reveal_strlit(".");
    assert("."@ =~= seq!['.']);
    let one = seq![(key, value)];
    assert(one.drop_last() =~= Seq::empty());
    reveal_with_fuel(fields::flattened, 3);
    reveal_with_fuel(fields::flattened_entries, 3);
    reveal_with_fuel(fields::stringified, 3);
    assert(fields::flattened_entries(prefix, Seq::empty(), params) == params);
}

} // verus!
