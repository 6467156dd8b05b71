//! Reading the fields of JSON objects as texts, ports and flags.

use vstd::prelude::*;
use vstd::string::*;

use crate::items;
use crate::json;
use crate::json::{Json, JsonValue};
use crate::strmap;
use crate::strmap::StrMap;
use crate::text;

verus! {

// ---------------------------------------------------------------------------
// Scalars
// ---------------------------------------------------------------------------

/// A flag as a text.
pub open spec fn flag_text(flag: bool) -> Seq<char> {
    if flag {
        "true"@
    } else {
        "false"@
    }
}

/// A value as one text: a text or a number as it is written, a flag by name,
/// an array as its texts with commas between them.
pub open spec fn stringified(value: JsonValue) -> Option<Seq<char>>
    decreases value,
{
    match value {
        JsonValue::Text(text) => Some(text),
        JsonValue::Number(text, _) => Some(text),
        JsonValue::Bool(flag) => Some(flag_text(flag)),
        JsonValue::Array(list) => Some(text::joined(texts_of(list), ","@)),
        _ => None,
    }
}

/// The texts of those items of an array that have one.
pub open spec fn texts_of(list: Seq<JsonValue>) -> Seq<Seq<char>>
    decreases list,
{
    if list.len() == 0 {
        Seq::empty()
    } else {
        match stringified(list.last()) {
            Some(text) => texts_of(list.drop_last()).push(text),
            None => texts_of(list.drop_last()),
        }
    }
}

/// A value as one text.
pub fn stringify_value(value: &Json) -> (result: Option<String>)
    ensures
        text::text_view(result) == stringified(value@),
    decreases value,
{
    match value {
        Json::Text(text) => Some(text.clone()),
        Json::Number(text, _) => Some(text.clone()),
        Json::Bool(flag) => Some(
            if *flag {
                "true".to_string()
            } else {
                "false".to_string()
            },
        ),
        Json::Array(list) => {
            proof {
                json::lemma_array_view(*list);
            }
            let ghost all = json::items_view(list@);
            let mut texts: Vec<String> = Vec::new();
            let mut i: usize = 0;
            assert(all.take(0) =~= Seq::empty());
            while i < list.len()
                invariant
                    i <= list@.len(),
                    all == json::items_view(list@),
                    *value == Json::Array(*list),
                    items::views(texts@) == texts_of(all.take(i as int)),
                decreases list@.len() - i,
            {
                let ghost seen = all.take(i + 1);
                assert(seen.drop_last() =~= all.take(i as int));
                assert(seen.last() == list@[i as int]@);
                assert(decreases_to!(value => value->Array_0));
                assert(decreases_to!(list => list@[i as int]));
                let ghost before = items::views(texts@);
                match stringify_value(&list[i]) {
                    Some(text) => {
                        texts.push(text);
                        assert(items::views(texts@) =~= before.push(text@));
                    },
                    None => {},
                }
                i = i + 1;
            }
            assert(all.take(i as int) =~= all);
            Some(text::join(&texts, ","))
        },
        _ => None,
    }
}

/// The texts of those items of an array that have one.
pub fn stringify_all(list: &Vec<Json>) -> (texts: Vec<String>)
    ensures
        items::views(texts@) == texts_of(json::items_view(list@)),
{
    let ghost all = json::items_view(list@);
    let mut texts: Vec<String> = Vec::new();
    let mut i: usize = 0;
    assert(all.take(0) =~= Seq::empty());
    while i < list.len()
        invariant
            i <= list@.len(),
            all == json::items_view(list@),
            items::views(texts@) == texts_of(all.take(i as int)),
        decreases list@.len() - i,
    {
        let ghost seen = all.take(i + 1);
        assert(seen.drop_last() =~= all.take(i as int));
        assert(seen.last() == list@[i as int]@);
        let ghost before = items::views(texts@);
        match stringify_value(&list[i]) {
            Some(text) => {
                texts.push(text);
                assert(items::views(texts@) =~= before.push(text@));
            },
            None => {},
        }
        i = i + 1;
    }
    assert(all.take(i as int) =~= all);
    texts
}

/// A value as one text, empty where it has none.
pub open spec fn scalar_text(value: JsonValue) -> Seq<char> {
    match stringified(value) {
        Some(text) => text,
        None => Seq::empty(),
    }
}

/// A value as one text, empty where it has none.
pub fn scalar_to_string(value: &Json) -> (text: String)
    ensures
        text@ == scalar_text(value@),
{
    match stringify_value(value) {
        Some(text) => text,
        None => String::new(),
    }
}

/// The port that a value names: an unsigned integer below 65536, or its
/// decimal form.
pub open spec fn port_of(value: Option<JsonValue>) -> Option<u16> {
    match value {
        Some(JsonValue::Number(_, Some(number))) => if number <= u16::MAX {
            Some(number as u16)
        } else {
            None
        },
        Some(JsonValue::Text(text)) => port_value(text),
        _ => None,
    }
}

/// The port that a text writes in decimal.
pub open spec fn port_value(text: Seq<char>) -> Option<u16> {
    match text::unsigned_value(text, u16::MAX as nat) {
        Some(number) => Some(number as u16),
        None => None,
    }
}

/// Reads a port from its decimal form.
pub fn parse_port_text(text: &str) -> (port: Option<u16>)
    ensures
        port == port_value(text@),
{
    match text::parse_unsigned(text, 65535) {
        Some(number) => Some(number as u16),
        None => None,
    }
}

/// The port that a value names.
pub fn parse_port(value: Option<&Json>) -> (port: Option<u16>)
    ensures
        port == port_of(json::part_view(value)),
{
    match value {
        Some(Json::Number(_, Some(number))) => if *number <= 65535 {
            Some(*number as u16)
        } else {
            None
        },
        Some(Json::Text(text)) => parse_port_text(text.as_str()),
        _ => None,
    }
}

// ---------------------------------------------------------------------------
// Fields
// ---------------------------------------------------------------------------

/// A text, where there is one that is not empty.
pub open spec fn not_empty(text: Option<Seq<char>>) -> Option<Seq<char>> {
    match text {
        Some(text) => if text.len() > 0 {
            Some(text)
        } else {
            None
        },
        None => None,
    }
}

/// A text, where there is one that is not empty.
pub fn keep_not_empty(text: Option<String>) -> (result: Option<String>)
    ensures
        text::text_view(result) == not_empty(text::text_view(text)),
{
    match text {
        Some(text) => if text.as_str().is_empty() {
            None
        } else {
            Some(text)
        },
        None => None,
    }
}

/// The text of a part, where there is a part that has one.
pub open spec fn part_text(value: Option<JsonValue>) -> Option<Seq<char>> {
    match value {
        Some(value) => stringified(value),
        None => None,
    }
}

/// The text of a part, where there is a part that has one.
pub fn stringify_part(part: Option<&Json>) -> (result: Option<String>)
    ensures
        text::text_view(result) == part_text(json::part_view(part)),
{
    match part {
        Some(value) => stringify_value(value),
        None => None,
    }
}

/// The text under `key` in an object, where there is one that is not empty.
pub open spec fn string_field(object: Seq<(Seq<char>, JsonValue)>, key: Seq<char>) -> Option<
    Seq<char>,
> {
    not_empty(part_text(json::entry(object, key)))
}

/// The text under `key` in an object, where there is one that is not empty.
pub fn get_string(object: &Vec<(String, Json)>, key: &str) -> (result: Option<String>)
    ensures
        text::text_view(result) == string_field(json::entries_view(object@), key@),
{
    keep_not_empty(stringify_part(json::find(object, key)))
}

/// The port under `key` in an object.
pub fn get_u16(object: &Vec<(String, Json)>, key: &str) -> (port: Option<u16>)
    ensures
        port == port_of(json::entry(json::entries_view(object@), key@)),
{
    parse_port(json::find(object, key))
}

/// The flag of a part that is one.
pub open spec fn flag_of(value: Option<JsonValue>) -> Option<bool> {
    match value {
        Some(JsonValue::Bool(flag)) => Some(flag),
        _ => None,
    }
}

/// The flag under `key` in an object.
pub fn get_bool(object: &Vec<(String, Json)>, key: &str) -> (flag: Option<bool>)
    ensures
        flag == flag_of(json::entry(json::entries_view(object@), key@)),
{
    match json::find(object, key) {
        Some(Json::Bool(flag)) => Some(*flag),
        _ => None,
    }
}

/// What stands in a document at the end of `path`.
pub open spec fn nested(value: JsonValue, path: Seq<Seq<char>>) -> Option<JsonValue>
    decreases path.len(),
{
    if path.len() == 0 {
        Some(value)
    } else {
        match json::member(value, path[0]) {
            Some(part) => nested(part, path.skip(1)),
            None => None,
        }
    }
}

/// The views of the steps of a path.
pub open spec fn path_view(path: Seq<&str>) -> Seq<Seq<char>> {
    path.map_values(|step: &str| step@)
}

/// What stands in a document at the end of `path`.
fn follow<'a>(value: &'a Json, path: &Vec<&str>) -> (part: Option<&'a Json>)
    ensures
        json::part_view(part) == nested(value@, path_view(path@)),
{
    let ghost steps = path_view(path@);
    let mut current: &'a Json = value;
    let mut i: usize = 0;
    assert(steps.skip(0) =~= steps);
    while i < path.len()
        invariant
            i <= path@.len(),
            steps == path_view(path@),
            nested(value@, steps) == nested(current@, steps.skip(i as int)),
        decreases path@.len() - i,
    {
        assert(steps.skip(i as int)[0] == path@[i as int]@);
        assert(steps.skip(i as int).skip(1) =~= steps.skip(i + 1));
        match json::get(current, path[i]) {
            Some(part) => {
                current = part;
            },
            None => {
                return None;
            },
        }
        i = i + 1;
    }
    Some(current)
}

/// The text that stands in an object at the end of `path`.
pub open spec fn nested_text(
    object: Seq<(Seq<char>, JsonValue)>,
    path: Seq<Seq<char>>,
) -> Option<Seq<char>> {
    part_text(nested(JsonValue::Object(object), path))
}

/// The text that stands in an object at the end of `path`.
pub fn get_nested_string(object: &Vec<(String, Json)>, path: &Vec<&str>) -> (result: Option<String>)
    ensures
        text::text_view(result) == nested_text(json::entries_view(object@), path_view(path@)),
{
    let ghost steps = path_view(path@);
    if path.len() == 0 {
        return None;
    }
    assert(steps[0] == path@[0]@);
    match json::find(object, path[0]) {
        Some(part) => {
            let mut rest: Vec<&str> = Vec::new();
            let mut i: usize = 1;
            while i < path.len()
                invariant
                    1 <= i <= path@.len(),
                    rest@ == path@.subrange(1, i as int),
                decreases path@.len() - i,
            {
                rest.push(path[i]);
                i = i + 1;
                assert(rest@ =~= path@.subrange(1, i as int));
            }
            assert(path_view(rest@) =~= steps.skip(1));
            stringify_part(follow(part, &rest))
        },
        None => None,
    }
}

// ---------------------------------------------------------------------------
// Flat parameters
// ---------------------------------------------------------------------------

/// The fields of an object that have a text, each under its key.
pub open spec fn scalar_fields(object: Seq<(Seq<char>, JsonValue)>) -> Map<Seq<char>, Seq<char>>
    decreases object.len(),
{
    if object.len() == 0 {
        Map::empty()
    } else {
        strmap::with_some(
            scalar_fields(object.drop_last()),
            object.last().0,
            stringified(object.last().1),
        )
    }
}

/// The entries of an object, none where there is no object.
pub open spec fn entries_or_none(object: Option<Seq<(Seq<char>, JsonValue)>>) -> Seq<
    (Seq<char>, JsonValue),
> {
    match object {
        Some(entries) => entries,
        None => Seq::empty(),
    }
}

/// The view of an optional object.
pub open spec fn object_view(object: Option<&Vec<(String, Json)>>) -> Option<
    Seq<(Seq<char>, JsonValue)>,
> {
    match object {
        Some(entries) => Some(json::entries_view(entries@)),
        None => None,
    }
}

/// The fields of an object that have a text, each under its key.
pub fn collect_scalar_fields(object: Option<&Vec<(String, Json)>>) -> (params: StrMap<String>)
    ensures
        params@ == scalar_fields(entries_or_none(object_view(object))),
{
    let mut params: StrMap<String> = StrMap::new();
    match object {
        Some(entries) => {
            let ghost all = json::entries_view(entries@);
            let mut i: usize = 0;
            assert(all.take(0) =~= Seq::empty());
            while i < entries.len()
                invariant
                    i <= entries@.len(),
                    all == json::entries_view(entries@),
                    params@ == scalar_fields(all.take(i as int)),
                decreases entries@.len() - i,
            {
                let ghost seen = all.take(i + 1);
                assert(seen.drop_last() =~= all.take(i as int));
                assert(seen.last() == all[i as int]);
                let text = stringify_value(&entries[i].1);
                strmap::insert_some(&mut params, entries[i].0.as_str(), &text);
                i = i + 1;
            }
            assert(all.take(i as int) =~= all);
        },
        None => {},
    }
    params
}

/// `params` with the scalars of a value, each under its dotted path: an object
/// adds what its entries add, in order, and an array its texts with commas
/// between them, unless that is empty.
pub open spec fn flattened(
    prefix: Seq<char>,
    value: JsonValue,
    params: Map<Seq<char>, Seq<char>>,
) -> Map<Seq<char>, Seq<char>>
    decreases value,
{
    match value {
        JsonValue::Object(entries) => flattened_entries(prefix, entries, params),
        JsonValue::Array(list) => strmap::with_some(
            params,
            prefix,
            not_empty(Some(text::joined(texts_of(list), ","@))),
        ),
        _ => strmap::with_some(params, prefix, stringified(value)),
    }
}

/// `params` with the scalars of the entries of an object, in order.
pub open spec fn flattened_entries(
    prefix: Seq<char>,
    entries: Seq<(Seq<char>, JsonValue)>,
    params: Map<Seq<char>, Seq<char>>,
) -> Map<Seq<char>, Seq<char>>
    decreases entries,
{
    if entries.len() == 0 {
        params
    } else {
        let last = entries.last();
        flattened(
            prefix + "."@ + last.0,
            last.1,
            flattened_entries(prefix, entries.drop_last(), params),
        )
    }
}

/// Adds the scalars of a value, each under its dotted path.
fn flatten_into(prefix: &str, value: &Json, params: &mut StrMap<String>)
    ensures
        final(params)@ == flattened(prefix@, value@, old(params)@),
    decreases value,
{
    match value {
        Json::Object(entries) => {
            proof {
                json::lemma_object_view(*entries);
            }
            let ghost all = json::entries_view(entries@);
            let ghost start = params@;
            let mut i: usize = 0;
            assert(all.take(0) =~= Seq::empty());
            while i < entries.len()
                invariant
                    i <= entries@.len(),
                    all == json::entries_view(entries@),
                    *value == Json::Object(*entries),
                    params@ == flattened_entries(prefix@, all.take(i as int), start),
                decreases entries@.len() - i,
            {
                let ghost seen = all.take(i + 1);
                assert(seen.drop_last() =~= all.take(i as int));
                assert(seen.last() == all[i as int]);
                assert(decreases_to!(value => value->Object_0));
                assert(decreases_to!(entries => entries@[i as int]));
                assert(decreases_to!(entries@[i as int] => entries@[i as int].1));
                let mut next = prefix.to_string();
                next.append(".");
                next.append(entries[i].0.as_str());
                flatten_into(next.as_str(), &entries[i].1, params);
                i = i + 1;
            }
            assert(all.take(i as int) =~= all);
        },
        Json::Array(list) => {
            proof {
                json::lemma_array_view(*list);
            }
            let joined = text::join(&stringify_all(list), ",");
            let kept = keep_not_empty(Some(joined));
            strmap::insert_some(params, prefix, &kept);
        },
        _ => {
            let text = stringify_value(value);
            strmap::insert_some(params, prefix, &text);
        },
    }
}

/// `params` with the scalars of a part, where there is one.
pub open spec fn flattened_part(
    prefix: Seq<char>,
    value: Option<JsonValue>,
    params: Map<Seq<char>, Seq<char>>,
) -> Map<Seq<char>, Seq<char>> {
    match value {
        Some(value) => flattened(prefix, value, params),
        None => params,
    }
}

/// Adds the scalars of a part, where there is one.
pub fn flatten_value(prefix: &str, value: Option<&Json>, params: &mut StrMap<String>)
    ensures
        final(params)@ == flattened_part(prefix@, json::part_view(value), old(params)@),
{
    match value {
        Some(value) => flatten_into(prefix, value, params),
        None => {},
    }
}

// ---------------------------------------------------------------------------
// Transport settings
// ---------------------------------------------------------------------------

/// The first of two texts that is there.
pub open spec fn or_text(first: Option<Seq<char>>, second: Option<Seq<char>>) -> Option<Seq<char>> {
    if first is Some {
        first
    } else {
        second
    }
}

/// The path of a transport: its `path`, its `service_name` or the `path` among
/// its headers.
pub open spec fn transport_path(transport: Seq<(Seq<char>, JsonValue)>) -> Option<Seq<char>> {
    or_text(
        or_text(string_field(transport, "path"@), string_field(transport, "service_name"@)),
        nested_text(transport, seq!["headers"@, "path"@]),
    )
}

/// The path of a transport.
pub fn extract_transport_path(transport: &Vec<(String, Json)>) -> (path: Option<String>)
    ensures
        text::text_view(path) == transport_path(json::entries_view(transport@)),
{
    let path = get_string(transport, "path");
    if path.is_some() {
        return path;
    }
    let service_name = get_string(transport, "service_name");
    if service_name.is_some() {
        return service_name;
    }
    let steps: Vec<&str> = vec!["headers", "path"];
    assert(path_view(steps@) =~= seq!["headers"@, "path"@]);
    get_nested_string(transport, &steps)
}

/// The first of a list of texts.
pub open spec fn first_text(texts: Seq<Seq<char>>) -> Option<Seq<char>> {
    if texts.len() > 0 {
        Some(texts[0])
    } else {
        None
    }
}

/// The host of a transport: its `host`, the first text of a list of hosts, or
/// the `Host` or `host` among its headers.
pub open spec fn transport_host(transport: Seq<(Seq<char>, JsonValue)>) -> Option<Seq<char>> {
    or_text(
        string_field(transport, "host"@),
        or_text(
            match json::array_of(json::entry(transport, "host"@)) {
                Some(hosts) => first_text(texts_of(hosts)),
                None => None,
            },
            match json::object_of(json::entry(transport, "headers"@)) {
                Some(headers) => or_text(
                    part_text(json::entry(headers, "Host"@)),
                    part_text(json::entry(headers, "host"@)),
                ),
                None => None,
            },
        ),
    )
}

/// The host of a transport.
pub fn extract_transport_host(transport: &Vec<(String, Json)>) -> (host: Option<String>)
    ensures
        text::text_view(host) == transport_host(json::entries_view(transport@)),
{
    let host = get_string(transport, "host");
    if host.is_some() {
        return host;
    }
    match json::as_array(json::find(transport, "host")) {
        Some(hosts) => {
            let texts = stringify_all(hosts);
            if texts.len() > 0 {
                assert(items::views(texts@)[0] == texts@[0]@);
                return Some(texts[0].clone());
            }
        },
        None => {},
    }
    match json::as_object(json::find(transport, "headers")) {
        Some(headers) => {
            let upper = stringify_part(json::find(headers, "Host"));
            if upper.is_some() {
                return upper;
            }
            stringify_part(json::find(headers, "host"))
        },
        None => None,
    }
}

/// The header type of a transport: its `header_type` or the `type` of its
/// header.
pub open spec fn header_type_of(transport: Seq<(Seq<char>, JsonValue)>) -> Option<Seq<char>> {
    or_text(
        string_field(transport, "header_type"@),
        nested_text(transport, seq!["header"@, "type"@]),
    )
}

/// The header type of a transport.
pub fn extract_header_type(transport: &Vec<(String, Json)>) -> (result: Option<String>)
    ensures
        text::text_view(result) == header_type_of(json::entries_view(transport@)),
{
    let header_type = get_string(transport, "header_type");
    if header_type.is_some() {
        return header_type;
    }
    let steps: Vec<&str> = vec!["header", "type"];
    assert(path_view(steps@) =~= seq!["header"@, "type"@]);
    get_nested_string(transport, &steps)
}

} // verus!
