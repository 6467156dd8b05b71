//! JSON documents as plain values.
//!
//! A `Json` holds what the readers of a document look at. It is made from a
//! parsed `serde_json::Value`, one layer at a time.

use vstd::prelude::*;

use crate::codec;
use crate::items;
use crate::strmap;
use crate::strmap::StrMap;
use crate::text;

verus! {

/// A parsed document of `serde_json`, seen only through the functions below.
#[verifier::external_type_specification]
#[verifier::external_body]
pub struct ExValue(serde_json::Value);

/// The mathematical form of a JSON document. The entries of an object stand
/// in key order. Of a number its text is kept, and its value where it is an
/// unsigned integer.
pub enum JsonValue {
    Null,
    Bool(bool),
    Number(Seq<char>, Option<u64>),
    Text(Seq<char>),
    Array(Seq<JsonValue>),
    Object(Seq<(Seq<char>, JsonValue)>),
}

/// A JSON document.
#[derive(Debug)]
pub enum Json {
    Null,
    Bool(bool),
    Number(String, Option<u64>),
    Text(String),
    Array(Vec<Json>),
    Object(Vec<(String, Json)>),
}

/// The mathematical form of a document.
pub open spec fn json_value(json: Json) -> JsonValue
    decreases json,
{
    match json {
        Json::Null => JsonValue::Null,
        Json::Bool(flag) => JsonValue::Bool(flag),
        Json::Number(text, unsigned) => JsonValue::Number(text@, unsigned),
        Json::Text(text) => JsonValue::Text(text@),
        Json::Array(list) => JsonValue::Array(
            Seq::new(
                list@.len(),
                |i: int|
                    if 0 <= i < list@.len() {
                        json_value(list@[i])
                    } else {
                        JsonValue::Null
                    },
            ),
        ),
        Json::Object(entries) => JsonValue::Object(
            Seq::new(
                entries@.len(),
                |i: int|
                    if 0 <= i < entries@.len() {
                        (entries@[i].0@, json_value(entries@[i].1))
                    } else {
                        (Seq::empty(), JsonValue::Null)
                    },
            ),
        ),
    }
}

impl View for Json {
    type V = JsonValue;

    open spec fn view(&self) -> JsonValue {
        json_value(*self)
    }
}

/// What a parsed document of `serde_json` holds.
pub uninterp spec fn value_contents(value: serde_json::Value) -> JsonValue;

/// What `serde_json::from_str` reads from a text.
pub uninterp spec fn document_of(text: Seq<char>) -> Option<JsonValue>;

/// The white space of JSON.
pub open spec fn is_json_space(ch: char) -> bool {
    ch == ' ' || ch == '\n' || ch == '\t' || ch == '\r'
}

/// The characters of numbers, of `true`, `false` and `null`, and white space.
pub open spec fn is_scalar_char(ch: char) -> bool {
    ||| is_json_space(ch)
    ||| '0' <= ch <= '9'
    ||| ch == '-' || ch == '+' || ch == '.' || ch == 'e' || ch == 'E'
    ||| ch == 't' || ch == 'r' || ch == 'u' || ch == 'f' || ch == 'a' || ch == 'l' || ch == 's'
        || ch == 'n'
}

/// Whether a text starts as a document can, or is made as one can be that is a
/// scalar.
pub open spec fn opens_document(text: Seq<char>) -> bool {
    &&& text.len() > 0
    &&& {
        ||| is_json_space(text[0]) || text[0] == '{' || text[0] == '[' || text[0] == '"'
        ||| forall|i: int| 0 <= i < text.len() ==> is_scalar_char(#[trigger] text[i])
    }
}

/// A text without the white space of JSON at its start.
pub open spec fn skip_json_spaces(text: Seq<char>) -> Seq<char>
    decreases text.len(),
{
    if text.len() > 0 && is_json_space(text[0]) {
        skip_json_spaces(text.skip(1))
    } else {
        text
    }
}

/// Whether a text is empty or starts as a token of a document does.
pub open spec fn starts_token(text: Seq<char>) -> bool {
    ||| text.len() == 0
    ||| text[0] == '{' || text[0] == '}' || text[0] == '[' || text[0] == ']'
    ||| text[0] == ',' || text[0] == ':' || text[0] == '"' || text[0] == '-'
    ||| '0' <= text[0] <= '9'
    ||| "true"@.is_prefix_of(text) || "false"@.is_prefix_of(text) || "null"@.is_prefix_of(text)
}

/// Whether every line of a text starts with a token, white space left out, as
/// the lines of a document do: no text in it holds a line break.
pub open spec fn lines_start_tokens(text: Seq<char>) -> bool {
    forall|i: int|
        0 <= i <= text.len() && (i == 0 || text[i - 1] == '\n') ==> starts_token(
            skip_json_spaces(#[trigger] text.skip(i)),
        )
}

/// `serde_json::from_str::<serde_json::Value>`: the document that `text`
/// holds, or nothing where `text` is not JSON, as one is that does not start as
/// a document can, or with a line that starts with no token.
#[verifier::external_body]
fn parse_value(text: &str) -> (value: Option<serde_json::Value>)
    ensures
        match value {
            Some(value) => document_of(text@) == Some(value_contents(value)),
            None => document_of(text@) is None,
        },
        value is Some ==> opens_document(text@) && lines_start_tokens(text@),
{
    serde_json::from_str::<serde_json::Value>(text).ok()
}

/// One layer of a parsed document, its parts still of `serde_json`.
#[derive(Debug)]
enum Layer {
    Null,
    Bool(bool),
    Number(String, Option<u64>),
    Text(String),
    Array(Vec<serde_json::Value>),
    Object(Vec<(String, serde_json::Value)>),
}

spec fn layer_contents(layer: Layer) -> JsonValue {
    match layer {
        Layer::Null => JsonValue::Null,
        Layer::Bool(flag) => JsonValue::Bool(flag),
        Layer::Number(text, unsigned) => JsonValue::Number(text@, unsigned),
        Layer::Text(text) => JsonValue::Text(text@),
        Layer::Array(list) => JsonValue::Array(
            list@.map_values(|item: serde_json::Value| value_contents(item)),
        ),
        Layer::Object(entries) => JsonValue::Object(
            entries@.map_values(
                |entry: (String, serde_json::Value)| (entry.0@, value_contents(entry.1)),
            ),
        ),
    }
}

/// Takes a `serde_json::Value` apart by its variants. Nothing is claimed but
/// that the layer holds what the value holds.
#[verifier::external_body]
fn open_value(value: serde_json::Value) -> (layer: Layer)
    ensures
        layer_contents(layer) == value_contents(value),
{
    match value {
        serde_json::Value::Null => Layer::Null,
        serde_json::Value::Bool(flag) => Layer::Bool(flag),
        serde_json::Value::Number(number) => Layer::Number(number.to_string(), number.as_u64()),
        serde_json::Value::String(text) => Layer::Text(text),
        serde_json::Value::Array(list) => Layer::Array(list),
        serde_json::Value::Object(map) => Layer::Object(map.into_iter().collect()),
    }
}

/// The document that a parsed value holds.
fn from_value(value: serde_json::Value) -> (json: Json)
    ensures
        json@ == value_contents(value),
    decreases value_contents(value),
{
    match open_value(value) {
        Layer::Null => Json::Null,
        Layer::Bool(flag) => Json::Bool(flag),
        Layer::Number(text, unsigned) => Json::Number(text, unsigned),
        Layer::Text(text) => Json::Text(text),
        Layer::Array(list) => {
            let ghost items = list@.map_values(|item: serde_json::Value| value_contents(item));
            let mut done: Vec<Json> = Vec::new();
            for item in it: list
                invariant
                    value_contents(value) == JsonValue::Array(items),
                    it.seq() == list@,
                    items == list@.map_values(|item: serde_json::Value| value_contents(item)),
                    done@.len() == it.index(),
                    forall|j: int| 0 <= j < done@.len() ==> (#[trigger] done@[j])@ == items[j],
            {
                assert(value_contents(item) == items[it.index() as int]);
                assert(decreases_to!(value_contents(value) => value_contents(value)->Array_0));
                assert(decreases_to!(items => items[it.index() as int]));
                done.push(from_value(item));
            }
            let json = Json::Array(done);
            assert(json@->Array_0 =~= items);
            json
        },
        Layer::Object(entries) => {
            let ghost pairs = entries@.map_values(
                |entry: (String, serde_json::Value)| (entry.0@, value_contents(entry.1)),
            );
            let mut done: Vec<(String, Json)> = Vec::new();
            for entry in it: entries
                invariant
                    value_contents(value) == JsonValue::Object(pairs),
                    it.seq() == entries@,
                    pairs == entries@.map_values(
                        |entry: (String, serde_json::Value)| (entry.0@, value_contents(entry.1)),
                    ),
                    done@.len() == it.index(),
                    forall|j: int|
                        0 <= j < done@.len() ==> (#[trigger] done@[j]).0@ == pairs[j].0 && done@[j].1@
                            == pairs[j].1,
            {
                let ghost pair = pairs[it.index() as int];
                assert(value_contents(entry.1) == pair.1);
                assert(decreases_to!(value_contents(value) => value_contents(value)->Object_0));
                assert(decreases_to!(pairs => pair));
                assert(decreases_to!(pair => pair.1));
                let json = from_value(entry.1);
                done.push((entry.0, json));
            }
            let json = Json::Object(done);
            assert(json@->Object_0 =~= pairs);
            json
        },
    }
}

/// The document that `text` holds, or nothing where `text` is not JSON.
pub fn parse_document(text: &str) -> (json: Option<Json>)
    ensures
        document_view(json) == document_of(text@),
        json is Some ==> opens_document(text@) && lines_start_tokens(text@),
{
    match parse_value(text) {
        Some(value) => Some(from_value(value)),
        None => None,
    }
}

// ---------------------------------------------------------------------------
// Writing
// ---------------------------------------------------------------------------

/// A digit of a hexadecimal number, in lower case.
pub open spec fn hex_digit(value: int) -> char {
    if value < 10 {
        ('0' as u32 + value) as char
    } else {
        ('a' as u32 + value - 10) as char
    }
}

/// One character of a text, escaped where JSON asks for it.
pub open spec fn json_char(ch: char) -> Seq<char> {
    if ch == '"' || ch == '\\' {
        seq!['\\', ch]
    } else if ch == '\u{8}' {
        seq!['\\', 'b']
    } else if ch == '\t' {
        seq!['\\', 't']
    } else if ch == '\n' {
        seq!['\\', 'n']
    } else if ch == '\u{c}' {
        seq!['\\', 'f']
    } else if ch == '\r' {
        seq!['\\', 'r']
    } else if ' ' > ch {
        seq!['\\', 'u', '0', '0', hex_digit(ch as int / 16), hex_digit(ch as int % 16)]
    } else {
        seq![ch]
    }
}

/// The characters of a text, escaped where JSON asks for it.
pub open spec fn json_chars(text: Seq<char>) -> Seq<char>
    decreases text.len(),
{
    if text.len() == 0 {
        Seq::empty()
    } else {
        json_chars(text.drop_last()) + json_char(text.last())
    }
}

/// A text in JSON.
pub open spec fn json_text(text: Seq<char>) -> Seq<char> {
    "\""@ + json_chars(text) + "\""@
}

/// An object with text values in JSON, without white space.
pub open spec fn object_text(pairs: Seq<(Seq<char>, Seq<char>)>) -> Seq<char> {
    let members = pairs.map_values(
        |pair: (Seq<char>, Seq<char>)| json_text(pair.0) + ":"@ + json_text(pair.1),
    );
    "{"@ + text::joined(members, ","@) + "}"@
}

/// An object with text values.
pub open spec fn text_object(pairs: Seq<(Seq<char>, Seq<char>)>) -> JsonValue {
    JsonValue::Object(
        pairs.map_values(|pair: (Seq<char>, Seq<char>)| (pair.0, JsonValue::Text(pair.1))),
    )
}

/// Whether a key does not start with a dollar sign.
pub open spec fn is_plain_key(key: Seq<char>) -> bool {
    key.len() == 0 || key[0] != '$'
}

/// Whether no key starts with a dollar sign.
pub open spec fn plain_keys(pairs: Seq<(Seq<char>, Seq<char>)>) -> bool {
    forall|i: int| 0 <= i < pairs.len() ==> is_plain_key(#[trigger] pairs[i].0)
}

/// `serde_json::to_string` of the map that holds `pairs`, whose keys increase:
/// it always writes the object, in the order of the keys. What it writes, `serde_json::from_str` reads back
/// as the same object, if no key starts with a dollar sign. Nothing is claimed
/// of other keys, one of which `serde_json` reads as a sign that the value is a
/// document of its own.
#[verifier::external_body]
fn write_object(pairs: &Vec<(String, String)>) -> (result: Option<String>)
    requires
        strmap::strictly_ordered(codec::pair_views(pairs@)),
    ensures
        result is Some,
        result matches Some(written) ==> written@ == object_text(codec::pair_views(pairs@)),
        result matches Some(written) ==> plain_keys(codec::pair_views(pairs@)) ==> document_of(
            written@,
        ) == Some(text_object(codec::pair_views(pairs@))),
{
    let map: serde_json::Map<String, serde_json::Value> = pairs
        .iter()
        .map(|pair| (pair.0.clone(), serde_json::Value::String(pair.1.clone())))
        .collect();
    serde_json::to_string(&map).ok()
}

/// Writes an object with text values. It is read back as the same object, if
/// none of its keys starts with a dollar sign.
pub fn text_object_document(fields: &StrMap<String>) -> (written: String)
    ensures
        written@ == object_text(strmap::ordered_pairs(fields@)),
        plain_keys(strmap::ordered_pairs(fields@)) ==> document_of(written@) == Some(
            text_object(strmap::ordered_pairs(fields@)),
        ),
{
    let pairs = strmap::pairs_of(fields);
    write_object(&pairs).unwrap()
}

/// A new line of a document, two spaces in for each layer around it.
pub open spec fn new_line(depth: nat) -> Seq<char> {
    "\n"@ + Seq::new(2 * depth, |i: int| ' ')
}

/// A document in JSON, one line for each part of it. The document stands in
/// `depth` others.
pub open spec fn document_text(value: JsonValue, depth: nat) -> Seq<char>
    decreases value,
{
    match value {
        JsonValue::Null => "null"@,
        JsonValue::Bool(flag) => if flag {
            "true"@
        } else {
            "false"@
        },
        JsonValue::Number(text, _) => text,
        JsonValue::Text(text) => json_text(text),
        JsonValue::Array(list) => if list.len() == 0 {
            "[]"@
        } else {
            let lines = Seq::new(
                list.len(),
                |i: int|
                    if 0 <= i < list.len() {
                        new_line(depth + 1) + document_text(list[i], depth + 1)
                    } else {
                        Seq::empty()
                    },
            );
            "["@ + text::joined(lines, ","@) + new_line(depth) + "]"@
        },
        JsonValue::Object(pairs) => if pairs.len() == 0 {
            "{}"@
        } else {
            let lines = Seq::new(
                pairs.len(),
                |i: int|
                    if 0 <= i < pairs.len() {
                        new_line(depth + 1) + json_text(pairs[i].0) + ": "@ + document_text(
                            pairs[i].1,
                            depth + 1,
                        )
                    } else {
                        Seq::empty()
                    },
            );
            "{"@ + text::joined(lines, ","@) + new_line(depth) + "}"@
        },
    }
}

/// Whether a document can be written as it is: its numbers are unsigned
/// integers in decimal, and the keys of its objects increase.
pub open spec fn is_writable(value: JsonValue) -> bool
    decreases value,
{
    match value {
        JsonValue::Number(text, number) => number matches Some(number) && text == text::decimal(
            number as nat,
        ),
        JsonValue::Array(list) => forall|i: int|
            0 <= i < list.len() ==> is_writable(#[trigger] list[i]),
        JsonValue::Object(pairs) => strmap::strictly_ordered(pairs) && forall|i: int|
            0 <= i < pairs.len() ==> is_writable((#[trigger] pairs[i]).1),
        _ => true,
    }
}

/// Whether the number of a layer is an unsigned integer in decimal, and the
/// keys of its object increase.
spec fn is_plain_layer(layer: Layer) -> bool {
    match layer {
        Layer::Number(text, number) => number matches Some(number) && text@ == text::decimal(
            number as nat,
        ),
        Layer::Object(entries) => strmap::strictly_ordered(
            entries@.map_values(
                |entry: (String, serde_json::Value)| (entry.0@, value_contents(entry.1)),
            ),
        ),
        _ => true,
    }
}

/// Puts a `serde_json::Value` together of one variant, the map of an object of
/// its entries. Nothing is claimed but that the value holds what the layer
/// holds.
#[verifier::external_body]
fn close_value(layer: Layer) -> (value: serde_json::Value)
    requires
        is_plain_layer(layer),
    ensures
        value_contents(value) == layer_contents(layer),
{
    match layer {
        Layer::Null => serde_json::Value::Null,
        Layer::Bool(flag) => serde_json::Value::Bool(flag),
        Layer::Number(_, number) => serde_json::Value::from(number),
        Layer::Text(text) => serde_json::Value::String(text),
        Layer::Array(list) => serde_json::Value::Array(list),
        Layer::Object(entries) => serde_json::Value::Object(entries.into_iter().collect()),
    }
}

/// `serde_json::to_string_pretty`: it always writes the document, with two
/// spaces more for each layer.
#[verifier::external_body]
fn write_value(value: &serde_json::Value) -> (written: Option<String>)
    ensures
        written is Some,
        written matches Some(written) ==> written@ == document_text(value_contents(*value), 0),
{
    serde_json::to_string_pretty(value).ok()
}

/// The value that holds a document, if it can be written as it is.
fn to_value(json: Json) -> (value: Option<serde_json::Value>)
    ensures
        match value {
            Some(value) => is_writable(json@) && value_contents(value) == json@,
            None => !is_writable(json@),
        },
    decreases json@,
{
    match json {
        Json::Null => Some(close_value(Layer::Null)),
        Json::Bool(flag) => Some(close_value(Layer::Bool(flag))),
        Json::Text(text) => Some(close_value(Layer::Text(text))),
        Json::Number(text, number) => match number {
            None => None,
            Some(number) => {
                let decimal = text::decimal_text(number);
                if !text::same_text(text.as_str(), decimal.as_str()) {
                    return None;
                }
                Some(close_value(Layer::Number(text, Some(number))))
            },
        },
        Json::Array(list) => {
            let ghost items = json@->Array_0;
            let mut done: Vec<serde_json::Value> = Vec::new();
            for item in it: list
                invariant
                    json@ == JsonValue::Array(items),
                    items == items_view(list@),
                    it.seq() == list@,
                    done@.len() == it.index(),
                    forall|j: int|
                        0 <= j < done@.len() ==> is_writable(#[trigger] items[j])
                            && value_contents(done@[j]) == items[j],
            {
                assert(item@ == items[it.index() as int]);
                assert(decreases_to!(json@ => json@->Array_0));
                assert(decreases_to!(items => items[it.index() as int]));
                match to_value(item) {
                    Some(value) => done.push(value),
                    None => {
                        return None;
                    },
                }
            }
            let layer = Layer::Array(done);
            assert(layer_contents(layer)->Array_0 =~= items);
            Some(close_value(layer))
        },
        Json::Object(entries) => {
            let ghost pairs = json@->Object_0;
            let mut done: Vec<(String, serde_json::Value)> = Vec::new();
            for entry in it: entries
                invariant
                    json@ == JsonValue::Object(pairs),
                    pairs == entries_view(entries@),
                    it.seq() == entries@,
                    done@.len() == it.index(),
                    forall|j: int|
                        0 <= j < done@.len() ==> is_writable((#[trigger] pairs[j]).1)
                            && done@[j].0@ == pairs[j].0 && value_contents(done@[j].1)
                            == pairs[j].1,
                    strmap::strictly_ordered(pairs.take(done@.len() as int)),
            {
                let ghost i = it.index() as int;
                let ghost pair = pairs[i];
                assert(entry.0@ == pair.0 && entry.1@ == pair.1);
                assert(decreases_to!(json@ => json@->Object_0));
                assert(decreases_to!(pairs => pair));
                assert(decreases_to!(pair => pair.1));
                if done.len() > 0 {
                    let last = done.len() - 1;
                    assert(pairs[i - 1].0 == done@[i - 1].0@);
                    match strmap::side_of(done[last].0.as_str(), entry.0.as_str()) {
                        strmap::Side::Before => {},
                        _ => {
                            assert(!strmap::text_before(pairs[i - 1].0, pairs[i].0));
                            return None;
                        },
                    }
                }
                proof {
                    strmap::lemma_one_more(pairs, i);
                }
                match to_value(entry.1) {
                    Some(value) => done.push((entry.0, value)),
                    None => {
                        return None;
                    },
                }
            }
            let layer = Layer::Object(done);
            assert(pairs.take(done@.len() as int) =~= pairs);
            assert(layer_contents(layer)->Object_0 =~= pairs);
            Some(close_value(layer))
        },
    }
}

/// Writes a document, if it can be written as it is.
pub fn write_document(json: Json) -> (written: Option<String>)
    ensures
        match written {
            Some(written) => is_writable(json@) && written@ == document_text(json@, 0),
            None => !is_writable(json@),
        },
{
    match to_value(json) {
        Some(value) => write_value(&value),
        None => None,
    }
}

/// An object can be written if its values can be.
pub proof fn law_object_is_writable(fields: Map<Seq<char>, JsonValue>)
    requires
        are_writable(fields),
    ensures
        is_writable(object_with(fields)),
{
    let pairs = strmap::ordered_pairs(fields);
    strmap::law_ordered_pairs_exist(fields);
    assert forall|i: int| 0 <= i < pairs.len() implies is_writable((#[trigger] pairs[i]).1) by {
        strmap::lemma_pair_map_value(pairs, i);
    }
}

/// Whether all values of finitely many fields can be written.
pub open spec fn are_writable(fields: Map<Seq<char>, JsonValue>) -> bool {
    &&& fields.dom().finite()
    &&& forall|key: Seq<char>| #[trigger]
        fields.contains_key(key) ==> is_writable(fields[key])
}

// ---------------------------------------------------------------------------
// Reading
// ---------------------------------------------------------------------------

/// The view of an optional document.
pub open spec fn document_view(json: Option<Json>) -> Option<JsonValue> {
    match json {
        Some(json) => Some(json@),
        None => None,
    }
}

/// The view of an optional part of a document.
pub open spec fn part_view(json: Option<&Json>) -> Option<JsonValue> {
    match json {
        Some(json) => Some(json@),
        None => None,
    }
}

/// The views of the entries of an object.
pub open spec fn entries_view(entries: Seq<(String, Json)>) -> Seq<(Seq<char>, JsonValue)> {
    entries.map_values(|entry: (String, Json)| (entry.0@, entry.1@))
}

/// The views of the items of an array.
pub open spec fn items_view(list: Seq<Json>) -> Seq<JsonValue> {
    list.map_values(|item: Json| item@)
}

/// The view of an object is made of the views of its entries.
pub proof fn lemma_object_view(entries: Vec<(String, Json)>)
    ensures
        Json::Object(entries)@ == JsonValue::Object(entries_view(entries@)),
{
    assert(Json::Object(entries)@->Object_0 =~= entries_view(entries@));
}

/// The view of an array is made of the views of its items.
pub proof fn lemma_array_view(list: Vec<Json>)
    ensures
        Json::Array(list)@ == JsonValue::Array(items_view(list@)),
{
    assert(Json::Array(list)@->Array_0 =~= items_view(list@));
}

/// The value under `key` in an object.
pub open spec fn entry(entries: Seq<(Seq<char>, JsonValue)>, key: Seq<char>) -> Option<JsonValue>
    decreases entries.len(),
{
    if entries.len() == 0 {
        None
    } else if entries[0].0 == key {
        Some(entries[0].1)
    } else {
        entry(entries.skip(1), key)
    }
}

/// The value under `key` in a document, where the document is an object.
pub open spec fn member(value: JsonValue, key: Seq<char>) -> Option<JsonValue> {
    match value {
        JsonValue::Object(entries) => entry(entries, key),
        _ => None,
    }
}

/// The value under `key` in an object.
pub fn find<'a>(entries: &'a Vec<(String, Json)>, key: &str) -> (part: Option<&'a Json>)
    ensures
        part_view(part) == entry(entries_view(entries@), key@),
{
    let ghost all = entries_view(entries@);
    let mut i: usize = 0;
    assert(all.skip(0) =~= all);
    while i < entries.len()
        invariant
            i <= entries@.len(),
            all == entries_view(entries@),
            entry(all, key@) == entry(all.skip(i as int), key@),
        decreases entries@.len() - i,
    {
        assert(all.skip(i as int)[0] == all[i as int]);
        if text::same_text(entries[i].0.as_str(), key) {
            return Some(&entries[i].1);
        }
        assert(all.skip(i as int).skip(1) =~= all.skip(i + 1));
        i = i + 1;
    }
    None
}

/// The value under `key` in a document, where the document is an object.
pub fn get<'a>(json: &'a Json, key: &str) -> (part: Option<&'a Json>)
    ensures
        part_view(part) == member(json@, key@),
{
    match json {
        Json::Object(entries) => {
            proof {
                lemma_object_view(*entries);
            }
            find(entries, key)
        },
        _ => None,
    }
}

/// The text of a part that is one.
pub open spec fn text_of(value: Option<JsonValue>) -> Option<Seq<char>> {
    match value {
        Some(JsonValue::Text(text)) => Some(text),
        _ => None,
    }
}

/// The text of a part that is one.
pub fn as_text(part: Option<&Json>) -> (text: Option<String>)
    ensures
        text::text_view(text) == text_of(part_view(part)),
{
    match part {
        Some(Json::Text(text)) => Some(text.clone()),
        _ => None,
    }
}

/// The entries of a part that is an object.
pub open spec fn object_of(value: Option<JsonValue>) -> Option<Seq<(Seq<char>, JsonValue)>> {
    match value {
        Some(JsonValue::Object(entries)) => Some(entries),
        _ => None,
    }
}

/// The entries of a part that is an object.
pub fn as_object<'a>(part: Option<&'a Json>) -> (entries: Option<&'a Vec<(String, Json)>>)
    ensures
        match entries {
            Some(entries) => object_of(part_view(part)) == Some(entries_view(entries@)),
            None => object_of(part_view(part)) is None,
        },
{
    match part {
        Some(Json::Object(entries)) => {
            proof {
                lemma_object_view(*entries);
            }
            Some(entries)
        },
        _ => None,
    }
}

/// The items of a part that is an array.
pub open spec fn array_of(value: Option<JsonValue>) -> Option<Seq<JsonValue>> {
    match value {
        Some(JsonValue::Array(list)) => Some(list),
        _ => None,
    }
}

/// The items of a part that is an array.
pub fn as_array<'a>(part: Option<&'a Json>) -> (list: Option<&'a Vec<Json>>)
    ensures
        match list {
            Some(list) => array_of(part_view(part)) == Some(items_view(list@)),
            None => array_of(part_view(part)) is None,
        },
{
    match part {
        Some(Json::Array(list)) => {
            proof {
                lemma_array_view(*list);
            }
            Some(list)
        },
        _ => None,
    }
}

// ---------------------------------------------------------------------------
// Making documents
// ---------------------------------------------------------------------------

/// An object with the entries of a map.
pub open spec fn object_with(map: Map<Seq<char>, JsonValue>) -> JsonValue {
    JsonValue::Object(strmap::ordered_pairs(map))
}

/// A number.
pub open spec fn number_value(number: u64) -> JsonValue {
    JsonValue::Number(text::decimal(number as nat), Some(number))
}

/// `map` with `value` under `key`, where there is a value.
pub open spec fn with_value(
    map: Map<Seq<char>, JsonValue>,
    key: Seq<char>,
    value: Option<JsonValue>,
) -> Map<Seq<char>, JsonValue> {
    match value {
        Some(value) => map.insert(key, value),
        None => map,
    }
}

/// `map` with a text under `key`, where there is one.
pub open spec fn with_text(
    map: Map<Seq<char>, JsonValue>,
    key: Seq<char>,
    text: Option<Seq<char>>,
) -> Map<Seq<char>, JsonValue> {
    match text {
        Some(text) => map.insert(key, JsonValue::Text(text)),
        None => map,
    }
}

/// An object with the entries of a map.
pub fn object_from(map: StrMap<Json>) -> (json: Json)
    ensures
        json@ == object_with(map@),
{
    let ghost all = strmap::ordered_pairs(map@);
    let count = map.len();
    let mut keys: Vec<String> = Vec::new();
    let mut i: usize = 0;
    while i < count
        invariant
            i <= count,
            count == all.len(),
            all == strmap::ordered_pairs(map@),
            keys@.len() == i,
            forall|j: int| 0 <= j < i ==> (#[trigger] keys@[j])@ == all[j].0,
        decreases count - i,
    {
        keys.push(map.key_at(i).clone());
        i = i + 1;
    }
    let mut left = map;
    let mut entries: Vec<(String, Json)> = Vec::new();
    proof {
        assert forall|j: int| 0 <= j < all.len() implies left@.contains_key((#[trigger] all[j]).0)
            && left@[all[j].0] == all[j].1 by {
            strmap::lemma_pair_map_value(all, j);
        }
    }
    let mut k: usize = 0;
    while k < count
        invariant
            k <= count,
            count == all.len(),
            keys@.len() == count,
            strmap::strictly_ordered(all),
            forall|j: int| 0 <= j < count ==> (#[trigger] keys@[j])@ == all[j].0,
            forall|j: int|
                k <= j < count ==> left@.contains_key((#[trigger] all[j]).0) && left@[all[j].0]
                    == all[j].1,
            entries@.len() == k,
            forall|j: int|
                0 <= j < k ==> (#[trigger] entries@[j]).0@ == all[j].0 && entries@[j].1@
                    == all[j].1,
        decreases count - k,
    {
        assert(keys@[k as int]@ == all[k as int].0);
        match left.remove(keys[k].as_str()) {
            Some(value) => {
                proof {
                    assert forall|j: int| k < j < count implies left@.contains_key(
                        (#[trigger] all[j]).0,
                    ) && left@[all[j].0] == all[j].1 by {
                        assert(strmap::text_before(all[k as int].0, all[j].0));
                        strmap::law_text_order_total(all[k as int].0, all[k as int].0);
                    }
                }
                entries.push((keys[k].clone(), value));
            },
            None => {
                assert(false);
            },
        }
        k = k + 1;
    }
    proof {
        lemma_object_view(entries);
        assert(entries_view(entries@) =~= all);
    }
    Json::Object(entries)
}

/// A number.
pub fn number_from(number: u64) -> (json: Json)
    ensures
        json@ == number_value(number),
{
    Json::Number(text::decimal_text(number), Some(number))
}

/// Stores a text under `key`.
pub fn put_text(map: &mut StrMap<Json>, key: &str, text: &str)
    ensures
        final(map)@ == old(map)@.insert(key@, JsonValue::Text(text@)),
{
    map.insert(key.to_string(), Json::Text(text.to_string()));
}

/// Stores a text under `key`, where there is one.
pub fn put_some_text(map: &mut StrMap<Json>, key: &str, text: &Option<String>)
    ensures
        final(map)@ == with_text(old(map)@, key@, text::text_view(*text)),
{
    match text {
        Some(text) => put_text(map, key, text.as_str()),
        None => {},
    }
}

/// A list of texts.
pub open spec fn text_list(texts: Seq<Seq<char>>) -> JsonValue {
    JsonValue::Array(texts.map_values(|text: Seq<char>| JsonValue::Text(text)))
}

/// A list of texts.
pub fn texts_from(texts: Vec<String>) -> (json: Json)
    ensures
        json@ == text_list(items::views(texts@)),
{
    let mut list: Vec<Json> = Vec::new();
    let mut i: usize = 0;
    while i < texts.len()
        invariant
            i <= texts@.len(),
            list@.len() == i,
            forall|j: int| 0 <= j < i ==> (#[trigger] list@[j])@ == JsonValue::Text(texts@[j]@),
        decreases texts@.len() - i,
    {
        list.push(Json::Text(texts[i].clone()));
        i = i + 1;
    }
    proof {
        lemma_array_view(list);
        assert(items_view(list@) =~= items::views(texts@).map_values(
            |text: Seq<char>| JsonValue::Text(text),
        ));
    }
    Json::Array(list)
}

} // verus!
