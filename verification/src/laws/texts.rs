//! Texts: what is cut off, cut out and put together.

use vstd::prelude::*;
use vstd::utf8::*;

use crate::codec;
use crate::codec::Place;
use crate::dedup;
use crate::strmap;
use crate::text;

verus! {

/// A text without the white space around it is the part of it between the first
/// and the last character that is no white space.
pub proof fn law_trimmed(text: Seq<char>, i: int, j: int)
    requires
        0 <= i <= j <= text.len(),
        forall|k: int| 0 <= k < i ==> text::is_space(#[trigger] text[k]),
        forall|k: int| j <= k < text.len() ==> text::is_space(#[trigger] text[k]),
        i < j ==> !text::is_space(text[i]) && !text::is_space(text[j - 1]),
    ensures
        text::trimmed(text) == text.subrange(i, j),
{
    if i == j {
        assert(forall|k: int| 0 <= k < text.len() ==> text::is_space(#[trigger] text[k]));
        lemma_trim_start(text, text.len() as int);
        assert(text.skip(text.len() as int) =~= text.subrange(i, j));
    } else {
        lemma_trim_start(text, i);
        let rest = text.skip(i);
        assert forall|k: int| j - i <= k < rest.len() implies text::is_space(#[trigger] rest[k]) by {
            assert(rest[k] == text[k + i]);
        }
        lemma_trim_end(rest, j - i);
        assert(rest.take(j - i) =~= text.subrange(i, j));
    }
}

/// What is left of a text without the white space before it.
proof fn lemma_trim_start(text: Seq<char>, i: int)
    requires
        0 <= i <= text.len(),
        forall|k: int| 0 <= k < i ==> text::is_space(#[trigger] text[k]),
        i < text.len() ==> !text::is_space(text[i]),
    ensures
        text::trim_start(text) == text.skip(i),
    decreases text.len(),
{
    if i == 0 {
        assert(text.skip(0) =~= text);
    } else {
        assert(text::is_space(text[0]));
        let rest = text.skip(1);
        assert forall|k: int| 0 <= k < i - 1 implies text::is_space(#[trigger] rest[k]) by {
            assert(rest[k] == text[k + 1]);
        }
        lemma_trim_start(rest, i - 1);
        assert(rest.skip(i - 1) =~= text.skip(i));
    }
}

/// What is left of a text without the white space behind it.
proof fn lemma_trim_end(text: Seq<char>, j: int)
    requires
        0 <= j <= text.len(),
        forall|k: int| j <= k < text.len() ==> text::is_space(#[trigger] text[k]),
        j > 0 ==> !text::is_space(text[j - 1]),
    ensures
        text::trim_end(text) == text.take(j),
    decreases text.len(),
{
    if j == text.len() {
        assert(text.take(j) =~= text);
    } else {
        assert(text::is_space(text[text.len() - 1]));
        let less = text.drop_last();
        assert forall|k: int| j <= k < less.len() implies text::is_space(#[trigger] less[k]) by {
            assert(less[k] == text[k]);
        }
        lemma_trim_end(less, j);
        assert(less.take(j) =~= text.take(j));
    }
}

/// A text is cut at the first of a character, and at the last, into what stands
/// before it and what stands behind it.
pub proof fn law_split(head: Seq<char>, tail: Seq<char>, ch: char)
    ensures
        !head.contains(ch) ==> text::split_at_first(head + seq![ch] + tail, ch) == Some(
            (head, tail),
        ),
        !tail.contains(ch) ==> text::split_at_last(head + seq![ch] + tail, ch) == Some(
            (head, tail),
        ),
        !head.contains(ch) ==> text::split_at_first(head, ch) is None && text::split_at_last(
            head,
            ch,
        ) is None,
{
    let whole = head + seq![ch] + tail;
    let i = head.len() as int;
    assert(whole[i] == ch);
    assert(whole.take(i) =~= head);
    assert(whole.skip(i + 1) =~= tail);
    if !head.contains(ch) {
        assert forall|k: int| 0 <= k < i implies #[trigger] whole[k] != ch by {
            assert(whole[k] == head[k]);
            assert(head.contains(head[k]));
        }
        text::lemma_index_of_is(whole, ch, i);
        text::lemma_index_of(head, ch);
        text::lemma_last_index_of(head, ch);
    }
    if !tail.contains(ch) {
        assert forall|k: int| i < k < whole.len() implies #[trigger] whole[k] != ch by {
            assert(whole[k] == tail[k - i - 1]);
            assert(tail.contains(tail[k - i - 1]));
        }
        text::lemma_last_index_of_is(whole, ch, i);
    }
}

/// The pieces of a text, put together again, are the text, and none of them holds
/// the character it was cut at.
pub proof fn law_pieces(text: Seq<char>, ch: char)
    ensures
        text::joined(text::pieces(text, ch), seq![ch]) == text,
        text::pieces(text, ch).len() > 0,
        forall|i: int|
            0 <= i < text::pieces(text, ch).len() ==> !(#[trigger] text::pieces(
                text,
                ch,
            )[i]).contains(ch),
    decreases text.len(),
{
    let i = text::index_of(text, ch);
    text::lemma_index_of(text, ch);
    let list = text::pieces(text, ch);
    if 0 <= i < text.len() {
        let rest = text.skip(i + 1);
        law_pieces(rest, ch);
        lemma_joined_first(text.take(i), text::pieces(rest, ch), seq![ch]);
        assert(text.take(i) + seq![ch] + rest =~= text);
        assert forall|k: int| 0 <= k < list.len() implies !(#[trigger] list[k]).contains(ch) by {
            if k > 0 {
                assert(list[k] == text::pieces(rest, ch)[k - 1]);
            }
        }
    } else {
        assert(list[0] == text);
    }
}

/// A list put together from its first text on.
proof fn lemma_joined_first(first: Seq<char>, rest: Seq<Seq<char>>, separator: Seq<char>)
    requires
        rest.len() > 0,
    ensures
        text::joined(seq![first] + rest, separator) == first + separator + text::joined(
            rest,
            separator,
        ),
    decreases rest.len(),
{
    let all = seq![first] + rest;
    reveal_with_fuel(text::joined, 2);
    if rest.len() == 1 {
        assert(all.drop_last() =~= seq![first]);
        assert(all.last() == rest[0]);
    } else {
        lemma_joined_first(first, rest.drop_last(), separator);
        assert(all.drop_last() =~= seq![first] + rest.drop_last());
        assert(all.last() == rest.last());
        assert(text::joined(all, separator) =~= first + separator + text::joined(rest, separator));
    }
}

/// Two lists put together stand on either side of the separator.
pub proof fn law_joined(first: Seq<Seq<char>>, second: Seq<Seq<char>>, separator: Seq<char>)
    requires
        first.len() > 0,
        second.len() > 0,
    ensures
        text::joined(first + second, separator) == text::joined(first, separator) + separator
            + text::joined(second, separator),
        first.len() == 1 ==> text::joined(first, separator) == first[0],
    decreases second.len(),
{
    let all = first + second;
    assert(all.last() == second.last());
    if second.len() == 1 {
        assert(all.drop_last() =~= first);
    } else {
        law_joined(first, second.drop_last(), separator);
        assert(all.drop_last() =~= first + second.drop_last());
        assert(text::joined(all, separator) =~= text::joined(first, separator) + separator
            + text::joined(second, separator));
    }
}

/// The digits of a number are decimal digits, the first is not zero but for the
/// number zero, and ten times the number and a digit is written with the digit
/// behind.
pub proof fn law_decimal(value: nat, digit: nat)
    requires
        digit < 10,
    ensures
        text::decimal(value).len() > 0,
        text::all_digits(text::decimal(value)),
        value > 0 ==> text::decimal(value)[0] != '0',
        value > 0 ==> text::decimal(10 * value + digit) == text::decimal(value).push(
            ('0' as int + digit) as char,
        ),
        text::decimal(digit) == seq![('0' as int + digit) as char],
    decreases value,
{
    text::lemma_decimal_digits(value);
    if value >= 10 {
        law_decimal(value / 10, digit);
        assert(value / 10 > 0);
    }
    assert((10 * value + digit) / 10 == value);
    assert((10 * value + digit) % 10 == digit);
}

/// A text is a number just where it is digits, with a `+` before them or without,
/// and no larger than may be; a digit more makes ten times the number and the
/// digit.
pub proof fn law_unsigned(digits: Seq<char>, digit: char, max: nat)
    requires
        '0' <= digit <= '9',
    ensures
        text::unsigned_value(digits, max) is Some ==> text::unsigned_value(
            digits.push(digit),
            10 * max + 9,
        ) == Some(
            (10 * text::unsigned_value(digits, max)->0 + (digit as int - '0' as int)) as nat,
        ),
        text::unsigned_value(digits, max) matches Some(value) ==> value <= max,
        text::all_digits(digits) ==> text::unsigned_value(seq!['+'] + digits, max)
            == text::unsigned_value(digits, max),
        text::unsigned_value(Seq::empty(), max) is None,
        text::unsigned_value(seq![digit], 9) == Some((digit as int - '0' as int) as nat),
{
    let more = digits.push(digit);
    let read = text::unsigned_digits(digits);
    if text::unsigned_value(digits, max) is Some {
        let longer = text::unsigned_digits(more);
        assert(longer =~= read.push(digit));
        assert(longer.drop_last() =~= read);
        assert(text::all_digits(longer));
    }
    let signed = seq!['+'] + digits;
    assert(signed.skip(1) =~= digits);
    if text::all_digits(digits) && digits.len() > 0 {
        assert('0' <= digits[0]);
    }
    let one = seq![digit];
    assert(one.drop_last() =~= Seq::empty());
    reveal_with_fuel(text::digits_value, 2);
}

/// Keys are ordered by their bytes: of two that are the same up to a byte, the one
/// with the smaller byte comes first, and a key comes before those it starts.
pub proof fn law_order(head: Seq<u8>, a: u8, b: u8, rest: Seq<u8>, other: Seq<u8>)
    requires
        a < b,
    ensures
        strmap::bytes_before(head + seq![a] + rest, head + seq![b] + other),
        strmap::bytes_before(head, head + seq![a] + rest),
        !strmap::bytes_before(head + seq![a] + rest, head),
        !strmap::bytes_before(head, head),
    decreases head.len(),
{
    let one = head + seq![a] + rest;
    let two = head + seq![b] + other;
    if head.len() > 0 {
        let less = head.skip(1);
        law_order(less, a, b, rest, other);
        assert(one.skip(1) =~= less + seq![a] + rest);
        assert(two.skip(1) =~= less + seq![b] + other);
    }
}

/// The entries of a map are listed by the bytes of their keys, each once.
pub proof fn law_listed_in_order<T>(map: Map<Seq<char>, T>, i: int, j: int)
    requires
        map.dom().finite(),
        0 <= i < j < strmap::ordered_pairs(map).len(),
    ensures
        strmap::bytes_before(
            encode_utf8(strmap::ordered_pairs(map)[i].0),
            encode_utf8(strmap::ordered_pairs(map)[j].0),
        ),
        strmap::value_of(map, strmap::ordered_pairs(map)[i].0) == Some(
            strmap::ordered_pairs(map)[i].1,
        ),
{
    strmap::law_ordered_pairs_exist(map);
    let pairs = strmap::ordered_pairs(map);
    strmap::lemma_pair_map_value(pairs, i);
    assert(strmap::text_before(pairs[i].0, pairs[j].0));
}

/// Whether a character is the hexadecimal digit of a value, in capitals.
pub open spec fn is_high_hex(ch: char, value: int) -> bool {
    if value < 10 {
        ch as int == '0' as int + value
    } else {
        ch as int == 'A' as int + (value - 10)
    }
}

/// Bytes one behind the other are escaped one behind the other; in credentials all
/// but letters and digits are escaped, in a fragment all but what can be seen, save
/// `"`, `#`, `%`, `<`, `>` and the grave accent. An escape is `%` and two digits.
pub proof fn law_escapes(first: Seq<u8>, second: Seq<u8>, byte: u8, place: Place)
    ensures
        codec::percent_encoded(first + second, place) == codec::percent_encoded(first, place)
            + codec::percent_encoded(second, place),
        ({
            let ch = byte as char;
            let stays = match place {
                Place::Userinfo => '0' <= ch <= '9' || 'A' <= ch <= 'Z' || 'a' <= ch <= 'z',
                Place::Fragment => '!' <= ch <= '~' && ch != '"' && ch != '#' && ch != '%' && ch
                    != '<' && ch != '>' && ch != '`',
            };
            let written = codec::percent_encoded(seq![byte], place);
            &&& stays ==> written == seq![ch]
            &&& !stays ==> written.len() == 3 && written[0] == '%' && is_high_hex(
                written[1],
                byte as int / 16,
            ) && is_high_hex(written[2], byte as int % 16)
        }),
    decreases second.len(),
{
    let one = seq![byte];
    assert(one.drop_last() =~= Seq::empty());
    reveal_with_fuel(codec::percent_encoded, 2);
    if second.len() == 0 {
        assert(first + second =~= first);
        assert(codec::percent_encoded(first, place) + codec::percent_encoded(second, place)
            =~= codec::percent_encoded(first, place));
    } else {
        law_escapes(first, second.drop_last(), byte, place);
        assert((first + second).drop_last() =~= first + second.drop_last());
        assert((first + second).last() == second.last());
        assert(codec::percent_encoded(first + second, place) =~= codec::percent_encoded(
            first,
            place,
        ) + codec::percent_encoded(second, place));
    }
}

/// Whether a character is the hexadecimal digit of a value, in small letters.
pub open spec fn is_low_hex(ch: char, value: int) -> bool {
    if value < 10 {
        ch as int == '0' as int + value
    } else {
        ch as int == 'a' as int + (value - 10)
    }
}

/// The bytes of a fingerprint are written one behind the other, with two digits
/// each.
pub proof fn law_hex(first: Seq<u8>, second: Seq<u8>, byte: u8)
    ensures
        dedup::hex_text(first + second) == dedup::hex_text(first) + dedup::hex_text(second),
        dedup::hex_text(seq![byte]).len() == 2,
        is_low_hex(dedup::hex_text(seq![byte])[0], byte as int / 16),
        is_low_hex(dedup::hex_text(seq![byte])[1], byte as int % 16),
    decreases second.len(),
{
    let one = seq![byte];
    assert(one.drop_last() =~= Seq::empty());
    reveal_with_fuel(dedup::hex_text, 2);
    if second.len() == 0 {
        assert(first + second =~= first);
        assert(dedup::hex_text(first) + dedup::hex_text(second) =~= dedup::hex_text(first));
    } else {
        law_hex(first, second.drop_last(), byte);
        assert((first + second).drop_last() =~= first + second.drop_last());
        assert((first + second).last() == second.last());
        assert(dedup::hex_text(first + second) =~= dedup::hex_text(first) + dedup::hex_text(
            second,
        ));
    }
}

/// White space is what Unicode calls so.
pub proof fn law_spaces(ch: char)
    ensures
        text::is_space(ch) <==> {
            let code = ch as int;
            ||| 9 <= code <= 13
            ||| code == 32 || code == 0x85 || code == 0xa0 || code == 0x1680
            ||| 0x2000 <= code <= 0x200a
            ||| code == 0x2028 || code == 0x2029 || code == 0x202f || code == 0x205f || code
                == 0x3000
        },
{
}

/// White space is left out wherever it stands, and nothing else.
pub proof fn law_without_spaces(first: Seq<char>, second: Seq<char>, ch: char)
    ensures
        text::without_spaces(first + second) == text::without_spaces(first) + text::without_spaces(
            second,
        ),
        text::without_spaces(seq![ch]) == if text::is_space(ch) {
            Seq::empty()
        } else {
            seq![ch]
        },
{
    Seq::filter_distributes_over_add(first, second, |ch: char| !text::is_space(ch));
    reveal_with_fuel(Seq::filter, 2);
    assert(seq![ch].drop_last() =~= Seq::empty());
    assert(Seq::empty().push(ch) =~= seq![ch]);
}

} // verus!
