//! What is written can be read back: the laws that tie the writing of links to
//! the reading of them.

use vstd::prelude::*;
use vstd::utf8::*;

use crate::codec;
use crate::codec::{Base64Form, Place};
use crate::text;

verus! {

// ---------------------------------------------------------------------------
// Text
// ---------------------------------------------------------------------------

/// Whether every character is ASCII.
pub open spec fn is_ascii_text(text: Seq<char>) -> bool {
    forall|i: int| 0 <= i < text.len() ==> (#[trigger] text[i]) as u32 <= 0x7f
}

/// The code points of a text as bytes.
pub open spec fn code_bytes(text: Seq<char>) -> Seq<u8> {
    text.map_values(|ch: char| ch as u8)
}

/// An ASCII character has one byte, its code point.
proof fn lemma_ascii_scalar(scalar: u32)
    by (bit_vector)
    requires
        scalar <= 0x7f,
    ensures
        (scalar & 0x7F) as u8 == scalar as u8,
{
}

/// The code point of an ASCII character as a byte.
proof fn lemma_char_byte(ch: char)
    requires
        ch as u32 <= 0x7f,
    ensures
        (ch as u32) as u8 == ch as u8,
{
}

/// The bytes of an ASCII text are its code points.
pub proof fn lemma_ascii_bytes(text: Seq<char>)
    requires
        is_ascii_text(text),
    ensures
        encode_utf8(text) == code_bytes(text),
    decreases text.len(),
{
    if text.len() > 0 {
        let rest = text.drop_first();
        assert forall|i: int| 0 <= i < rest.len() implies (#[trigger] rest[i]) as u32 <= 0x7f by {
            assert(rest[i] == text[i + 1]);
        }
        lemma_ascii_bytes(rest);
        let first = text[0] as u32;
        assert(text[0] as u32 <= 0x7f);
        lemma_ascii_scalar(first);
        lemma_char_byte(text[0]);
        assert(has_width_1_encoding(first));
        assert(encode_scalar(first) =~= seq![text[0] as u8]);
        assert(encode_utf8(text) =~= code_bytes(text));
    } else {
        assert(encode_utf8(text) =~= code_bytes(text));
    }
}

/// The bytes of a text stand in those of a longer one that it is part of.
proof fn lemma_inner_bytes(text: Seq<char>, part: Seq<char>, i: int) -> (q: int)
    requires
        0 <= i,
        i + part.len() <= text.len(),
        text.subrange(i, i + part.len()) == part,
        is_ascii_text(part),
    ensures
        0 <= q,
        q + part.len() <= encode_utf8(text).len(),
        forall|k: int| 0 <= k < part.len() ==> encode_utf8(text)[q + k] == #[trigger] part[k] as u8,
    decreases text.len(),
{
    if i > 0 {
        let rest = text.drop_first();
        assert(rest.subrange(i - 1, i - 1 + part.len()) =~= part);
        let q = lemma_inner_bytes(rest, part, i - 1);
        let first = encode_scalar(text[0] as u32);
        assert(encode_utf8(text) == first + encode_utf8(rest));
        assert forall|k: int| 0 <= k < part.len() implies encode_utf8(text)[first.len() + q + k]
            == #[trigger] part[k] as u8 by {
            assert(encode_utf8(text)[first.len() + q + k] == encode_utf8(rest)[q + k]);
        }
        first.len() + q
    } else {
        lemma_ascii_prefix(text, part);
        0
    }
}

/// The bytes of a text that starts with ASCII characters start with their code
/// points.
proof fn lemma_ascii_prefix(text: Seq<char>, part: Seq<char>)
    requires
        part.len() <= text.len(),
        text.subrange(0, part.len() as int) == part,
        is_ascii_text(part),
    ensures
        part.len() <= encode_utf8(text).len(),
        forall|k: int| 0 <= k < part.len() ==> encode_utf8(text)[k] == #[trigger] part[k] as u8,
    decreases part.len(),
{
    if part.len() > 0 {
        let rest = text.drop_first();
        let less = part.drop_first();
        assert(text.subrange(0, part.len() as int)[0] == text[0]);
        assert(part[0] as u32 <= 0x7f);
        assert(rest.subrange(0, less.len() as int) =~= less);
        assert forall|k: int| 0 <= k < less.len() implies (#[trigger] less[k]) as u32 <= 0x7f by {
            assert(less[k] == part[k + 1]);
        }
        lemma_ascii_prefix(rest, less);
        let first = text[0] as u32;
        lemma_ascii_scalar(first);
        lemma_char_byte(text[0]);
        assert(has_width_1_encoding(first));
        assert(encode_scalar(first) =~= seq![text[0] as u8]);
        assert forall|k: int| 0 <= k < part.len() implies encode_utf8(text)[k]
            == #[trigger] part[k] as u8 by {
            if k > 0 {
                assert(less[k - 1] == part[k]);
                assert(encode_utf8(text)[k] == encode_utf8(rest)[k - 1]);
            }
        }
    }
}

// ---------------------------------------------------------------------------
// Base64
// ---------------------------------------------------------------------------

/// Base64 is made of its alphabet and its padding.
pub proof fn lemma_base64_chars(form: Base64Form, bytes: Seq<u8>)
    ensures
        codec::is_base64_text(codec::base64_encoded(form, bytes)),
    decreases bytes.len(),
{
    let whole = codec::base64_encoded(form, bytes);
    if bytes.len() >= 3 {
        lemma_base64_chars(form, bytes.skip(3));
        let rest = codec::base64_encoded(form, bytes.skip(3));
        assert forall|i: int| 0 <= i < whole.len() implies codec::is_base64_char(
            #[trigger] whole[i],
        ) by {
            if i >= 4 {
                assert(whole[i] == rest[i - 4]);
            }
        }
    }
}

/// The number that a character of either alphabet stands for.
spec fn digit_value(ch: char) -> int {
    if 'A' <= ch <= 'Z' {
        ch as int - 'A' as int
    } else if 'a' <= ch <= 'z' {
        ch as int - 'a' as int + 26
    } else if '0' <= ch <= '9' {
        ch as int - '0' as int + 52
    } else if ch == '+' || ch == '-' {
        62
    } else {
        63
    }
}

/// A character stands for its number in both alphabets, and is no padding.
proof fn lemma_digit(value: int, url_safe: bool)
    requires
        0 <= value < 64,
    ensures
        digit_value(codec::base64_digit(value, url_safe)) == value,
        codec::base64_digit(value, url_safe) != '=',
{
}

/// The bytes that characters of base64 stand for, whatever their form.
spec fn digits_bytes(text: Seq<char>) -> Seq<u8>
    decreases text.len(),
{
    let a = digit_value(text[0]);
    let b = digit_value(text[1]);
    let c = digit_value(text[2]);
    let d = digit_value(text[3]);
    if text.len() < 2 {
        Seq::empty()
    } else if text.len() == 2 || text[2] == '=' {
        seq![(a * 4 + b / 16) as u8]
    } else if text.len() == 3 || text[3] == '=' {
        seq![(a * 4 + b / 16) as u8, (b % 16 * 16 + c / 4) as u8]
    } else {
        seq![(a * 4 + b / 16) as u8, (b % 16 * 16 + c / 4) as u8, (c % 4 * 64 + d) as u8]
            + digits_bytes(text.skip(4))
    }
}

/// Every form of bytes stands for them.
proof fn lemma_base64_bytes(form: Base64Form, bytes: Seq<u8>)
    ensures
        digits_bytes(codec::base64_encoded(form, bytes)) == bytes,
    decreases bytes.len(),
{
    let whole = codec::base64_encoded(form, bytes);
    let url_safe = form.url_safe;
    let a = bytes[0] as int;
    let b = bytes[1] as int;
    let c = bytes[2] as int;
    if bytes.len() == 0 {
    } else if bytes.len() == 1 {
        lemma_digit(a / 4, url_safe);
        lemma_digit(a % 4 * 16, url_safe);
        assert(digits_bytes(whole) =~= bytes);
    } else if bytes.len() == 2 {
        lemma_digit(a / 4, url_safe);
        lemma_digit(a % 4 * 16 + b / 16, url_safe);
        lemma_digit(b % 16 * 4, url_safe);
        assert(digits_bytes(whole) =~= bytes);
    } else {
        lemma_digit(a / 4, url_safe);
        lemma_digit(a % 4 * 16 + b / 16, url_safe);
        lemma_digit(b % 16 * 4 + c / 64, url_safe);
        lemma_digit(c % 64, url_safe);
        lemma_base64_bytes(form, bytes.skip(3));
        assert(whole.skip(4) =~= codec::base64_encoded(form, bytes.skip(3)));
        assert(digits_bytes(whole) =~= bytes);
    }
}

/// Bytes are read back from each of their forms in base64.
pub proof fn law_base64_round_trip(form: Base64Form, bytes: Seq<u8>)
    ensures
        codec::base64_decoded(codec::base64_encoded(form, bytes)) == Some(bytes),
{
    lemma_base64_held(codec::base64_encoded(form, bytes));
}

/// What a text holds in one form is what it holds.
pub proof fn lemma_base64_held(text: Seq<char>)
    ensures
        forall|form: Base64Form, bytes: Seq<u8>|
            text == #[trigger] codec::base64_encoded(form, bytes) ==> codec::base64_decoded(text)
                == Some(bytes),
{
    assert forall|form: Base64Form, bytes: Seq<u8>|
        text == #[trigger] codec::base64_encoded(form, bytes) implies codec::base64_decoded(text)
        == Some(bytes) by {
        let (other, found) = choose|form: Base64Form, bytes: Seq<u8>|
            text == #[trigger] codec::base64_encoded(form, bytes);
        lemma_base64_bytes(form, bytes);
        lemma_base64_bytes(other, found);
    }
}

/// A text that holds something in base64 is made of its characters.
pub proof fn law_base64_is_base64_text(text: Seq<char>)
    requires
        codec::base64_decoded(text) is Some,
    ensures
        codec::is_base64_text(text),
{
    let (form, bytes) = choose|form: Base64Form, bytes: Seq<u8>|
        text == #[trigger] codec::base64_encoded(form, bytes);
    lemma_base64_chars(form, bytes);
}

/// Where bytes hold `://`, their base64 holds one of two letters.
proof fn lemma_base64_letter(form: Base64Form, bytes: Seq<u8>, q: int)
    requires
        0 <= q,
        q + 3 <= bytes.len(),
        bytes[q] == 0x3a,
        bytes[q + 1] == 0x2f,
        bytes[q + 2] == 0x2f,
    ensures
        codec::base64_encoded(form, bytes).contains('O') || codec::base64_encoded(
            form,
            bytes,
        ).contains('L'),
    decreases bytes.len(),
{
    let whole = codec::base64_encoded(form, bytes);
    let rest = codec::base64_encoded(form, bytes.skip(3));
    if q == 0 {
        assert(whole[0] == 'O');
    } else {
        assert forall|i: int| 0 <= i < rest.len() implies whole[i + 4] == #[trigger] rest[i] by {}
        if q >= 3 {
            lemma_base64_letter(form, bytes.skip(3), q - 3);
            let ch = if rest.contains('O') {
                'O'
            } else {
                'L'
            };
            let i = choose|i: int| 0 <= i < rest.len() && rest[i] == ch;
            assert(whole[i + 4] == ch);
        } else {
            assert(bytes.skip(3)[0] == 0x2f);
            assert(rest[0] == 'L');
            assert(whole[4] == 'L');
        }
    }
}

/// Where a text holds `://`, its base64 holds one of two letters.
pub proof fn lemma_link_in_base64(form: Base64Form, text: Seq<char>, i: int)
    requires
        0 <= i,
        i + 3 <= text.len(),
        text[i] == ':',
        text[i + 1] == '/',
        text[i + 2] == '/',
    ensures
        codec::base64_encoded(form, encode_utf8(text)).contains('O') || codec::base64_encoded(
            form,
            encode_utf8(text),
        ).contains('L'),
{
    let part = seq![':', '/', '/'];
    assert(text.subrange(i, i + 3) =~= part);
    let q = lemma_inner_bytes(text, part, i);
    assert(part[0] as u8 == 0x3a && part[1] as u8 == 0x2f && part[2] as u8 == 0x2f);
    lemma_base64_letter(form, encode_utf8(text), q);
}

// ---------------------------------------------------------------------------
// Joined texts
// ---------------------------------------------------------------------------

/// Texts joined by a character that none of them holds are cut into the same
/// texts at that character.
pub proof fn law_split_join(list: Seq<Seq<char>>, ch: char)
    requires
        list.len() > 0,
        forall|i: int| 0 <= i < list.len() ==> !(#[trigger] list[i]).contains(ch),
    ensures
        text::pieces(text::joined(list, seq![ch]), ch) == list,
    decreases list.len(),
{
    if list.len() == 1 {
        assert(!list[0].contains(ch));
        text::lemma_index_of(list[0], ch);
        assert(text::pieces(list[0], ch) =~= list);
    } else {
        let earlier = list.drop_last();
        assert forall|i: int| 0 <= i < earlier.len() implies !(#[trigger] earlier[i]).contains(
            ch,
        ) by {
            assert(earlier[i] == list[i]);
        }
        law_split_join(earlier, ch);
        assert(!list[list.len() - 1].contains(ch));
        lemma_pieces_append(text::joined(earlier, seq![ch]), list.last(), ch);
        assert(earlier.push(list.last()) =~= list);
    }
}

/// A text behind one more `ch` is one more piece.
pub proof fn lemma_pieces_append(head: Seq<char>, last: Seq<char>, ch: char)
    requires
        !last.contains(ch),
    ensures
        text::pieces(head + seq![ch] + last, ch) == text::pieces(head, ch).push(last),
    decreases head.len(),
{
    let all = head + seq![ch] + last;
    text::lemma_index_of(head, ch);
    let i = text::index_of(head, ch);
    assert(all[head.len() as int] == ch);
    text::lemma_index_of_is(all, ch, i);
    if i < head.len() {
        lemma_pieces_append(head.skip(i + 1), last, ch);
        assert(all.skip(i + 1) =~= head.skip(i + 1) + seq![ch] + last);
        assert(all.take(i) =~= head.take(i));
        assert(text::pieces(head, ch) =~= seq![head.take(i)] + text::pieces(head.skip(i + 1), ch));
        assert(text::pieces(all, ch) =~= text::pieces(head, ch).push(last));
    } else {
        assert(all.take(i) =~= head);
        assert(all.skip(i + 1) =~= last);
        text::lemma_index_of(last, ch);
        assert(text::pieces(last, ch) =~= seq![last]);
        assert(text::pieces(head, ch) =~= seq![head]);
        assert(text::pieces(all, ch) =~= text::pieces(head, ch).push(last));
    }
}

// ---------------------------------------------------------------------------
// Percent escapes
// ---------------------------------------------------------------------------

/// One byte, escaped where it is not plain.
spec fn percent_one(byte: u8, place: Place) -> Seq<char> {
    if codec::is_plain(byte, place) {
        seq![byte as char]
    } else {
        codec::escaped(byte)
    }
}

/// The first byte is written first.
proof fn lemma_percent_first(bytes: Seq<u8>, place: Place)
    requires
        bytes.len() > 0,
    ensures
        codec::percent_encoded(bytes, place) == percent_one(bytes[0], place)
            + codec::percent_encoded(bytes.skip(1), place),
    decreases bytes.len(),
{
    if bytes.len() == 1 {
        assert(bytes.drop_last() =~= Seq::empty());
        assert(bytes.skip(1) =~= Seq::empty());
        assert(codec::percent_encoded(bytes, place) =~= percent_one(bytes[0], place)
            + codec::percent_encoded(bytes.skip(1), place));
    } else {
        lemma_percent_first(bytes.drop_last(), place);
        assert(bytes.drop_last().skip(1) =~= bytes.skip(1).drop_last());
        assert(codec::percent_encoded(bytes, place) =~= percent_one(bytes[0], place)
            + codec::percent_encoded(bytes.skip(1), place));
    }
}

/// The characters that a byte is written with.
proof fn lemma_escape(byte: u8)
    ensures
        code_bytes(codec::escaped(byte)).len() == 3,
        code_bytes(codec::escaped(byte))[0] == 0x25,
        codec::hex_value(code_bytes(codec::escaped(byte))[1]) == Some(byte as int / 16),
        codec::hex_value(code_bytes(codec::escaped(byte))[2]) == Some(byte as int % 16),
        is_ascii_text(codec::escaped(byte)),
{
}

/// The characters that escaped texts are made of: for user information letters,
/// digits and the percent sign, for a fragment what can stand in one.
pub open spec fn is_escaped_char(ch: char, place: Place) -> bool {
    match place {
        Place::Userinfo => codec::is_alphanumeric(ch) || ch == '%',
        Place::Fragment => ' ' < ch < '\u{7f}' && ch != '"' && ch != '#' && ch != '<' && ch != '>'
            && ch != '`',
    }
}

/// What escaped texts are made of.
proof fn lemma_percent_chars(bytes: Seq<u8>, place: Place)
    ensures
        bytes.len() <= codec::percent_encoded(bytes, place).len(),
        forall|i: int|
            0 <= i < codec::percent_encoded(bytes, place).len() ==> is_escaped_char(
                #[trigger] codec::percent_encoded(bytes, place)[i],
                place,
            ),
    decreases bytes.len(),
{
    if bytes.len() > 0 {
        let head = codec::percent_encoded(bytes.drop_last(), place);
        let one = percent_one(bytes.last(), place);
        lemma_percent_chars(bytes.drop_last(), place);
        lemma_escape(bytes.last());
        assert forall|i: int| 0 <= i < codec::percent_encoded(bytes, place).len() implies is_escaped_char(
            #[trigger] codec::percent_encoded(bytes, place)[i],
            place,
        ) by {
            if i < head.len() {
                assert(codec::percent_encoded(bytes, place)[i] == head[i]);
            } else {
                assert(codec::percent_encoded(bytes, place)[i] == one[i - head.len()]);
            }
        }
    }
}

/// Escapes are read back byte for byte.
proof fn lemma_percent_bytes(bytes: Seq<u8>, place: Place)
    ensures
        codec::percent_decoded(code_bytes(codec::percent_encoded(bytes, place))) == bytes,
    decreases bytes.len(),
{
    let written = code_bytes(codec::percent_encoded(bytes, place));
    if bytes.len() == 0 {
        assert(written =~= Seq::empty());
    } else {
        let first = bytes[0];
        let rest = bytes.skip(1);
        lemma_percent_first(bytes, place);
        lemma_percent_bytes(rest, place);
        let tail = code_bytes(codec::percent_encoded(rest, place));
        let head = code_bytes(percent_one(first, place));
        assert(written =~= head + tail);
        if codec::is_plain(first, place) {
            assert(head =~= seq![first]);
            assert(written.skip(1) =~= tail);
        } else {
            lemma_escape(first);
            assert(written[0] == head[0] && written[1] == head[1] && written[2] == head[2]);
            assert(written.skip(3) =~= tail);
            assert(first as int == (first as int / 16) * 16 + first as int % 16);
        }
        assert(seq![first] + rest =~= bytes);
    }
}

/// A text escaped for a link is read back from it: `decode_fragment` undoes
/// `encode_fragment_component` and `encode_userinfo`.
pub proof fn law_percent_round_trip(text: Seq<char>, place: Place)
    ensures
        codec::unescaped(codec::percent_encoded(encode_utf8(text), place)) == text,
{
    let written = codec::percent_encoded(encode_utf8(text), place);
    lemma_percent_chars(encode_utf8(text), place);
    lemma_ascii_bytes(written);
    lemma_percent_bytes(encode_utf8(text), place);
    codec::law_utf8_round_trip(text);
}

/// A text escaped for a fragment can stand in one.
pub proof fn law_fragment_is_visible(text: Seq<char>)
    ensures
        codec::is_fragment(codec::percent_encoded(encode_utf8(text), Place::Fragment)),
{
    let written = codec::percent_encoded(encode_utf8(text), Place::Fragment);
    lemma_percent_chars(encode_utf8(text), Place::Fragment);
    assert forall|i: int| 0 <= i < written.len() implies {
        let ch = #[trigger] written[i];
        ' ' < ch < '\u{7f}' && ch != '"' && ch != '#' && ch != '<' && ch != '>' && ch != '`'
    } by {
        assert(is_escaped_char(written[i], Place::Fragment));
    }
}

/// A text that is not empty can stand for a user once it is escaped.
pub proof fn law_userinfo_is_plain(text: Seq<char>)
    requires
        text.len() > 0,
    ensures
        codec::is_userinfo(codec::percent_encoded(encode_utf8(text), Place::Userinfo)),
{
    let written = codec::percent_encoded(encode_utf8(text), Place::Userinfo);
    lemma_percent_chars(encode_utf8(text), Place::Userinfo);
    assert(encode_scalar(text[0] as u32).len() > 0);
    assert forall|i: int| 0 <= i < written.len() implies codec::is_alphanumeric(
        #[trigger] written[i],
    ) || written[i] == '%' by {
        assert(is_escaped_char(written[i], Place::Userinfo));
    }
}

// ---------------------------------------------------------------------------
// Form queries
// ---------------------------------------------------------------------------

/// The first byte is written first.
proof fn lemma_form_first(bytes: Seq<u8>)
    requires
        bytes.len() > 0,
    ensures
        codec::form_encoded(bytes) == codec::form_escaped(bytes[0]) + codec::form_encoded(
            bytes.skip(1),
        ),
    decreases bytes.len(),
{
    if bytes.len() == 1 {
        assert(bytes.drop_last() =~= Seq::empty());
        assert(bytes.skip(1) =~= Seq::empty());
        assert(codec::form_encoded(bytes) =~= codec::form_escaped(bytes[0]) + codec::form_encoded(
            bytes.skip(1),
        ));
    } else {
        lemma_form_first(bytes.drop_last());
        assert(bytes.drop_last().skip(1) =~= bytes.skip(1).drop_last());
        assert(codec::form_encoded(bytes) =~= codec::form_escaped(bytes[0]) + codec::form_encoded(
            bytes.skip(1),
        ));
    }
}

/// What a form query is made of.
proof fn lemma_form_chars(bytes: Seq<u8>)
    ensures
        forall|i: int|
            0 <= i < codec::form_encoded(bytes).len() ==> {
                let ch = #[trigger] codec::form_encoded(bytes)[i];
                0x20 < ch as u32 && (ch as u32) < 0x7f && ch != '&' && ch != '=' && ch != '#' && ch
                    != '?'
            },
    decreases bytes.len(),
{
    if bytes.len() > 0 {
        let head = codec::form_encoded(bytes.drop_last());
        let one = codec::form_escaped(bytes.last());
        lemma_form_chars(bytes.drop_last());
        lemma_escape(bytes.last());
        assert forall|i: int| 0 <= i < codec::form_encoded(bytes).len() implies {
            let ch = #[trigger] codec::form_encoded(bytes)[i];
            0x20 < ch as u32 && (ch as u32) < 0x7f && ch != '&' && ch != '=' && ch != '#' && ch
                != '?'
        } by {
            if i < head.len() {
                assert(codec::form_encoded(bytes)[i] == head[i]);
            } else {
                assert(codec::form_encoded(bytes)[i] == one[i - head.len()]);
            }
        }
    }
}

/// Form encoding is read back byte for byte.
proof fn lemma_form_bytes(bytes: Seq<u8>)
    ensures
        codec::percent_decoded(codec::plus_as_space(code_bytes(codec::form_encoded(bytes))))
            == bytes,
    decreases bytes.len(),
{
    let written = codec::plus_as_space(code_bytes(codec::form_encoded(bytes)));
    if bytes.len() == 0 {
        assert(written =~= Seq::empty());
    } else {
        let first = bytes[0];
        let rest = bytes.skip(1);
        lemma_form_first(bytes);
        lemma_form_bytes(rest);
        let tail = codec::plus_as_space(code_bytes(codec::form_encoded(rest)));
        let head = codec::plus_as_space(code_bytes(codec::form_escaped(first)));
        assert(written =~= head + tail);
        if codec::form_escaped(first).len() == 1 {
            assert(head =~= seq![first]);
            assert(written.skip(1) =~= tail);
        } else {
            lemma_escape(first);
            assert(head =~= code_bytes(codec::escaped(first)));
            assert(written[0] == head[0] && written[1] == head[1] && written[2] == head[2]);
            assert(written.skip(3) =~= tail);
            assert(first as int == (first as int / 16) * 16 + first as int % 16);
        }
        assert(seq![first] + rest =~= bytes);
    }
}

/// One name or value is read back.
proof fn lemma_form_text(text: Seq<char>)
    ensures
        codec::form_decoded(codec::form_encoded(encode_utf8(text))) == text,
{
    let written = codec::form_encoded(encode_utf8(text));
    lemma_form_chars(encode_utf8(text));
    lemma_ascii_bytes(written);
    lemma_form_bytes(encode_utf8(text));
    codec::law_utf8_round_trip(text);
}

/// One pair is read back, and no part of it is taken for more than one.
proof fn lemma_form_pair(pair: (Seq<char>, Seq<char>))
    ensures
        codec::form_entry(codec::form_pair(pair)) == pair,
        codec::form_pair(pair).len() > 0,
        !codec::form_pair(pair).contains('&'),
        !codec::form_pair(pair).contains('#'),
        !codec::form_pair(pair).contains('?'),
{
    let name = codec::form_encoded(encode_utf8(pair.0));
    let value = codec::form_encoded(encode_utf8(pair.1));
    let whole = codec::form_pair(pair);
    lemma_form_chars(encode_utf8(pair.0));
    lemma_form_chars(encode_utf8(pair.1));
    lemma_form_text(pair.0);
    lemma_form_text(pair.1);
    assert forall|i: int| 0 <= i < whole.len() implies whole[i] != '&' && whole[i] != '#'
        && whole[i] != '?' by {
        if i < name.len() {
            assert(whole[i] == name[i]);
        } else if i > name.len() {
            assert(whole[i] == value[i - name.len() - 1]);
        }
    }
    assert forall|j: int| 0 <= j < name.len() implies whole[j] != '=' by {
        assert(whole[j] == name[j]);
    }
    assert(whole[name.len() as int] == '=');
    text::lemma_index_of_is(whole, '=', name.len() as int);
    assert(whole.take(name.len() as int) =~= name);
    assert(whole.skip(name.len() as int + 1) =~= value);
}

/// A filter that every item passes keeps every item.
pub proof fn lemma_filter_all<T>(items: Seq<T>, test: spec_fn(T) -> bool)
    requires
        forall|i: int| 0 <= i < items.len() ==> test(#[trigger] items[i]),
    ensures
        items.filter(test) == items,
    decreases items.len(),
{
    reveal(Seq::filter);
    if items.len() > 0 {
        let earlier = items.drop_last();
        assert forall|i: int| 0 <= i < earlier.len() implies test(#[trigger] earlier[i]) by {
            assert(earlier[i] == items[i]);
        }
        lemma_filter_all(earlier, test);
        assert(test(items[items.len() - 1]));
        assert(earlier.push(items.last()) =~= items);
    }
}

/// The pairs that a form query was written with are read back from it.
pub proof fn law_form_round_trip(pairs: Seq<(Seq<char>, Seq<char>)>)
    ensures
        codec::form_entries(codec::form_query(pairs)) == pairs,
{
    let list = pairs.map_values(|pair: (Seq<char>, Seq<char>)| codec::form_pair(pair));
    assert forall|i: int| 0 <= i < list.len() implies !(#[trigger] list[i]).contains('&')
        && list[i].len() > 0 && codec::form_entry(list[i]) == pairs[i] by {
        lemma_form_pair(pairs[i]);
    }
    let test = |piece: Seq<char>| piece.len() > 0;
    if pairs.len() == 0 {
        let query = codec::form_query(pairs);
        assert(query =~= Seq::empty());
        text::lemma_index_of(query, '&');
        let cut = text::pieces(query, '&');
        assert(cut =~= seq![query]);
        reveal(Seq::filter);
        assert(cut.drop_last() =~= Seq::empty());
        assert(cut.drop_last().filter(test) =~= Seq::empty());
        assert(cut.filter(test) =~= Seq::empty());
        assert(codec::form_entries(query) =~= pairs);
    } else {
        law_split_join(list, '&');
        lemma_filter_all(list, test);
        assert(codec::form_entries(codec::form_query(pairs)) =~= pairs);
    }
}

/// A form query holds no `#` and no `?`.
pub proof fn law_form_is_plain(pairs: Seq<(Seq<char>, Seq<char>)>)
    ensures
        !codec::form_query(pairs).contains('#'),
        !codec::form_query(pairs).contains('?'),
{
    let list = pairs.map_values(|pair: (Seq<char>, Seq<char>)| codec::form_pair(pair));
    assert forall|i: int| 0 <= i < list.len() implies !(#[trigger] list[i]).contains('#')
        && !list[i].contains('?') by {
        lemma_form_pair(pairs[i]);
    }
    lemma_joined_without(list, seq!['&'], '#');
    lemma_joined_without(list, seq!['&'], '?');
}

/// A form query has the characters of form queries alone.
pub proof fn law_form_is_form_text(pairs: Seq<(Seq<char>, Seq<char>)>)
    ensures
        codec::is_form_text(codec::form_query(pairs)),
{
    let list = pairs.map_values(|pair: (Seq<char>, Seq<char>)| codec::form_pair(pair));
    assert forall|i: int| 0 <= i < list.len() implies codec::is_form_text(#[trigger] list[i]) by {
        let name = codec::form_encoded(encode_utf8(pairs[i].0));
        let value = codec::form_encoded(encode_utf8(pairs[i].1));
        lemma_written_form(encode_utf8(pairs[i].0));
        lemma_written_form(encode_utf8(pairs[i].1));
        lemma_form_text_joins(name, seq!['=']);
        lemma_form_text_joins(name + seq!['='], value);
    }
    lemma_joined_form_text(list);
}

/// Texts of the characters of form queries make such a text together.
proof fn lemma_form_text_joins(a: Seq<char>, b: Seq<char>)
    requires
        codec::is_form_text(a),
        codec::is_form_text(b),
    ensures
        codec::is_form_text(a + b),
{
    assert forall|i: int| 0 <= i < (a + b).len() implies {
        let ch = #[trigger] (a + b)[i];
        codec::is_alphanumeric(ch) || ch == '*' || ch == '-' || ch == '.' || ch == '_' || ch == '+'
            || ch == '%' || ch == '=' || ch == '&'
    } by {
        if i < a.len() {
            assert((a + b)[i] == a[i]);
        } else {
            assert((a + b)[i] == b[i - a.len()]);
        }
    }
}

/// Bytes are written with the characters of form queries.
proof fn lemma_written_form(bytes: Seq<u8>)
    ensures
        codec::is_form_text(codec::form_encoded(bytes)),
    decreases bytes.len(),
{
    if bytes.len() > 0 {
        lemma_written_form(bytes.drop_last());
        lemma_escape(bytes.last());
        lemma_form_text_joins(
            codec::form_encoded(bytes.drop_last()),
            codec::form_escaped(bytes.last()),
        );
    }
}

/// Texts of the characters of form queries make such a text with `&` between
/// them.
proof fn lemma_joined_form_text(list: Seq<Seq<char>>)
    requires
        forall|i: int| 0 <= i < list.len() ==> codec::is_form_text(#[trigger] list[i]),
    ensures
        codec::is_form_text(text::joined(list, seq!['&'])),
    decreases list.len(),
{
    if list.len() == 1 {
        assert(codec::is_form_text(list[0]));
    } else if list.len() > 1 {
        let earlier = list.drop_last();
        assert forall|i: int| 0 <= i < earlier.len() implies codec::is_form_text(
            #[trigger] earlier[i],
        ) by {
            assert(earlier[i] == list[i]);
        }
        lemma_joined_form_text(earlier);
        assert(codec::is_form_text(list[list.len() - 1]));
        lemma_form_text_joins(text::joined(earlier, seq!['&']), seq!['&']);
        lemma_form_text_joins(text::joined(earlier, seq!['&']) + seq!['&'], list.last());
    }
}

/// A character that neither the texts nor the separator hold is not in the
/// joined text.
pub proof fn lemma_joined_without(list: Seq<Seq<char>>, separator: Seq<char>, ch: char)
    requires
        forall|i: int| 0 <= i < list.len() ==> !(#[trigger] list[i]).contains(ch),
        !separator.contains(ch),
    ensures
        !text::joined(list, separator).contains(ch),
    decreases list.len(),
{
    if list.len() == 1 {
        assert(!list[0].contains(ch));
    } else if list.len() > 1 {
        let earlier = list.drop_last();
        assert forall|i: int| 0 <= i < earlier.len() implies !(#[trigger] earlier[i]).contains(
            ch,
        ) by {
            assert(earlier[i] == list[i]);
        }
        lemma_joined_without(earlier, separator, ch);
        assert(!list[list.len() - 1].contains(ch));
        let head = text::joined(earlier, separator);
        let all = head + separator + list.last();
        assert forall|i: int| 0 <= i < all.len() implies all[i] != ch by {
            if i < head.len() {
                assert(all[i] == head[i]);
            } else if i < head.len() + separator.len() {
                assert(all[i] == separator[i - head.len()]);
            } else {
                assert(all[i] == list.last()[i - head.len() - separator.len()]);
            }
        }
    }
}

} // verus!
