//! Text as a sequence of characters: trimming, splitting, joining and decimal
//! numbers, each stated over `Seq<char>`.

use vstd::prelude::*;
use vstd::string::*;
use vstd::utf8::*;

use crate::items;

verus! {

/// `String::push` appends one character.
pub assume_specification[ String::push ](target: &mut String, ch: char)
    ensures
        final(target)@ == old(target)@.push(ch),
;

// ---------------------------------------------------------------------------
// Characters and substrings
// ---------------------------------------------------------------------------

/// The characters of `text`, in order.
pub fn chars_of(text: &str) -> (chars: Vec<char>)
    ensures
        chars@ == text@,
{
    let mut chars: Vec<char> = Vec::new();
    for ch in it: text.chars()
        invariant
            chars@ == it.seq().take(it.index() as int),
            it.seq() == text@,
    {
        chars.push(ch);
        assert(chars@ =~= it.seq().take(it.index() + 1));
    }
    assert(chars@ =~= text@);
    chars
}

/// The text made of `chars[from..to]`.
pub fn text_between(chars: &Vec<char>, from: usize, to: usize) -> (text: String)
    requires
        from <= to <= chars@.len(),
    ensures
        text@ == chars@.subrange(from as int, to as int),
{
    let mut text = String::new();
    let mut i = from;
    while i < to
        invariant
            from <= i <= to <= chars@.len(),
            text@ == chars@.subrange(from as int, i as int),
        decreases to - i,
    {
        text.push(chars[i]);
        i = i + 1;
        assert(text@ =~= chars@.subrange(from as int, i as int));
    }
    text
}

/// Whether `a` and `b` hold the same characters.
pub fn same_text(a: &str, b: &str) -> (same: bool)
    ensures
        same == (a@ == b@),
{
    let left = a.as_bytes();
    let right = b.as_bytes();
    proof {
        encode_utf8_decode_utf8(a@);
        encode_utf8_decode_utf8(b@);
    }
    if left.len() != right.len() {
        return false;
    }
    let mut i: usize = 0;
    while i < left.len()
        invariant
            i <= left@.len(),
            left@.len() == right@.len(),
            left@ == encode_utf8(a@),
            right@ == encode_utf8(b@),
            forall|j: int| 0 <= j < i ==> left@[j] == right@[j],
        decreases left@.len() - i,
    {
        if left[i] != right[i] {
            assert(left@ != right@);
            return false;
        }
        i = i + 1;
    }
    assert(left@ =~= right@);
    true
}


// ---------------------------------------------------------------------------
// White space
// ---------------------------------------------------------------------------

/// The characters with the Unicode property `White_Space`.
pub open spec fn is_space(ch: char) -> bool {
    ||| '\u{9}' <= ch <= '\u{d}'
    ||| ch == '\u{20}'
    ||| ch == '\u{85}'
    ||| ch == '\u{a0}'
    ||| ch == '\u{1680}'
    ||| '\u{2000}' <= ch <= '\u{200a}'
    ||| ch == '\u{2028}'
    ||| ch == '\u{2029}'
    ||| ch == '\u{202f}'
    ||| ch == '\u{205f}'
    ||| ch == '\u{3000}'
}

/// Whether `ch` is white space.
pub fn is_space_char(ch: char) -> (space: bool)
    ensures
        space == is_space(ch),
{
    ('\u{9}' <= ch && ch <= '\u{d}') || ch == '\u{20}' || ch == '\u{85}' || ch == '\u{a0}' || ch
        == '\u{1680}' || ('\u{2000}' <= ch && ch <= '\u{200a}') || ch == '\u{2028}' || ch
        == '\u{2029}' || ch == '\u{202f}' || ch == '\u{205f}' || ch == '\u{3000}'
}

/// `text` without the white space at its start.
pub open spec fn trim_start(text: Seq<char>) -> Seq<char>
    decreases text.len(),
{
    if text.len() > 0 && is_space(text[0]) {
        trim_start(text.skip(1))
    } else {
        text
    }
}

/// `text` without the white space at its end.
pub open spec fn trim_end(text: Seq<char>) -> Seq<char>
    decreases text.len(),
{
    if text.len() > 0 && is_space(text.last()) {
        trim_end(text.drop_last())
    } else {
        text
    }
}

/// `text` without the white space at either end.
pub open spec fn trimmed(text: Seq<char>) -> Seq<char> {
    trim_end(trim_start(text))
}

/// `text` without the white space at either end.
pub fn trim(text: &str) -> (result: String)
    ensures
        result@ == trimmed(text@),
{
    let chars = chars_of(text);
    let mut from: usize = 0;
    assert(text@.skip(0) =~= text@);
    while from < chars.len() && is_space_char(chars[from])
        invariant
            from <= chars@.len(),
            chars@ == text@,
            trim_start(text@) == trim_start(text@.skip(from as int)),
        decreases chars@.len() - from,
    {
        assert(text@.skip(from as int).skip(1) =~= text@.skip(from + 1));
        from = from + 1;
    }
    let ghost rest = text@.skip(from as int);
    assert(trim_start(text@) == rest);
    let mut to: usize = chars.len();
    assert(rest.take(rest.len() as int) =~= rest);
    while from < to && is_space_char(chars[to - 1])
        invariant
            from <= to <= chars@.len(),
            chars@ == text@,
            rest == text@.skip(from as int),
            trim_end(rest) == trim_end(rest.take(to - from)),
        decreases to - from,
    {
        assert(rest.take(to - from).drop_last() =~= rest.take(to - from - 1));
        to = to - 1;
    }
    assert(rest.take(to - from) =~= text@.subrange(from as int, to as int));
    text_between(&chars, from, to)
}

/// `text` with every white space character left out.
pub open spec fn without_spaces(text: Seq<char>) -> Seq<char> {
    text.filter(|ch: char| !is_space(ch))
}

/// `text` with every white space character left out.
pub fn remove_spaces(text: &str) -> (result: String)
    ensures
        result@ == without_spaces(text@),
{
    let chars = chars_of(text);
    let ghost keep = |ch: char| !is_space(ch);
    let mut result = String::new();
    let mut i: usize = 0;
    assert(text@.take(0).filter(keep) =~= Seq::<char>::empty()) by {
        reveal(Seq::filter);
    }
    while i < chars.len()
        invariant
            i <= chars@.len(),
            chars@ == text@,
            keep == (|ch: char| !is_space(ch)),
            result@ == text@.take(i as int).filter(keep),
        decreases chars@.len() - i,
    {
        assert(text@.take(i + 1).drop_last() =~= text@.take(i as int));
        reveal(Seq::filter);
        if !is_space_char(chars[i]) {
            result.push(chars[i]);
        }
        i = i + 1;
    }
    assert(text@.take(i as int) =~= text@);
    result
}

// ---------------------------------------------------------------------------
// Searching and splitting
// ---------------------------------------------------------------------------

/// The index of the first `ch` in `text`, or the length of `text` where there
/// is none.
pub open spec fn index_of(text: Seq<char>, ch: char) -> int
    decreases text.len(),
{
    if text.len() == 0 || text[0] == ch {
        0
    } else {
        1 + index_of(text.skip(1), ch)
    }
}

/// The index of the last `ch` in `text`, or -1 where there is none.
pub open spec fn last_index_of(text: Seq<char>, ch: char) -> int
    decreases text.len(),
{
    if text.len() == 0 {
        -1
    } else if text.last() == ch {
        text.len() - 1
    } else {
        last_index_of(text.drop_last(), ch)
    }
}

/// `index_of` is the least index that holds `ch`.
pub proof fn lemma_index_of(text: Seq<char>, ch: char)
    ensures
        0 <= index_of(text, ch) <= text.len(),
        forall|j: int| 0 <= j < index_of(text, ch) ==> text[j] != ch,
        index_of(text, ch) < text.len() ==> text[index_of(text, ch)] == ch,
        index_of(text, ch) < text.len() <==> text.contains(ch),
    decreases text.len(),
{
    if text.len() > 0 && text[0] != ch {
        let rest = text.skip(1);
        lemma_index_of(rest, ch);
        assert forall|j: int| 0 <= j < index_of(text, ch) implies text[j] != ch by {
            if j > 0 {
                assert(text[j] == rest[j - 1]);
            }
        }
        if index_of(text, ch) < text.len() {
            assert(text[index_of(text, ch)] == ch);
        }
    }
}

/// The only index with the properties of `index_of` is `index_of`.
pub proof fn lemma_index_of_is(text: Seq<char>, ch: char, i: int)
    requires
        0 <= i <= text.len(),
        forall|j: int| 0 <= j < i ==> text[j] != ch,
        i < text.len() ==> text[i] == ch,
    ensures
        index_of(text, ch) == i,
{
    lemma_index_of(text, ch);
    let k = index_of(text, ch);
    if k < i {
        assert(text[k] != ch);
    }
}

/// `last_index_of` is the greatest index that holds `ch`.
pub proof fn lemma_last_index_of(text: Seq<char>, ch: char)
    ensures
        -1 <= last_index_of(text, ch) < text.len(),
        forall|j: int| last_index_of(text, ch) < j < text.len() ==> text[j] != ch,
        last_index_of(text, ch) >= 0 ==> text[last_index_of(text, ch)] == ch,
        last_index_of(text, ch) >= 0 <==> text.contains(ch),
    decreases text.len(),
{
    if text.len() > 0 && text.last() != ch {
        lemma_last_index_of(text.drop_last(), ch);
        assert forall|j: int| last_index_of(text, ch) < j < text.len() implies text[j] != ch by {
            if j < text.len() - 1 {
                assert(text[j] == text.drop_last()[j]);
            }
        }
        if text.contains(ch) {
            let k = choose|k: int| 0 <= k < text.len() && text[k] == ch;
            assert(text.drop_last()[k] == ch);
        }
    } else if text.len() > 0 {
        assert(text[text.len() - 1] == ch);
    }
}

/// The only index with the properties of `last_index_of` is `last_index_of`.
pub proof fn lemma_last_index_of_is(text: Seq<char>, ch: char, i: int)
    requires
        -1 <= i < text.len(),
        forall|j: int| i < j < text.len() ==> text[j] != ch,
        i >= 0 ==> text[i] == ch,
    ensures
        last_index_of(text, ch) == i,
{
    lemma_last_index_of(text, ch);
    let k = last_index_of(text, ch);
    if i < k {
        assert(text[k] != ch);
    }
}

/// The text before and after the first `ch`, where there is one.
pub open spec fn split_at_first(text: Seq<char>, ch: char) -> Option<(Seq<char>, Seq<char>)> {
    let i = index_of(text, ch);
    if i < text.len() {
        Some((text.take(i), text.skip(i + 1)))
    } else {
        None
    }
}

/// The text before and after the last `ch`, where there is one.
pub open spec fn split_at_last(text: Seq<char>, ch: char) -> Option<(Seq<char>, Seq<char>)> {
    let i = last_index_of(text, ch);
    if i >= 0 {
        Some((text.take(i), text.skip(i + 1)))
    } else {
        None
    }
}

/// The two views of an optional pair of texts.
pub open spec fn pair_view(pair: Option<(String, String)>) -> Option<(Seq<char>, Seq<char>)> {
    match pair {
        Some((a, b)) => Some((a@, b@)),
        None => None,
    }
}

/// Splits `text` at the first `ch`.
pub fn split_once(text: &str, ch: char) -> (pair: Option<(String, String)>)
    ensures
        pair_view(pair) == split_at_first(text@, ch),
{
    let chars = chars_of(text);
    let mut i: usize = 0;
    while i < chars.len()
        invariant
            i <= chars@.len(),
            chars@ == text@,
            forall|j: int| 0 <= j < i ==> text@[j] != ch,
        decreases chars@.len() - i,
    {
        if chars[i] == ch {
            proof {
                lemma_index_of_is(text@, ch, i as int);
            }
            assert(text@.subrange(0, i as int) =~= text@.take(i as int));
            assert(text@.subrange(i + 1, text@.len() as int) =~= text@.skip(i + 1));
            return Some((text_between(&chars, 0, i), text_between(&chars, i + 1, chars.len())));
        }
        i = i + 1;
    }
    proof {
        lemma_index_of_is(text@, ch, i as int);
    }
    None
}

/// Splits `text` at the last `ch`.
pub fn rsplit_once(text: &str, ch: char) -> (pair: Option<(String, String)>)
    ensures
        pair_view(pair) == split_at_last(text@, ch),
{
    let chars = chars_of(text);
    let mut i: usize = chars.len();
    while i > 0
        invariant
            i <= chars@.len(),
            chars@ == text@,
            forall|j: int| i <= j < text@.len() ==> text@[j] != ch,
        decreases i,
    {
        i = i - 1;
        if chars[i] == ch {
            proof {
                lemma_last_index_of_is(text@, ch, i as int);
            }
            assert(text@.subrange(0, i as int) =~= text@.take(i as int));
            assert(text@.subrange(i + 1, text@.len() as int) =~= text@.skip(i + 1));
            return Some((text_between(&chars, 0, i), text_between(&chars, i + 1, chars.len())));
        }
    }
    proof {
        lemma_last_index_of_is(text@, ch, -1);
    }
    None
}

/// The pieces of `text` between the occurrences of `ch`.
pub open spec fn pieces(text: Seq<char>, ch: char) -> Seq<Seq<char>>
    decreases text.len(),
{
    let i = index_of(text, ch);
    if 0 <= i < text.len() {
        seq![text.take(i)] + pieces(text.skip(i + 1), ch)
    } else {
        seq![text]
    }
}

/// `text` cut at every `ch`.
pub fn split(text: &str, ch: char) -> (list: Vec<String>)
    ensures
        items::views(list@) == pieces(text@, ch),
{
    let chars = chars_of(text);
    let mut list: Vec<String> = Vec::new();
    let mut start: usize = 0;
    let mut i: usize = 0;
    assert(text@.skip(0) =~= text@);
    assert(items::views(list@) + pieces(text@, ch) =~= pieces(text@, ch));
    while i < chars.len()
        invariant
            start <= i <= chars@.len(),
            chars@ == text@,
            forall|j: int| start <= j < i ==> text@[j] != ch,
            pieces(text@, ch) == items::views(list@) + pieces(text@.skip(start as int), ch),
        decreases chars@.len() - i,
    {
        if chars[i] == ch {
            let ghost rest = text@.skip(start as int);
            let ghost before = items::views(list@);
            proof {
                lemma_index_of_is(rest, ch, i - start);
            }
            let piece = text_between(&chars, start, i);
            assert(rest.take(i - start) =~= piece@);
            assert(rest.skip(i - start + 1) =~= text@.skip(i + 1));
            list.push(piece);
            assert(items::views(list@) =~= before.push(piece@));
            assert(before + (seq![piece@] + pieces(text@.skip(i + 1), ch)) =~= items::views(list@)
                + pieces(text@.skip(i + 1), ch));
            start = i + 1;
        }
        i = i + 1;
    }
    let ghost rest = text@.skip(start as int);
    let ghost before = items::views(list@);
    proof {
        lemma_index_of_is(rest, ch, i - start);
    }
    let piece = text_between(&chars, start, chars.len());
    assert(rest =~= piece@);
    list.push(piece);
    assert(items::views(list@) =~= before + seq![piece@]);
    list
}

/// The texts of `list` with `separator` between them.
pub open spec fn joined(list: Seq<Seq<char>>, separator: Seq<char>) -> Seq<char>
    decreases list.len(),
{
    if list.len() == 0 {
        Seq::empty()
    } else if list.len() == 1 {
        list[0]
    } else {
        joined(list.drop_last(), separator) + separator + list.last()
    }
}

/// The texts of `list` with `separator` between them.
pub fn join(list: &Vec<String>, separator: &str) -> (text: String)
    ensures
        text@ == joined(items::views(list@), separator@),
{
    let mut text = String::new();
    let mut i: usize = 0;
    assert(items::views(list@).take(0) =~= Seq::empty());
    while i < list.len()
        invariant
            i <= list@.len(),
            text@ == joined(items::views(list@).take(i as int), separator@),
        decreases list@.len() - i,
    {
        let ghost done = items::views(list@).take(i + 1);
        assert(done.drop_last() =~= items::views(list@).take(i as int));
        assert(done.last() == list@[i as int]@);
        if i > 0 {
            text.append(separator);
        }
        text.append(list[i].as_str());
        if i == 0 {
            assert(text@ =~= done[0]);
        }
        i = i + 1;
    }
    assert(items::views(list@).take(i as int) =~= items::views(list@));
    text
}

/// Whether `text` starts with `prefix`.
pub fn starts_with(text: &str, prefix: &str) -> (result: bool)
    ensures
        result == prefix@.is_prefix_of(text@),
{
    let chars = chars_of(text);
    let wanted = chars_of(prefix);
    if wanted.len() > chars.len() {
        return false;
    }
    let mut i: usize = 0;
    while i < wanted.len()
        invariant
            i <= wanted@.len() <= chars@.len(),
            chars@ == text@,
            wanted@ == prefix@,
            forall|j: int| 0 <= j < i ==> wanted@[j] == chars@[j],
        decreases wanted@.len() - i,
    {
        if wanted[i] != chars[i] {
            assert(prefix@[i as int] != text@.subrange(0, prefix@.len() as int)[i as int]);
            return false;
        }
        i = i + 1;
    }
    assert(prefix@ =~= text@.subrange(0, prefix@.len() as int));
    true
}

/// What follows `prefix` in `text`, where `text` starts with it.
pub open spec fn after_prefix(text: Seq<char>, prefix: Seq<char>) -> Option<Seq<char>> {
    if prefix.is_prefix_of(text) {
        Some(text.skip(prefix.len() as int))
    } else {
        None
    }
}

/// The view of an optional text.
pub open spec fn text_view(text: Option<String>) -> Option<Seq<char>> {
    match text {
        Some(text) => Some(text@),
        None => None,
    }
}

/// The view of an optional text slice.
pub open spec fn slice_view(text: Option<&str>) -> Option<Seq<char>> {
    match text {
        Some(text) => Some(text@),
        None => None,
    }
}

/// A copy of an optional text.
pub fn copy_text(text: &Option<String>) -> (copy: Option<String>)
    ensures
        text_view(copy) == text_view(*text),
{
    match text {
        Some(text) => Some(text.clone()),
        None => None,
    }
}

/// What follows `prefix` in `text`, where `text` starts with it.
pub fn strip_prefix(text: &str, prefix: &str) -> (rest: Option<String>)
    ensures
        text_view(rest) == after_prefix(text@, prefix@),
{
    if starts_with(text, prefix) {
        let chars = chars_of(text);
        let from = chars_of(prefix).len();
        assert(text@.subrange(from as int, text@.len() as int) =~= text@.skip(from as int));
        Some(text_between(&chars, from, chars.len()))
    } else {
        None
    }
}

// ---------------------------------------------------------------------------
// Decimal numbers
// ---------------------------------------------------------------------------

/// The decimal digit of `value`, which is less than ten.
pub open spec fn digit_char(value: nat) -> char {
    ('0' as u32 + value) as char
}

/// The number written in decimal, without leading zeros.
pub open spec fn decimal(value: nat) -> Seq<char>
    decreases value,
{
    if value < 10 {
        seq![digit_char(value)]
    } else {
        decimal(value / 10).push(digit_char(value % 10))
    }
}

/// Whether every character of `text` is a decimal digit.
pub open spec fn all_digits(text: Seq<char>) -> bool {
    forall|i: int| 0 <= i < text.len() ==> '0' <= #[trigger] text[i] <= '9'
}

/// The number that the decimal digits of `text` write.
pub open spec fn digits_value(text: Seq<char>) -> nat
    decreases text.len(),
{
    if text.len() == 0 {
        0
    } else {
        digits_value(text.drop_last()) * 10 + (text.last() as nat - '0' as nat) as nat
    }
}

/// The digits of `text` behind an optional plus sign.
pub open spec fn unsigned_digits(text: Seq<char>) -> Seq<char> {
    if text.len() > 0 && text[0] == '+' {
        text.skip(1)
    } else {
        text
    }
}

/// The number that `text` writes: digits, at least one, behind an optional
/// plus sign, with a value of at most `max`.
pub open spec fn unsigned_value(text: Seq<char>, max: nat) -> Option<nat> {
    let digits = unsigned_digits(text);
    if digits.len() > 0 && all_digits(digits) && digits_value(digits) <= max {
        Some(digits_value(digits))
    } else {
        None
    }
}

/// Writes `value` in decimal.
pub fn decimal_text(value: u64) -> (text: String)
    ensures
        text@ == decimal(value as nat),
    decreases value,
{
    let mut text = if value < 10 {
        String::new()
    } else {
        decimal_text(value / 10)
    };
    let digit: u8 = (value % 10) as u8;
    text.push((48u8 + digit) as char);
    assert(text@ =~= decimal(value as nat));
    text
}

/// A longer row of digits never writes a smaller number.
proof fn lemma_digits_value_grows(text: Seq<char>, count: int)
    requires
        0 <= count <= text.len(),
    ensures
        digits_value(text.take(count)) <= digits_value(text),
    decreases text.len() - count,
{
    if count < text.len() {
        lemma_digits_value_grows(text, count + 1);
        assert(text.take(count + 1).drop_last() =~= text.take(count));
    } else {
        assert(text.take(count) =~= text);
    }
}

/// Reads an unsigned decimal number of at most `max`.
pub fn parse_unsigned(text: &str, max: u64) -> (value: Option<u64>)
    ensures
        match value {
            Some(value) => unsigned_value(text@, max as nat) == Some(value as nat),
            None => unsigned_value(text@, max as nat) is None,
        },
{
    let chars = chars_of(text);
    let mut start: usize = 0;
    if chars.len() > 0 && chars[0] == '+' {
        start = 1;
    }
    let ghost digits = unsigned_digits(text@);
    assert(digits =~= text@.skip(start as int));
    if start == chars.len() {
        return None;
    }
    let mut value: u64 = 0;
    let mut i: usize = start;
    assert(digits.take(0) =~= Seq::empty());
    while i < chars.len()
        invariant
            start <= i <= chars@.len(),
            chars@ == text@,
            digits == text@.skip(start as int),
            digits == unsigned_digits(text@),
            digits.len() > 0,
            forall|j: int| 0 <= j < i - start ==> '0' <= #[trigger] digits[j] <= '9',
            value == digits_value(digits.take(i - start)),
            value <= max,
        decreases chars@.len() - i,
    {
        let ch = chars[i];
        assert(digits[i - start] == ch);
        if !('0' <= ch && ch <= '9') {
            return None;
        }
        let digit: u64 = (ch as u32 - 48) as u64;
        let ghost seen = digits.take(i + 1 - start);
        assert(seen.drop_last() =~= digits.take(i - start));
        assert(seen.last() == ch);
        assert(digits_value(seen) == value * 10 + digit);
        proof {
            lemma_digits_value_grows(digits, i + 1 - start);
        }
        if value > (max - (if digit <= max { digit } else { max })) / 10 {
            assert(digits_value(seen) > max);
            return None;
        }
        if digit > max {
            return None;
        }
        value = value * 10 + digit;
        i = i + 1;
    }
    assert(digits.take(i - start) =~= digits);
    Some(value)
}

/// A number written in decimal is made of digits.
pub proof fn lemma_decimal_digits(value: nat)
    ensures
        decimal(value).len() > 0,
        all_digits(decimal(value)),
        digits_value(decimal(value)) == value,
    decreases value,
{
    if value < 10 {
        assert(decimal(value).drop_last() =~= Seq::empty());
        assert(digits_value(decimal(value).drop_last()) == 0);
    } else {
        lemma_decimal_digits(value / 10);
        assert(decimal(value).drop_last() =~= decimal(value / 10));
    }
}

/// Reading a number back from its decimal form gives the number.
pub proof fn law_decimal_round_trip(value: nat, max: nat)
    requires
        value <= max,
    ensures
        unsigned_value(decimal(value), max) == Some(value),
{
    lemma_decimal_digits(value);
}

/// A text does not start as one that starts with another character.
pub proof fn lemma_not_prefix(prefix: Seq<char>, text: Seq<char>)
    requires
        prefix.len() > 0,
        text.len() > 0,
        prefix[0] != text[0],
    ensures
        !prefix.is_prefix_of(text),
{
    lemma_prefix_start(prefix, text);
}

/// A text starts as each of its prefixes does.
pub proof fn lemma_prefix_start(prefix: Seq<char>, text: Seq<char>)
    requires
        prefix.len() > 0,
    ensures
        prefix.is_prefix_of(text) ==> text.len() > 0 && text[0] == prefix[0],
{
    if prefix.is_prefix_of(text) {
        assert(text.subrange(0, prefix.len() as int)[0] == text[0]);
    }
}

/// Where a piece of a text stands: at its start, or behind the character that
/// the text is cut at.
pub proof fn lemma_piece_place(text: Seq<char>, ch: char, k: int) -> (i: int)
    requires
        0 <= k < pieces(text, ch).len(),
    ensures
        0 <= i,
        i + pieces(text, ch)[k].len() <= text.len(),
        text.subrange(i, i + pieces(text, ch)[k].len()) == pieces(text, ch)[k],
        i == 0 || text[i - 1] == ch,
    decreases text.len(),
{
    lemma_index_of(text, ch);
    let n = index_of(text, ch);
    if n < text.len() && k > 0 {
        let rest = text.skip(n + 1);
        let j = lemma_piece_place(rest, ch, k - 1);
        let piece = pieces(text, ch)[k];
        assert(piece == pieces(rest, ch)[k - 1]);
        assert(text.subrange(n + 1 + j, n + 1 + j + piece.len()) =~= rest.subrange(
            j,
            j + piece.len(),
        ));
        if j > 0 {
            assert(rest[j - 1] == text[n + j]);
        }
        n + 1 + j
    } else {
        let piece = pieces(text, ch)[0];
        assert(text.subrange(0, piece.len() as int) =~= piece);
        0
    }
}

/// No piece of a text holds the character that the text is cut at.
pub proof fn lemma_piece_without(text: Seq<char>, ch: char, k: int)
    requires
        0 <= k < pieces(text, ch).len(),
    ensures
        !pieces(text, ch)[k].contains(ch),
    decreases text.len(),
{
    lemma_index_of(text, ch);
    let n = index_of(text, ch);
    if n < text.len() && k > 0 {
        lemma_piece_without(text.skip(n + 1), ch, k - 1);
    } else {
        let piece = pieces(text, ch)[0];
        assert forall|j: int| 0 <= j < piece.len() implies piece[j] != ch by {
            assert(piece[j] == text[j]);
        }
    }
}

/// One more character at the end of a text makes its last piece longer.
pub proof fn lemma_pieces_push(text: Seq<char>, ch: char, last: char)
    requires
        last != ch,
    ensures
        pieces(text, ch).len() > 0,
        pieces(text.push(last), ch) == pieces(text, ch).drop_last().push(
            pieces(text, ch).last().push(last),
        ),
    decreases text.len(),
{
    let whole = text.push(last);
    lemma_index_of(text, ch);
    let n = index_of(text, ch);
    if n < text.len() {
        assert forall|j: int| 0 <= j < n implies whole[j] != ch by {}
        lemma_index_of_is(whole, ch, n);
        let rest = text.skip(n + 1);
        lemma_pieces_push(rest, ch, last);
        assert(whole.take(n) =~= text.take(n));
        assert(whole.skip(n + 1) =~= rest.push(last));
        assert(pieces(whole, ch) =~= pieces(text, ch).drop_last().push(
            pieces(text, ch).last().push(last),
        ));
    } else {
        lemma_index_of_is(whole, ch, whole.len() as int);
        assert(pieces(whole, ch) =~= pieces(text, ch).drop_last().push(
            pieces(text, ch).last().push(last),
        ));
    }
}

/// Where the rest of a text stands when white space is taken off: behind
/// nothing but white space.
pub proof fn lemma_trim_place(text: Seq<char>) -> (j: int)
    ensures
        0 <= j,
        j + trimmed(text).len() <= text.len(),
        text.subrange(j, j + trimmed(text).len()) == trimmed(text),
        forall|i: int| 0 <= i < j ==> is_space(#[trigger] text[i]),
    decreases text.len(),
{
    if text.len() > 0 && is_space(text[0]) {
        let rest = text.skip(1);
        let j = lemma_trim_place(rest);
        assert(text.subrange(j + 1, j + 1 + trimmed(text).len()) =~= rest.subrange(
            j,
            j + trimmed(text).len(),
        ));
        assert forall|i: int| 0 <= i < j + 1 implies is_space(#[trigger] text[i]) by {
            if i > 0 {
                assert(text[i] == rest[i - 1]);
            }
        }
        j + 1
    } else {
        lemma_trim_end(text);
        assert(text.subrange(0, trimmed(text).len() as int) =~= trimmed(text));
        0
    }
}

/// White space at an end of a text counts for nothing when it is taken off.
pub proof fn lemma_trim_more(text: Seq<char>, space: char)
    requires
        is_space(space),
    ensures
        trimmed(seq![space] + text) == trimmed(text),
        trimmed(text.push(space)) == trimmed(text),
    decreases text.len(),
{
    assert((seq![space] + text).skip(1) =~= text);
    let more = text.push(space);
    if text.len() == 0 {
        assert(more.skip(1) =~= text);
    } else if is_space(text[0]) {
        lemma_trim_more(text.skip(1), space);
        assert(more.skip(1) =~= text.skip(1).push(space));
    } else {
        assert(more.drop_last() =~= text);
    }
}

/// Taking white space off the ends of a text changes nothing about what is left
/// without any.
pub proof fn lemma_trimmed_without_spaces(text: Seq<char>)
    ensures
        without_spaces(trimmed(text)) == without_spaces(text),
    decreases text.len(),
{
    let keep = |ch: char| !is_space(ch);
    if text.len() > 0 && is_space(text[0]) {
        let rest = text.skip(1);
        lemma_trimmed_without_spaces(rest);
        assert(text =~= seq![text[0]] + rest);
        Seq::filter_distributes_over_add(seq![text[0]], rest, keep);
        assert(seq![text[0]].filter(keep) =~= Seq::empty()) by {
            reveal(Seq::filter);
            let none = seq![text[0]].drop_last();
            assert(none =~= Seq::empty());
            assert(none.filter(keep) =~= Seq::empty());
            assert(!keep(text[0]));
            assert(seq![text[0]].last() == text[0]);
        }
        assert(without_spaces(text) =~= without_spaces(rest));
    } else {
        lemma_trim_end_without_spaces(text);
    }
}

/// Taking white space off the end of a text changes nothing about what is left
/// without any.
proof fn lemma_trim_end_without_spaces(text: Seq<char>)
    ensures
        without_spaces(trim_end(text)) == without_spaces(text),
    decreases text.len(),
{
    if text.len() > 0 && is_space(text.last()) {
        reveal(Seq::filter);
        lemma_trim_end_without_spaces(text.drop_last());
    }
}

/// What is no white space in a text is left in it without white space.
pub proof fn lemma_not_space_stays(text: Seq<char>, i: int)
    requires
        0 <= i < text.len(),
        !is_space(text[i]),
    ensures
        without_spaces(text).contains(text[i]),
{
    text.lemma_filter_contains(|ch: char| !is_space(ch), i);
}

/// What is left in a text without white space is in the text.
pub proof fn lemma_left_is_inside(text: Seq<char>, ch: char)
    requires
        without_spaces(text).contains(ch),
    ensures
        text.contains(ch),
{
    text.lemma_filter_contains_rev(|ch: char| !is_space(ch), ch);
}

/// What is left when white space is taken off the end starts as before.
proof fn lemma_trim_end(text: Seq<char>)
    ensures
        trim_end(text).len() <= text.len(),
        trim_end(text) == text.take(trim_end(text).len() as int),
        trim_end(text).len() > 0 ==> !is_space(trim_end(text).last()),
    decreases text.len(),
{
    if text.len() > 0 && is_space(text.last()) {
        lemma_trim_end(text.drop_last());
        assert(text.drop_last().take(trim_end(text.drop_last()).len() as int) =~= text.take(
            trim_end(text.drop_last()).len() as int,
        ));
    } else {
        assert(text.take(text.len() as int) =~= text);
    }
}

/// What is left when white space is taken off the start does not start with it.
proof fn lemma_trim_start(text: Seq<char>)
    ensures
        trim_start(text).len() > 0 ==> !is_space(trim_start(text)[0]),
    decreases text.len(),
{
    if text.len() > 0 && is_space(text[0]) {
        lemma_trim_start(text.skip(1));
    }
}

/// Taking white space off a text twice is taking it off once.
pub proof fn law_trim_idempotent(text: Seq<char>)
    ensures
        trimmed(trimmed(text)) == trimmed(text),
        trimmed(text).len() > 0 ==> !is_space(trimmed(text)[0]) && !is_space(trimmed(text).last()),
{
    lemma_trim_start(text);
    lemma_trim_end(trim_start(text));
}

} // verus!
