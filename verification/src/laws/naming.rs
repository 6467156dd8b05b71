//! The names that nodes are shown under.

use vstd::prelude::*;
use vstd::string::*;

use crate::node::NodeView;
use crate::renamer;
use crate::text;

verus! {

/// Whether two characters of a text, from `i` on, are a flag: two regional
/// indicators, which stand for the letters `first` and `second`.
pub open spec fn is_flag_of(text: Seq<char>, i: int, first: char, second: char) -> bool {
    &&& 0 <= i
    &&& i + 1 < text.len()
    &&& 'A' <= first <= 'Z'
    &&& 'A' <= second <= 'Z'
    &&& text[i] as int - 0x1F1E6 == first as int - 'A' as int
    &&& text[i + 1] as int - 0x1F1E6 == second as int - 'A' as int
}

/// Whether no flag starts before `end`.
pub open spec fn has_no_flag(text: Seq<char>, end: int) -> bool {
    forall|j: int, first: char, second: char| j < end ==> !#[trigger] is_flag_of(text, j, first, second)
}

/// An indicator stands for a letter.
proof fn lemma_indicator(character: char) -> (letter: char)
    requires
        renamer::is_indicator(character),
    ensures
        'A' <= letter <= 'Z',
        character as int - 0x1F1E6 == letter as int - 'A' as int,
{
    assert(character as u32 as int == character as int);
    (character as int - 0x1F1E6 + 0x41) as char
}

/// A pair of indicators is a flag of two letters.
proof fn lemma_is_flag(text: Seq<char>, i: int)
    requires
        0 <= i,
        i + 1 < text.len(),
        renamer::is_indicator(text[i]),
        renamer::is_indicator(text[i + 1]),
    ensures
        exists|first: char, second: char| #[trigger] is_flag_of(text, i, first, second),
{
    let first = lemma_indicator(text[i]);
    let second = lemma_indicator(text[i + 1]);
    assert(is_flag_of(text, i, first, second));
}

/// The place of the first flag.
proof fn lemma_flag_place(text: Seq<char>, i: int)
    requires
        0 <= i <= text.len(),
        has_no_flag(text, i),
        i < text.len() ==> exists|first: char, second: char| #[trigger]
            is_flag_of(text, i, first, second),
    ensures
        renamer::flag_index(text) == i,
    decreases text.len(),
{
    if text.len() < 2 {
    } else if i == 0 {
    } else {
        if renamer::is_indicator(text[0]) && renamer::is_indicator(text[1]) {
            lemma_is_flag(text, 0);
            let (first, second) = choose|first: char, second: char| #[trigger]
                is_flag_of(text, 0, first, second);
            assert(false);
        }
        let rest = text.skip(1);
        assert forall|j: int, first: char, second: char| j < i - 1 implies !#[trigger] is_flag_of(
            rest,
            j,
            first,
            second,
        ) by {
            assert(!is_flag_of(text, j + 1, first, second));
        }
        if i < text.len() {
            let (first, second) = choose|first: char, second: char| #[trigger]
                is_flag_of(text, i, first, second);
            assert(is_flag_of(rest, i - 1, first, second));
        }
        lemma_flag_place(rest, i - 1);
    }
}

/// A node is labelled by the first flag in its name and, after a space, the
/// country that the two letters of the flag stand for.
pub proof fn law_label(raw_name: Seq<char>, i: int, first: char, second: char)
    requires
        is_flag_of(raw_name, i, first, second),
        has_no_flag(raw_name, i),
    ensures
        renamer::label_of(raw_name) == seq![raw_name[i], raw_name[i + 1], ' ']
            + renamer::country_of(seq![first, second]),
{
    reveal_strlit(" ");
    lemma_flag_place(raw_name, i);
    let flag = raw_name.subrange(i, i + 2);
    assert(flag =~= seq![raw_name[i], raw_name[i + 1]]);
    assert(flag + " "@ =~= seq![raw_name[i], raw_name[i + 1], ' ']);
    assert(renamer::flag_code(flag) =~= seq![first, second]);
}

/// A node without a flag in its name is labelled as unknown.
pub proof fn law_label_without_flag(raw_name: Seq<char>)
    requires
        has_no_flag(raw_name, raw_name.len() as int),
    ensures
        renamer::label_of(raw_name) == seq!['\u{1F310}', ' '] + "Unknown"@,
{
    lemma_flag_place(raw_name, raw_name.len() as int);
    reveal_strlit("\u{1F310} Unknown");
    reveal_strlit("Unknown");
    assert("\u{1F310} Unknown"@ =~= seq!['\u{1F310}', ' '] + "Unknown"@);
}

/// The country of a code is that of the first row with the code.
pub proof fn law_country(code: Seq<char>, i: int)
    requires
        0 <= i < renamer::COUNTRIES@.len(),
        renamer::COUNTRIES@[i].0@ == code,
        forall|j: int| 0 <= j < i ==> (#[trigger] renamer::COUNTRIES@[j]).0@ != code,
    ensures
        renamer::country_of(code) == renamer::COUNTRIES@[i].1@,
{
    lemma_country_from(code, i, 0);
}

/// The country of a code, from a row on.
proof fn lemma_country_from(code: Seq<char>, i: int, from: int)
    requires
        0 <= from <= i < renamer::COUNTRIES@.len(),
        renamer::COUNTRIES@[i].0@ == code,
        forall|j: int| from <= j < i ==> (#[trigger] renamer::COUNTRIES@[j]).0@ != code,
    ensures
        renamer::country_from(code, from) == renamer::COUNTRIES@[i].1@,
    decreases i - from,
{
    if from < i {
        assert(renamer::COUNTRIES@[from].0@ != code);
        lemma_country_from(code, i, from + 1);
    }
}

/// A code that no row has stands for an unknown country.
pub proof fn law_unknown_country(code: Seq<char>, from: int)
    requires
        0 <= from,
        forall|j: int|
            from <= j < renamer::COUNTRIES@.len() ==> (#[trigger] renamer::COUNTRIES@[j]).0@
                != code,
    ensures
        renamer::country_from(code, from) == "Unknown"@,
        from == 0 ==> renamer::country_of(code) == "Unknown"@,
    decreases renamer::COUNTRIES@.len() - from,
{
    if from < renamer::COUNTRIES@.len() {
        assert(renamer::COUNTRIES@[from].0@ != code);
        law_unknown_country(code, from + 1);
    }
}

/// The label of a node of a list.
pub open spec fn label(nodes: Seq<NodeView>, i: int) -> Seq<char> {
    renamer::label_of(nodes[i].raw_name)
}

/// How many nodes of a list have a label.
proof fn lemma_label_count(nodes: Seq<NodeView>, label: Seq<char>)
    ensures
        renamer::label_count(nodes, label) == nodes.filter(
            |node: NodeView| renamer::label_of(node.raw_name) == label,
        ).len(),
    decreases nodes.len(),
{
    reveal(Seq::filter);
    if nodes.len() > 0 {
        lemma_label_count(nodes.drop_last(), label);
    }
}

/// A label that one node has is counted once, one that more have more than once.
proof fn lemma_count_of(nodes: Seq<NodeView>, i: int)
    requires
        0 <= i < nodes.len(),
    ensures
        renamer::label_count(nodes, label(nodes, i)) >= 1,
        renamer::label_count(nodes, label(nodes, i)) > 1 <==> exists|j: int|
            0 <= j < nodes.len() && j != i && #[trigger] label(nodes, j) == label(nodes, i),
    decreases nodes.len(),
{
    let own = label(nodes, i);
    let less = nodes.drop_last();
    let last = nodes.len() - 1;
    if i == last {
        lemma_count_none(less, own);
        if renamer::label_count(less, own) > 0 {
            let j = choose|j: int| 0 <= j < less.len() && #[trigger] label(less, j) == own;
            assert(label(nodes, j) == own);
        }
        assert forall|j: int|
            0 <= j < nodes.len() && j != i && #[trigger] label(nodes, j) == own implies
            renamer::label_count(less, own) > 0 by {
            assert(label(less, j) == own);
        }
    } else {
        assert(label(less, i) == own);
        lemma_count_of(less, i);
        if renamer::label_count(less, own) > 1 {
            let j = choose|j: int|
                0 <= j < less.len() && j != i && #[trigger] label(less, j) == own;
            assert(label(nodes, j) == own);
        }
        if label(nodes, last) == own {
            assert(nodes.last() == nodes[last]);
        }
        assert forall|j: int|
            0 <= j < nodes.len() && j != i && #[trigger] label(nodes, j) == own implies
            renamer::label_count(nodes, own) > 1 by {
            if j < last {
                assert(label(less, j) == own);
            }
        }
    }
}

/// A label that no node has is not counted.
proof fn lemma_count_none(nodes: Seq<NodeView>, own: Seq<char>)
    ensures
        renamer::label_count(nodes, own) > 0 <==> exists|j: int|
            0 <= j < nodes.len() && #[trigger] label(nodes, j) == own,
    decreases nodes.len(),
{
    if nodes.len() > 0 {
        let less = nodes.drop_last();
        lemma_count_none(less, own);
        let last = nodes.len() - 1;
        if renamer::label_count(less, own) > 0 {
            let j = choose|j: int| 0 <= j < less.len() && #[trigger] label(less, j) == own;
            assert(label(nodes, j) == own);
        }
        if label(nodes, last) == own {
            assert(nodes.last() == nodes[last]);
        }
        assert forall|j: int| 0 <= j < nodes.len() && #[trigger] label(nodes, j) == own implies
            renamer::label_count(nodes, own) > 0 by {
            if j < last {
                assert(label(less, j) == own);
            }
        }
    }
}

/// A node whose label no other has is shown under its label; one of several is
/// shown under the label, `#` and one more than the earlier ones there are.
/// Nothing else of a node changes, and the nodes keep their places.
pub proof fn law_display_name(nodes: Seq<NodeView>, i: int)
    requires
        0 <= i < nodes.len(),
    ensures
        ({
            let own = label(nodes, i);
            let is_shared = exists|j: int|
                0 <= j < nodes.len() && j != i && #[trigger] label(nodes, j) == own;
            let earlier = nodes.take(i).filter(
                |node: NodeView| renamer::label_of(node.raw_name) == own,
            ).len();
            let name = if is_shared {
                own + seq![' ', '#'] + text::decimal(earlier + 1)
            } else {
                own
            };
            &&& renamer::renamed(nodes).len() == nodes.len()
            &&& renamer::renamed(nodes)[i] == (NodeView { display_name: name, ..nodes[i] })
        }),
{
    let own = label(nodes, i);
    reveal_strlit(" #");
    assert(" #"@ =~= seq![' ', '#']);
    lemma_count_of(nodes, i);
    lemma_label_count(nodes.take(i), own);
    assert(nodes.take(i + 1).drop_last() =~= nodes.take(i));
    assert(nodes.take(i + 1).last() == nodes[i]);
}

} // verus!
