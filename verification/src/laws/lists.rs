//! Subscriptions as lists of links: how they are read and written.

use vstd::prelude::*;
use vstd::string::*;

use crate::codec;
use crate::codec::{Base64Form, Place};
use crate::encoder;
use crate::json;
use crate::laws::links;
use crate::laws::refusals;
use crate::node::{NodeView, Protocol};
use crate::parser;
use crate::text;
use crate::update;
use crate::uri;
use vstd::utf8::*;

verus! {

/// The nodes of two lists of lines are those of the one and then those of the
/// other; a line holds a node where it is a link, white space around it left out.
pub proof fn law_lines(first: Seq<Seq<char>>, second: Seq<Seq<char>>, line: Seq<char>)
    ensures
        parser::line_nodes(first + second) == parser::line_nodes(first) + parser::line_nodes(
            second,
        ),
        parser::line_nodes(seq![line]) == match uri::uri_node(text::trimmed(line)) {
            Ok(node) => seq![node],
            Err(_) => Seq::empty(),
        },
        parser::line_nodes(Seq::empty()).len() == 0,
    decreases second.len(),
{
    let none = Seq::<NodeView>::empty();
    assert(seq![line].drop_last() =~= Seq::empty());
    assert(parser::line_nodes(Seq::empty()) =~= none);
    if let Ok(node) = uri::uri_node(text::trimmed(line)) {
        assert(none.push(node) =~= seq![node]);
    }
    if second.len() == 0 {
        assert(first + second =~= first);
        assert(parser::line_nodes(first) + none =~= parser::line_nodes(first));
    } else {
        law_lines(first, second.drop_last(), line);
        assert((first + second).drop_last() =~= first + second.drop_last());
        assert(parser::line_nodes(first + second) =~= parser::line_nodes(first)
            + parser::line_nodes(second));
    }
}

/// A list of lines is read as the nodes in its lines; it is refused just where it
/// holds no node and yet a line that is not blank.
pub proof fn law_list(lines: Seq<Seq<char>>)
    requires
        lines.len() > 0,
        forall|i: int| 0 <= i < lines.len() ==> !(#[trigger] lines[i]).contains('\n'),
    ensures
        ({
            let read = parser::uri_list(text::joined(lines, seq!['\n']));
            let is_blank = forall|i: int|
                0 <= i < lines.len() ==> text::trimmed(#[trigger] lines[i]).len() == 0;
            let has_node = exists|i: int|
                0 <= i < lines.len() && uri::uri_node(text::trimmed(#[trigger] lines[i])) is Ok;
            &&& read is Ok <==> has_node || is_blank
            &&& read matches Ok(nodes) ==> nodes == parser::line_nodes(lines)
            &&& read matches Err(message) ==> message == "no valid nodes found in URI list"@
        }),
{
    crate::roundtrip::law_split_join(lines, '\n');
    lemma_no_nodes(lines);
}

/// Lines hold no node just where none of them does.
proof fn lemma_no_nodes(lines: Seq<Seq<char>>)
    ensures
        parser::line_nodes(lines).len() == 0 <==> forall|i: int|
            0 <= i < lines.len() ==> !(uri::uri_node(text::trimmed(#[trigger] lines[i])) is Ok),
    decreases lines.len(),
{
    if lines.len() > 0 {
        let less = lines.drop_last();
        lemma_no_nodes(less);
        assert(lines[lines.len() - 1] == lines.last());
        if parser::line_nodes(lines).len() == 0 {
            assert forall|i: int| 0 <= i < lines.len() implies !(uri::uri_node(
                text::trimmed(#[trigger] lines[i]),
            ) is Ok) by {
                if i < less.len() {
                    assert(less[i] == lines[i]);
                }
            }
        } else if forall|i: int|
            0 <= i < lines.len() ==> !(uri::uri_node(text::trimmed(#[trigger] lines[i])) is Ok) {
            assert forall|i: int| 0 <= i < less.len() implies !(uri::uri_node(
                text::trimmed(#[trigger] less[i]),
            ) is Ok) by {
                assert(less[i] == lines[i]);
            }
        }
    }
}

/// A subscription of nothing but white space holds nothing; a JSON document is
/// read by its `outbounds`, or else by its `servers`; anything else is a list of
/// links.
pub proof fn law_subscription(body: Seq<char>)
    ensures
        ({
            let content = text::trimmed(body);
            let read = parser::subscription(body);
            &&& content.len() == 0 ==> read == Ok::<Seq<NodeView>, Seq<char>>(Seq::empty())
            &&& content.len() > 0 ==> match json::document_of(content) {
                Some(value) => read == parser::json_subscription(value),
                None => read == parser::text_subscription(content),
            }
        }),
{
}

/// A list of links in any form of base64, white space in it or not, is read as the
/// list; bytes that are no text are refused, and a text that holds no link is read
/// as it stands.
pub proof fn law_encoded_list(content: Seq<char>, form: Base64Form, bytes: Seq<u8>)
    requires
        text::without_spaces(content) == codec::base64_encoded(form, bytes),
    ensures
        parser::text_subscription(content) == match codec::strict_text(bytes) {
            Some(list) => if parser::has_link(list) {
                parser::uri_list(list)
            } else {
                parser::uri_list(content)
            },
            None => Err("decoded base64 payload is not valid UTF-8"@),
        },
{
    crate::roundtrip::law_base64_round_trip(form, bytes);
}

/// A text that is no base64 is read as a list of links.
pub proof fn law_plain_list(content: Seq<char>)
    requires
        forall|form: Base64Form, bytes: Seq<u8>|
            text::without_spaces(content) != #[trigger] codec::base64_encoded(form, bytes),
    ensures
        parser::text_subscription(content) == parser::uri_list(content),
{
}

/// A published link is the link up to its `#`, a `#`, and the name that is shown,
/// with what a fragment cannot hold escaped; the links stand in the order of the
/// nodes, one to a line.
pub proof fn law_published_links(nodes: Seq<NodeView>, link: Seq<char>, old_name: Seq<char>, i: int)
    requires
        0 <= i < nodes.len(),
        !link.contains('#'),
        nodes[i].original_uri == link || nodes[i].original_uri == link + seq!['#'] + old_name,
    ensures
        encoder::published_links(nodes).len() == nodes.len(),
        encoder::published_links(nodes)[i] == link + seq!['#'] + codec::percent_encoded(
            encode_utf8(nodes[i].display_name),
            Place::Fragment,
        ),
        encoder::published_list(nodes) == text::joined(encoder::published_links(nodes), seq!['\n']),
{
    reveal_strlit("#");
    reveal_strlit("\n");
    assert("#"@ =~= seq!['#']);
    assert("\n"@ =~= seq!['\n']);
    let uri = nodes[i].original_uri;
    let n = link.len() as int;
    assert forall|k: int| 0 <= k < n implies #[trigger] uri[k] != '#' by {
        assert(link.contains(link[k]));
        assert(uri[k] == link[k]);
    }
    if uri == link {
        text::lemma_index_of(uri, '#');
        let at = text::index_of(uri, '#');
        assert(uri.take(uri.len() as int) =~= link);
        if at < uri.len() {
            assert(uri[at] == '#');
        }
    } else {
        assert(uri[n] == '#');
        text::lemma_index_of_is(uri, '#', n);
        assert(uri.take(n) =~= link);
    }
}

/// The nodes of several subscriptions are those of the one and then those of the
/// next; one that did not arrive, or cannot be read, gives none.
pub proof fn law_fetched(
    first: Seq<Option<Seq<char>>>,
    second: Seq<Option<Seq<char>>>,
    body: Seq<char>,
)
    ensures
        update::fetched_nodes(first + second) == update::fetched_nodes(first)
            + update::fetched_nodes(second),
        update::fetched_nodes(seq![Some(body)]) == match parser::subscription(body) {
            Ok(nodes) => nodes,
            Err(_) => Seq::empty(),
        },
        update::fetched_nodes(seq![None]).len() == 0,
        update::fetched_nodes(Seq::empty()).len() == 0,
    decreases second.len(),
{
    let none = Seq::<NodeView>::empty();
    assert(seq![Some(body)].drop_last() =~= Seq::empty());
    assert(seq![None::<Seq<char>>].drop_last() =~= Seq::empty());
    assert(update::fetched_nodes(Seq::empty()) =~= none);
    if let Ok(nodes) = parser::subscription(body) {
        assert(none + nodes =~= nodes);
    }
    if second.len() == 0 {
        assert(first + second =~= first);
        assert(update::fetched_nodes(first) + none =~= update::fetched_nodes(first));
    } else {
        law_fetched(first, second.drop_last(), body);
        assert((first + second).drop_last() =~= first + second.drop_last());
        assert((first + second).last() == second.last());
        assert(update::fetched_nodes(first + second) =~= update::fetched_nodes(first)
            + update::fetched_nodes(second));
    }
}

/// What each subscription was refused for is told at its place.
pub proof fn law_refusals(bodies: Seq<Option<Seq<char>>>, i: int)
    requires
        0 <= i < bodies.len(),
    ensures
        update::refusals(bodies).len() == bodies.len(),
        update::refusals(bodies)[i] is Some <==> bodies[i] is Some && parser::subscription(
            bodies[i]->0,
        ) is Err,
        update::refusals(bodies)[i] matches Some(message) ==> parser::subscription(bodies[i]->0)
            == Err::<Seq<NodeView>, Seq<char>>(message),
{
}

/// Whether a text starts with the scheme of a protocol.
pub open spec fn starts_as(text: Seq<char>, protocol: Protocol) -> bool {
    links::scheme_of(protocol).is_prefix_of(text)
}

/// A list holds a link just where a line of it, white space around it left out,
/// starts with the scheme of a protocol.
pub proof fn law_has_link(lines: Seq<Seq<char>>)
    requires
        lines.len() > 0,
        forall|i: int| 0 <= i < lines.len() ==> !(#[trigger] lines[i]).contains('\n'),
    ensures
        parser::has_link(text::joined(lines, seq!['\n'])) <==> exists|i: int, protocol: Protocol|
            0 <= i < lines.len() && #[trigger] starts_as(text::trimmed(lines[i]), protocol),
{
    crate::roundtrip::law_split_join(lines, '\n');
    let content = text::joined(lines, seq!['\n']);
    if parser::has_link(content) {
        let i = choose|i: int|
            0 <= i < text::pieces(content, '\n').len() && uri::is_supported(
                text::trimmed(#[trigger] text::pieces(content, '\n')[i]),
            );
        let line = text::trimmed(lines[i]);
        if !(exists|protocol: Protocol| #[trigger] starts_as(line, protocol)) {
            assert forall|protocol: Protocol| !(#[trigger] links::scheme_of(
                protocol,
            )).is_prefix_of(line) by {
                assert(!starts_as(line, protocol));
            }
            refusals::law_other_scheme(line);
        }
    }
    assert forall|i: int, protocol: Protocol|
        0 <= i < lines.len() && #[trigger] starts_as(text::trimmed(lines[i]), protocol) implies
        parser::has_link(content) by {
        refusals::law_scheme_is_supported(text::trimmed(lines[i]), protocol);
        assert(text::pieces(content, '\n')[i] == lines[i]);
    }
}

} // verus!
