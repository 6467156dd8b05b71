//! Writing the subscription that is published.

use vstd::prelude::*;
use vstd::string::*;
use vstd::utf8::*;

use crate::codec;
use crate::codec::Place;
use crate::items;
use crate::link;
use crate::node::{Node, NodeView};
use crate::parser;
use crate::roundtrip;
use crate::text;
use crate::uri;

verus! {

/// A link with a name for its fragment.
pub open spec fn named_uri(uri: Seq<char>, name: Seq<char>) -> Seq<char> {
    codec::before_fragment(uri) + "#"@ + codec::percent_encoded(encode_utf8(name), Place::Fragment)
}

/// A link with a name for its fragment.
pub fn replace_fragment(uri: &str, display_name: &str) -> (result: String)
    ensures
        result@ == named_uri(uri@, display_name@),
{
    proof {
        text::lemma_index_of(uri@, '#');
    }
    let mut result = match text::split_once(uri, '#') {
        Some((head, _)) => head,
        None => {
            assert(uri@.take(uri@.len() as int) =~= uri@);
            uri.to_string()
        },
    };
    result.append("#");
    result.append(uri::encode_fragment_component(display_name).as_str());
    result
}

/// The links of nodes, each under its display name.
pub open spec fn published_links(nodes: Seq<NodeView>) -> Seq<Seq<char>> {
    nodes.map_values(|node: NodeView| named_uri(node.original_uri, node.display_name))
}

/// The list that is published: a link on each line.
pub open spec fn published_list(nodes: Seq<NodeView>) -> Seq<char> {
    text::joined(published_links(nodes), "\n"@)
}

/// The list that is published.
pub fn subscription_list(nodes: &Vec<Node>) -> (list: String)
    ensures
        list@ == published_list(items::views(nodes@)),
{
    let ghost links = published_links(items::views(nodes@));
    let mut lines: Vec<String> = Vec::new();
    let mut i: usize = 0;
    while i < nodes.len()
        invariant
            i <= nodes@.len(),
            links == published_links(items::views(nodes@)),
            lines@.len() == i,
            forall|j: int| 0 <= j < i ==> (#[trigger] lines@[j])@ == links[j],
        decreases nodes@.len() - i,
    {
        assert(items::views(nodes@)[i as int] == nodes@[i as int]@);
        let line = replace_fragment(nodes[i].original_uri.as_str(), nodes[i].display_name.as_str());
        assert(line@ == links[i as int]);
        lines.push(line);
        i = i + 1;
    }
    assert(items::views(lines@) =~= links);
    text::join(&lines, "\n")
}

/// The subscription that is published: the list of links in base64, without
/// white space.
pub fn encode_subscription(nodes: &Vec<Node>) -> (result: String)
    ensures
        result@ == codec::standard_encoded(encode_utf8(published_list(items::views(nodes@)))),
        parser::is_form_of(result@, published_list(items::views(nodes@))),
{
    let list = subscription_list(nodes);
    let result = codec::encode_base64(list.as_str());
    proof {
        lemma_no_spaces(encode_utf8(list@));
    }
    result
}

/// Base64 holds no white space.
proof fn lemma_no_spaces(bytes: Seq<u8>)
    ensures
        text::without_spaces(codec::standard_encoded(bytes)) == codec::standard_encoded(bytes),
{
    let encoded = codec::standard_encoded(bytes);
    let test = |ch: char| !text::is_space(ch);
    roundtrip::lemma_base64_chars(codec::standard_form(), bytes);
    assert forall|i: int| 0 <= i < encoded.len() implies test(#[trigger] encoded[i]) by {
        assert(codec::is_base64_char(encoded[i]));
    }
    roundtrip::lemma_filter_all(encoded, test);
}

// ---------------------------------------------------------------------------
// Laws
// ---------------------------------------------------------------------------

/// The published list has one line for each node: where no link holds a line
/// break, cutting the list at its line breaks gives the links back.
pub proof fn law_published_lines(nodes: Seq<NodeView>)
    requires
        nodes.len() > 0,
        forall|i: int|
            0 <= i < nodes.len() ==> !(#[trigger] nodes[i]).original_uri.contains('\n'),
    ensures
        text::pieces(published_list(nodes), '\n') == published_links(nodes),
{
    let links = published_links(nodes);
    reveal_strlit("#");
    reveal_strlit("\n");
    assert forall|i: int| 0 <= i < links.len() implies !(#[trigger] links[i]).contains('\n') by {
        let node = nodes[i];
        let head = codec::before_fragment(node.original_uri);
        let tail = codec::percent_encoded(encode_utf8(node.display_name), Place::Fragment);
        text::lemma_index_of(node.original_uri, '#');
        roundtrip::law_fragment_is_visible(node.display_name);
        assert(!node.original_uri.contains('\n'));
        assert forall|j: int| 0 <= j < links[i].len() implies links[i][j] != '\n' by {
            if j < head.len() {
                assert(links[i][j] == node.original_uri[j]);
            } else if j > head.len() {
                assert(links[i][j] == tail[j - head.len() - 1]);
            }
        }
    }
    roundtrip::law_split_join(links, '\n');
    assert("\n"@ =~= seq!['\n']);
}

/// Giving a link a name twice is giving it the second name.
pub proof fn law_last_name_counts(uri: Seq<char>, first: Seq<char>, second: Seq<char>)
    ensures
        named_uri(named_uri(uri, first), second) == named_uri(uri, second),
{
    lemma_named_fragment(uri, first);
}

/// A node that was read from a link, under the name that the link has now.
pub open spec fn read_under_name(node: NodeView, uri: Seq<char>, name: Seq<char>) -> NodeView {
    NodeView { raw_name: name, display_name: name, original_uri: named_uri(uri, name), ..node }
}

/// A Shadowsocks link under another name describes the same node under that
/// name.
pub proof fn law_renamed_shadowsocks_link(uri: Seq<char>, node: NodeView, name: Seq<char>)
    requires
        "ss://"@.is_prefix_of(uri),
        uri::uri_node(uri) == Ok::<NodeView, Seq<char>>(node),
    ensures
        uri::uri_node(named_uri(uri, name)) == Ok::<NodeView, Seq<char>>(
            read_under_name(node, uri, name),
        ),
        "ss://"@.is_prefix_of(named_uri(uri, name)),
{
    let named = named_uri(uri, name);
    let head = codec::before_fragment(uri);
    let tail = codec::percent_encoded(encode_utf8(name), Place::Fragment);
    reveal_strlit("#");
    reveal_strlit("ss://");
    text::lemma_index_of(uri, '#');
    let i = text::index_of(uri, '#');
    assert forall|j: int| 0 <= j < 5 implies uri[j] == "ss://"@[j] by {
        assert(uri.subrange(0, 5)[j] == uri[j]);
    }
    assert(i >= 5) by {
        if i < 5 {
            assert(uri[i] == "ss://"@[i]);
        }
    }
    assert forall|j: int| 0 <= j < head.len() implies named[j] == uri[j] by {}
    assert(named.subrange(0, 5) =~= "ss://"@);
    let content = uri.skip(5);
    let renamed = named.skip(5);
    assert(uri =~= "ss://"@ + content);
    assert(named =~= "ss://"@ + renamed);
    link::lemma_ss_scheme(content);
    link::lemma_ss_scheme(renamed);
    text::lemma_index_of_is(content, '#', i - 5);
    assert forall|j: int| 0 <= j < i - 5 implies renamed[j] != '#' by {
        assert(renamed[j] == uri[j + 5]);
    }
    assert(renamed[i - 5] == '#');
    text::lemma_index_of_is(renamed, '#', i - 5);
    assert(renamed.take(i - 5) =~= head.skip(5));
    assert(renamed.skip(i - 5 + 1) =~= tail);
    roundtrip::law_percent_round_trip(name, Place::Fragment);
    assert(uri::fragment_split(renamed) == (head.skip(5), name));
    if i < uri.len() {
        assert(content.take(i - 5) =~= head.skip(5));
    } else {
        assert(content =~= head.skip(5));
    }
}

/// A named link has no white space at its ends, if it has none at its start.
proof fn lemma_named_is_trimmed(uri: Seq<char>, name: Seq<char>)
    requires
        codec::before_fragment(uri).len() > 0,
        !text::is_space(uri[0]),
    ensures
        text::trimmed(named_uri(uri, name)) == named_uri(uri, name),
{
    let named = named_uri(uri, name);
    let head = codec::before_fragment(uri);
    let tail = codec::percent_encoded(encode_utf8(name), Place::Fragment);
    reveal_strlit("#");
    text::lemma_index_of(uri, '#');
    assert(named[0] == uri[0]);
    roundtrip::law_fragment_is_visible(name);
    if tail.len() > 0 {
        assert(named.last() == tail[tail.len() - 1]);
    } else {
        assert(named.last() == '#');
    }
}

/// Links that differ in their fragments alone have the prefixes in common that
/// hold no number sign.
proof fn lemma_prefix_shared(prefix: Seq<char>, a: Seq<char>, b: Seq<char>)
    requires
        codec::before_fragment(a) == codec::before_fragment(b),
        !prefix.contains('#'),
        prefix.is_prefix_of(a),
    ensures
        prefix.is_prefix_of(b),
{
    text::lemma_index_of(a, '#');
    text::lemma_index_of(b, '#');
    let i = text::index_of(a, '#');
    let head = codec::before_fragment(b);
    assert forall|j: int| 0 <= j < prefix.len() implies a[j] == prefix[j] by {
        assert(a.subrange(0, prefix.len() as int)[j] == a[j]);
    }
    assert(i >= prefix.len()) by {
        if i < prefix.len() {
            assert(prefix[i] == '#');
        }
    }
    assert(codec::before_fragment(a).len() == i);
    assert forall|j: int| 0 <= j < prefix.len() implies b[j] == prefix[j] by {
        assert(codec::before_fragment(a)[j] == a[j]);
        assert(head[j] == b[j]);
    }
    assert(b.subrange(0, prefix.len() as int) =~= prefix);
}

/// A link under another name differs in its fragment alone, which is the name.
proof fn lemma_named_fragment(uri: Seq<char>, name: Seq<char>)
    ensures
        codec::before_fragment(named_uri(uri, name)) == codec::before_fragment(uri),
        named_uri(uri, name).contains('#'),
        codec::after_fragment(named_uri(uri, name)) == codec::percent_encoded(
            encode_utf8(name),
            Place::Fragment,
        ),
{
    let named = named_uri(uri, name);
    let head = codec::before_fragment(uri);
    text::lemma_index_of(uri, '#');
    reveal_strlit("#");
    assert forall|j: int| 0 <= j < head.len() implies named[j] != '#' by {
        assert(named[j] == uri[j]);
    }
    assert(named[head.len() as int] == '#');
    text::lemma_index_of_is(named, '#', head.len() as int);
    assert(codec::before_fragment(named) =~= head);
    assert(codec::after_fragment(named) =~= codec::percent_encoded(
        encode_utf8(name),
        Place::Fragment,
    ));
}

/// A link of a supported protocol stays one when it gets another name.
proof fn lemma_scheme_stays(uri: Seq<char>, name: Seq<char>)
    requires
        uri::is_supported(uri),
    ensures
        uri::is_supported(named_uri(uri, name)),
{
    reveal_strlit("vmess://");
    reveal_strlit("vless://");
    reveal_strlit("trojan://");
    reveal_strlit("ss://");
    reveal_strlit("ssr://");
    reveal_strlit("hysteria2://");
    reveal_strlit("tuic://");
    lemma_named_fragment(uri, name);
    if "vmess://"@.is_prefix_of(uri) {
        lemma_prefix_shared("vmess://"@, uri, named_uri(uri, name));
    } else if "vless://"@.is_prefix_of(uri) {
        lemma_prefix_shared("vless://"@, uri, named_uri(uri, name));
    } else if "trojan://"@.is_prefix_of(uri) {
        lemma_prefix_shared("trojan://"@, uri, named_uri(uri, name));
    } else if "ss://"@.is_prefix_of(uri) {
        lemma_prefix_shared("ss://"@, uri, named_uri(uri, name));
    } else if "ssr://"@.is_prefix_of(uri) {
        lemma_prefix_shared("ssr://"@, uri, named_uri(uri, name));
    } else if "hysteria2://"@.is_prefix_of(uri) {
        lemma_prefix_shared("hysteria2://"@, uri, named_uri(uri, name));
    } else {
        lemma_prefix_shared("tuic://"@, uri, named_uri(uri, name));
    }
}

/// Whether nodes have links of supported protocols without line breaks, which
/// describe the nodes in `found` under the display names.
pub open spec fn links_describe(nodes: Seq<NodeView>, found: Seq<NodeView>) -> bool {
    &&& nodes.len() == found.len()
    &&& forall|i: int|
        0 <= i < nodes.len() ==> uri::is_supported((#[trigger] nodes[i]).original_uri)
            && !nodes[i].original_uri.contains('\n') && uri::uri_node(
            named_uri(nodes[i].original_uri, nodes[i].display_name),
        ) == Ok::<NodeView, Seq<char>>(found[i])
}

/// A published link has no white space at its ends.
proof fn lemma_published_is_trimmed(uri: Seq<char>, name: Seq<char>)
    requires
        uri::is_supported(uri),
    ensures
        text::trimmed(named_uri(uri, name)) == named_uri(uri, name),
{
    uri::lemma_supported(uri);
    text::lemma_index_of(uri, '#');
    lemma_named_is_trimmed(uri, name);
}

/// The published links of nodes are read one by one.
proof fn lemma_published_nodes(nodes: Seq<NodeView>, found: Seq<NodeView>)
    requires
        links_describe(nodes, found),
    ensures
        parser::line_nodes(published_links(nodes)) == found,
    decreases nodes.len(),
{
    let links = published_links(nodes);
    if nodes.len() > 0 {
        let last = nodes.len() - 1;
        let uri = nodes[last].original_uri;
        let name = nodes[last].display_name;
        assert(uri::is_supported(nodes[last].original_uri));
        assert forall|i: int| 0 <= i < nodes.drop_last().len() implies uri::is_supported(
            (#[trigger] nodes.drop_last()[i]).original_uri,
        ) && !nodes.drop_last()[i].original_uri.contains('\n') && uri::uri_node(
            named_uri(nodes.drop_last()[i].original_uri, nodes.drop_last()[i].display_name),
        ) == Ok::<NodeView, Seq<char>>(found.drop_last()[i]) by {
            assert(nodes.drop_last()[i] == nodes[i]);
        }
        lemma_published_nodes(nodes.drop_last(), found.drop_last());
        assert(links.drop_last() =~= published_links(nodes.drop_last()));
        lemma_published_is_trimmed(uri, name);
        assert(links.last() == named_uri(uri, name));
        assert(found =~= found.drop_last().push(found[last]));
    } else {
        assert(parser::line_nodes(links) =~= found);
    }
}

/// The list of no nodes is empty, and nothing is read from it.
proof fn lemma_nothing_published(nodes: Seq<NodeView>)
    requires
        nodes.len() == 0,
    ensures
        parser::uri_list(published_list(nodes)) == Ok::<Seq<NodeView>, Seq<char>>(Seq::empty()),
{
    let list = published_list(nodes);
    let lines = text::pieces(list, '\n');
    assert(list =~= Seq::empty());
    text::lemma_index_of(list, '\n');
    assert(lines =~= seq![list]);
    assert(text::trimmed(list) =~= Seq::empty());
    assert(text::trimmed(lines.last()).len() == 0);
    parser::lemma_blank_line(text::trimmed(lines.last()));
    assert(parser::line_nodes(lines.drop_last()) =~= Seq::empty());
    assert(parser::line_nodes(lines) =~= Seq::empty());
}

/// What is published is read back: one node for each, in their order, as its
/// link describes it under its display name.
pub proof fn law_published_list(nodes: Seq<NodeView>, found: Seq<NodeView>)
    requires
        links_describe(nodes, found),
    ensures
        parser::uri_list(published_list(nodes)) == Ok::<Seq<NodeView>, Seq<char>>(found),
{
    if nodes.len() == 0 {
        lemma_nothing_published(nodes);
        assert(found =~= Seq::empty());
    } else {
        assert forall|i: int| 0 <= i < nodes.len() implies !(
        #[trigger] nodes[i]).original_uri.contains('\n') by {}
        law_published_lines(nodes);
        lemma_published_nodes(nodes, found);
    }
}

/// Whether nodes have Shadowsocks links without line breaks, which describe
/// the nodes in `found`.
pub open spec fn are_shadowsocks_links(nodes: Seq<NodeView>, found: Seq<NodeView>) -> bool {
    &&& nodes.len() == found.len()
    &&& forall|i: int|
        0 <= i < nodes.len() ==> "ss://"@.is_prefix_of((#[trigger] nodes[i]).original_uri)
            && !nodes[i].original_uri.contains('\n') && uri::uri_node(nodes[i].original_uri)
            == Ok::<NodeView, Seq<char>>(found[i])
}

/// What is read from the published links of nodes: what is read from their own
/// links, under the display names.
pub open spec fn read_back(nodes: Seq<NodeView>, found: Seq<NodeView>) -> Seq<NodeView> {
    Seq::new(
        nodes.len(),
        |i: int| read_under_name(found[i], nodes[i].original_uri, nodes[i].display_name),
    )
}

/// What is published of nodes with Shadowsocks links is read back: one node for
/// each, in their order, the same but under its display name.
pub proof fn law_published_shadowsocks_list(nodes: Seq<NodeView>, found: Seq<NodeView>)
    requires
        are_shadowsocks_links(nodes, found),
    ensures
        parser::uri_list(published_list(nodes)) == Ok::<Seq<NodeView>, Seq<char>>(
            read_back(nodes, found),
        ),
{
    let read = read_back(nodes, found);
    assert forall|i: int| 0 <= i < nodes.len() implies uri::is_supported(
        (#[trigger] nodes[i]).original_uri,
    ) && !nodes[i].original_uri.contains('\n') && uri::uri_node(
        named_uri(nodes[i].original_uri, nodes[i].display_name),
    ) == Ok::<NodeView, Seq<char>>(read[i]) by {
        law_renamed_shadowsocks_link(nodes[i].original_uri, found[i], nodes[i].display_name);
    }
    law_published_list(nodes, read);
}

/// Whether the link of a node that is a plain URL stays one under its display
/// name: the name is not empty, and the link has a fragment, or it ends with a
/// character that is not taken off the end of a URL and has room for a fragment.
pub open spec fn can_be_renamed(uri: Seq<char>, name: Seq<char>) -> bool {
    &&& name.len() > 0
    &&& uri.contains('#') || uri.last() > ' '
    &&& codec::url_parts(uri) matches Some(parts) ==> codec::has_room_for_fragment(uri, parts)
}

/// Every link that has a fragment has room for one, and so has every link of up
/// to 357,913,941 characters, of whatever kind they are.
pub proof fn law_room_for_fragment(uri: Seq<char>)
    requires
        codec::is_url_link(uri),
        uri.contains('#') || (12 * uri.len() <= u32::MAX && uri::known_link(uri)),
    ensures
        codec::url_parts(uri) matches Some(parts) ==> codec::has_room_for_fragment(uri, parts),
{
    text::lemma_index_of(uri, '#');
}

/// A link that is a plain URL describes the same node under another name.
pub proof fn law_renamed_url_link(uri: Seq<char>, node: NodeView, name: Seq<char>)
    requires
        codec::is_url_link(uri),
        uri::uri_node(uri) == Ok::<NodeView, Seq<char>>(node),
        can_be_renamed(uri, name),
        uri::known_link(named_uri(uri, name)),
    ensures
        uri::uri_node(named_uri(uri, name)) == Ok::<NodeView, Seq<char>>(
            read_under_name(node, uri, name),
        ),
{
    let named = named_uri(uri, name);
    reveal_strlit("vmess://");
    reveal_strlit("vless://");
    reveal_strlit("trojan://");
    reveal_strlit("hysteria2://");
    reveal_strlit("tuic://");
    lemma_named_fragment(uri, name);
    lemma_same_scheme("vmess://"@, uri, named);
    lemma_same_scheme("vless://"@, uri, named);
    lemma_same_scheme("trojan://"@, uri, named);
    lemma_same_scheme("hysteria2://"@, uri, named);
    lemma_same_scheme("tuic://"@, uri, named);
    if "vmess://"@.is_prefix_of(uri) {
        uri::lemma_vmess_is_no_url(uri);
    }
    roundtrip::law_fragment_is_visible(name);
    roundtrip::law_percent_round_trip(name, Place::Fragment);
    uri::lemma_supported(uri);
    assert(codec::same_but_fragment(uri, named));
    let parts = codec::url_parts(uri)->0;
    assert(codec::url_parts(named) == Some(
        codec::with_fragment(parts, codec::after_fragment(named)),
    ));
}

/// Links that differ in their fragments alone have the same schemes.
proof fn lemma_same_scheme(prefix: Seq<char>, a: Seq<char>, b: Seq<char>)
    requires
        codec::before_fragment(a) == codec::before_fragment(b),
        !prefix.contains('#'),
    ensures
        prefix.is_prefix_of(a) <==> prefix.is_prefix_of(b),
{
    if prefix.is_prefix_of(a) {
        lemma_prefix_shared(prefix, a, b);
    }
    if prefix.is_prefix_of(b) {
        lemma_prefix_shared(prefix, b, a);
    }
}

/// Whether nodes have links without line breaks, of Shadowsocks or plain URLs
/// that can be renamed, which describe the nodes in `found`.
pub open spec fn are_renamable_links(nodes: Seq<NodeView>, found: Seq<NodeView>) -> bool {
    &&& nodes.len() == found.len()
    &&& forall|i: int|
        0 <= i < nodes.len() ==> ("ss://"@.is_prefix_of((#[trigger] nodes[i]).original_uri) || (
        codec::is_url_link(nodes[i].original_uri) && can_be_renamed(
            nodes[i].original_uri,
            nodes[i].display_name,
        ))) && !nodes[i].original_uri.contains('\n') && uri::uri_node(nodes[i].original_uri)
            == Ok::<NodeView, Seq<char>>(found[i])
}

/// Some line of the list that is published of nodes with supported links starts
/// as a link does.
pub proof fn law_published_has_link(nodes: Seq<NodeView>)
    requires
        nodes.len() > 0,
        forall|i: int|
            0 <= i < nodes.len() ==> uri::is_supported((#[trigger] nodes[i]).original_uri)
                && !nodes[i].original_uri.contains('\n'),
    ensures
        parser::has_link(published_list(nodes)),
{
    assert forall|i: int| 0 <= i < nodes.len() implies !(
    #[trigger] nodes[i]).original_uri.contains('\n') by {}
    law_published_lines(nodes);
    let uri = nodes[0].original_uri;
    let name = nodes[0].display_name;
    assert(uri::is_supported(nodes[0].original_uri));
    lemma_scheme_stays(uri, name);
    lemma_published_is_trimmed(uri, name);
    let lines = text::pieces(published_list(nodes), '\n');
    assert(lines[0] == named_uri(uri, name));
    assert(uri::is_supported(text::trimmed(lines[0])));
}

/// What is published of nodes with vless, trojan, hysteria2, tuic or Shadowsocks
/// links is read back: one node for each, in their order, the same but under its
/// display name. `parse_subscription` of what `encode_subscription` gives makes
/// known what this needs to know of the links.
pub proof fn law_published_is_read_back(nodes: Seq<NodeView>, found: Seq<NodeView>)
    requires
        are_renamable_links(nodes, found),
        parser::links_known(published_list(nodes)),
    ensures
        parser::uri_list(published_list(nodes)) == Ok::<Seq<NodeView>, Seq<char>>(
            read_back(nodes, found),
        ),
{
    let read = read_back(nodes, found);
    let lines = text::pieces(published_list(nodes), '\n');
    assert forall|i: int| 0 <= i < nodes.len() implies !(
    #[trigger] nodes[i]).original_uri.contains('\n') by {}
    if nodes.len() > 0 {
        law_published_lines(nodes);
    }
    assert forall|i: int| 0 <= i < nodes.len() implies uri::is_supported(
        (#[trigger] nodes[i]).original_uri,
    ) && !nodes[i].original_uri.contains('\n') && uri::uri_node(
        named_uri(nodes[i].original_uri, nodes[i].display_name),
    ) == Ok::<NodeView, Seq<char>>(read[i]) by {
        let uri = nodes[i].original_uri;
        let name = nodes[i].display_name;
        if "ss://"@.is_prefix_of(uri) {
            law_renamed_shadowsocks_link(uri, found[i], name);
        } else {
            let named = named_uri(uri, name);
            assert(lines[i] == named);
            lemma_published_is_trimmed(uri, name);
            assert(uri::known_link(text::trimmed(lines[i])));
            law_renamed_url_link(uri, found[i], name);
        }
    }
    law_published_list(nodes, read);
}

/// Nodes under other display names.
pub open spec fn under_names(nodes: Seq<NodeView>, names: Seq<Seq<char>>) -> Seq<NodeView> {
    Seq::new(nodes.len(), |i: int| NodeView { display_name: names[i], ..nodes[i] })
}

/// What is published of the nodes of a list of links is one again, whatever
/// their display names.
pub proof fn law_published_list_has_link(
    content: Seq<char>,
    nodes: Seq<NodeView>,
    names: Seq<Seq<char>>,
)
    requires
        parser::uri_list(content) == Ok::<Seq<NodeView>, Seq<char>>(nodes),
        nodes.len() > 0,
    ensures
        parser::has_link(published_list(under_names(nodes, names))),
{
    let named = under_names(nodes, names);
    assert forall|i: int| 0 <= i < named.len() implies uri::is_supported(
        (#[trigger] named[i]).original_uri,
    ) && !named[i].original_uri.contains('\n') by {
        parser::law_list_nodes_keep_links(content, nodes, i);
        uri::law_node_keeps_link(nodes[i].original_uri, nodes[i]);
    }
    law_published_has_link(named);
}

/// Whether a node can be published under a name: it is one of Shadowsocks, or
/// its link is a plain URL that can be renamed.
pub open spec fn can_be_published(node: NodeView, name: Seq<char>) -> bool {
    ||| node.protocol is Shadowsocks
    ||| link::is_url_protocol(node.protocol) && can_be_renamed(node.original_uri, name)
}

/// The nodes of a list of links, given display names and published, are read
/// back: as many, in their order, each with its protocol, server and parameters,
/// under its display name. `parse_subscription` of what `encode_subscription`
/// gives makes known what this needs to know of the links.
pub proof fn law_list_is_published_and_read_back(
    content: Seq<char>,
    nodes: Seq<NodeView>,
    names: Seq<Seq<char>>,
)
    requires
        parser::uri_list(content) == Ok::<Seq<NodeView>, Seq<char>>(nodes),
        names.len() == nodes.len(),
        forall|i: int|
            0 <= i < nodes.len() ==> can_be_published(#[trigger] nodes[i], names[i]),
        parser::links_known(published_list(under_names(nodes, names))),
    ensures
        parser::uri_list(published_list(under_names(nodes, names))) matches Ok(found)
            && found.len() == nodes.len() && forall|i: int|
            0 <= i < nodes.len() ==> (#[trigger] found[i]).raw_name == names[i]
                && found[i].protocol == nodes[i].protocol && found[i].host == nodes[i].host
                && found[i].port == nodes[i].port && found[i].params == nodes[i].params,
{
    let named = under_names(nodes, names);
    assert forall|i: int| 0 <= i < named.len() implies uri::is_supported(
        (#[trigger] named[i]).original_uri,
    ) && !named[i].original_uri.contains('\n') && uri::uri_node(named[i].original_uri) == Ok::<
        NodeView,
        Seq<char>,
    >(nodes[i]) && ("ss://"@.is_prefix_of(named[i].original_uri) || (codec::is_url_link(
        named[i].original_uri,
    ) && can_be_renamed(named[i].original_uri, named[i].display_name))) by {
        parser::law_list_nodes_keep_links(content, nodes, i);
        uri::law_node_keeps_link(nodes[i].original_uri, nodes[i]);
        assert(can_be_published(nodes[i], names[i]));
    }
    assert(are_renamable_links(named, nodes));
    law_published_is_read_back(named, nodes);
}

} // verus!
