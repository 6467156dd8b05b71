//! Subscriptions: what a provider serves, read into nodes.

use vstd::prelude::*;
use vstd::string::*;
use vstd::utf8::*;

use crate::codec;
use crate::codec::Base64Form;
use crate::failure::Failure;
use crate::items;
use crate::json;
use crate::json::{Json, JsonValue};
use crate::node::{Node, NodeView};
use crate::roundtrip;
use crate::singbox;
use crate::text;
use crate::uri;

verus! {

// ---------------------------------------------------------------------------
// Lists of links
// ---------------------------------------------------------------------------

/// Whether some line holds more than white space.
pub open spec fn has_content(lines: Seq<Seq<char>>) -> bool {
    exists|i: int| 0 <= i < lines.len() && text::trimmed(#[trigger] lines[i]).len() > 0
}

/// The nodes that the links on the lines describe, in their order.
pub open spec fn line_nodes(lines: Seq<Seq<char>>) -> Seq<NodeView>
    decreases lines.len(),
{
    if lines.len() == 0 {
        Seq::empty()
    } else {
        let earlier = line_nodes(lines.drop_last());
        match uri::uri_node(text::trimmed(lines.last())) {
            Ok(node) => earlier.push(node),
            Err(_) => earlier,
        }
    }
}

/// The nodes of a list of links, one on a line. White space around a link and
/// blank lines count for nothing. A line that is no link of a node is left
/// out, unless that leaves nothing.
pub open spec fn uri_list(content: Seq<char>) -> Result<Seq<NodeView>, Seq<char>> {
    let lines = text::pieces(content, '\n');
    if line_nodes(lines).len() == 0 && has_content(lines) {
        Err("no valid nodes found in URI list"@)
    } else {
        Ok(line_nodes(lines))
    }
}

/// A blank line holds no link.
pub proof fn lemma_blank_line(line: Seq<char>)
    requires
        line.len() == 0,
    ensures
        uri::uri_node(line) is Err,
        uri::known_link(line),
{
    reveal_strlit("vmess://");
    reveal_strlit("vless://");
    reveal_strlit("trojan://");
    reveal_strlit("ss://");
    reveal_strlit("ssr://");
    reveal_strlit("hysteria2://");
    reveal_strlit("tuic://");
}

/// A node that is read from lines is described by one of them.
proof fn lemma_node_line(lines: Seq<Seq<char>>, i: int) -> (k: int)
    requires
        0 <= i < line_nodes(lines).len(),
    ensures
        0 <= k < lines.len(),
        uri::uri_node(text::trimmed(lines[k])) == Ok::<NodeView, Seq<char>>(line_nodes(lines)[i]),
    decreases lines.len(),
{
    let earlier = line_nodes(lines.drop_last());
    if i < earlier.len() {
        let k = lemma_node_line(lines.drop_last(), i);
        assert(line_nodes(lines)[i] == earlier[i]);
        k
    } else {
        lines.len() - 1
    }
}

/// Every node of a list keeps its link, which describes it and holds no line
/// break.
pub proof fn law_list_nodes_keep_links(content: Seq<char>, nodes: Seq<NodeView>, i: int)
    requires
        uri_list(content) == Ok::<Seq<NodeView>, Seq<char>>(nodes),
        0 <= i < nodes.len(),
    ensures
        uri::uri_node(nodes[i].original_uri) == Ok::<NodeView, Seq<char>>(nodes[i]),
        !nodes[i].original_uri.contains('\n'),
{
    let lines = text::pieces(content, '\n');
    let k = lemma_node_line(lines, i);
    let link = text::trimmed(lines[k]);
    uri::law_node_keeps_link(link, nodes[i]);
    text::lemma_piece_without(content, '\n', k);
    let j = text::lemma_trim_place(lines[k]);
    assert forall|n: int| 0 <= n < link.len() implies link[n] != '\n' by {
        assert(lines[k].subrange(j, j + link.len())[n] == lines[k][j + n]);
    }
}

/// Whether what is known of URLs is known of the links in a list.
pub open spec fn links_known(content: Seq<char>) -> bool {
    forall|i: int|
        0 <= i < text::pieces(content, '\n').len() ==> uri::known_link(
            text::trimmed(#[trigger] text::pieces(content, '\n')[i]),
        )
}

/// The nodes of a list of links. Reading it makes known what is known of URLs.
pub fn parse_uri_list(content: &str) -> (result: Result<Vec<Node>, Failure>)
    ensures
        singbox::nodes_view(result) == uri_list(content@),
        links_known(content@),
{
    let lines = text::split(content, '\n');
    let ghost all = text::pieces(content@, '\n');
    assert(all == items::views(lines@));
    let mut nodes: Vec<Node> = Vec::new();
    let mut invalid = false;
    let mut i: usize = 0;
    assert(items::views(nodes@) =~= line_nodes(all.take(0)));
    while i < lines.len()
        invariant
            i <= lines@.len(),
            all == items::views(lines@),
            items::views(nodes@) == line_nodes(all.take(i as int)),
            invalid ==> has_content(all),
            nodes@.len() == 0 && !invalid ==> !has_content(all.take(i as int)),
            forall|j: int| 0 <= j < i ==> uri::known_link(text::trimmed(#[trigger] all[j])),
        decreases lines@.len() - i,
    {
        let ghost seen = all.take(i + 1);
        let ghost before = nodes@;
        assert(seen.drop_last() =~= all.take(i as int));
        assert(seen.last() == lines@[i as int]@);
        assert(all[i as int] == lines@[i as int]@);
        let candidate = text::trim(lines[i].as_str());
        if candidate.as_str().is_empty() {
            proof {
                lemma_blank_line(candidate@);
                if has_content(seen) && !has_content(all.take(i as int)) {
                    let j = choose|j: int|
                        0 <= j < seen.len() && text::trimmed(#[trigger] seen[j]).len() > 0;
                    assert(all.take(i as int)[j] == seen[j]);
                }
            }
        } else if !uri::has_supported_prefix(candidate.as_str()) {
            invalid = true;
            assert(uri::known_link(candidate@));
        } else {
            match uri::parse_uri_node(candidate.as_str()) {
                Ok(node) => {
                    nodes.push(node);
                    assert(items::views(nodes@) =~= items::views(before).push(node@));
                },
                Err(_) => {
                    invalid = true;
                },
            }
        }
        i = i + 1;
    }
    assert(all.take(i as int) =~= all);
    assert(items::views(nodes@).len() == nodes@.len());
    if nodes.len() == 0 && invalid {
        return Err(Failure::of("no valid nodes found in URI list"));
    }
    Ok(nodes)
}

/// Whether some line of a text starts as a link does.
pub open spec fn has_link(content: Seq<char>) -> bool {
    exists|i: int|
        0 <= i < text::pieces(content, '\n').len() && uri::is_supported(
            text::trimmed(#[trigger] text::pieces(content, '\n')[i]),
        )
}

/// Whether some line of a text starts as a link does.
fn find_link(content: &str) -> (found: bool)
    ensures
        found == has_link(content@),
{
    let lines = text::split(content, '\n');
    let ghost all = text::pieces(content@, '\n');
    assert(all == items::views(lines@));
    let mut i: usize = 0;
    while i < lines.len()
        invariant
            i <= lines@.len(),
            all == text::pieces(content@, '\n'),
            all == items::views(lines@),
            forall|j: int| 0 <= j < i ==> !uri::is_supported(text::trimmed(#[trigger] all[j])),
        decreases lines@.len() - i,
    {
        assert(all[i as int] == lines@[i as int]@);
        let candidate = text::trim(lines[i].as_str());
        if uri::has_supported_prefix(candidate.as_str()) {
            return true;
        }
        i = i + 1;
    }
    false
}

/// The list of links that decoded bytes hold: none where they are text in
/// which no line starts as a link does, a message where they are not text.
pub open spec fn list_in_bytes(bytes: Seq<u8>) -> Result<Option<Seq<char>>, Seq<char>> {
    match codec::strict_text(bytes) {
        None => Err("decoded base64 payload is not valid UTF-8"@),
        Some(content) => if has_link(content) {
            Ok(Some(content))
        } else {
            Ok(None)
        },
    }
}

/// The view of an optional text.
pub open spec fn list_view(result: Result<Option<String>, Failure>) -> Result<
    Option<Seq<char>>,
    Seq<char>,
> {
    match result {
        Ok(content) => Ok(text::text_view(content)),
        Err(failure) => Err(failure@),
    }
}

/// The list of links that decoded bytes hold.
pub fn read_decoded_list(bytes: Vec<u8>) -> (result: Result<Option<String>, Failure>)
    ensures
        list_view(result) == list_in_bytes(bytes@),
{
    match codec::utf8_text(bytes) {
        None => Err(Failure::of("decoded base64 payload is not valid UTF-8")),
        Some(content) => {
            if find_link(content.as_str()) {
                Ok(Some(content))
            } else {
                Ok(None)
            }
        },
    }
}

/// The list of links that a text holds in base64, white space left out.
pub open spec fn base64_list(value: Seq<char>) -> Result<Option<Seq<char>>, Seq<char>> {
    match codec::base64_decoded(text::without_spaces(value)) {
        Some(bytes) => list_in_bytes(bytes),
        None => Ok(None),
    }
}

/// Whether a text is a base64 form of another, with either alphabet, padded or
/// not, and with white space anywhere in it.
pub open spec fn is_form_of(value: Seq<char>, list: Seq<char>) -> bool {
    exists|form: Base64Form|
        text::without_spaces(value) == #[trigger] codec::base64_encoded(form, encode_utf8(list))
}

/// The list of links that a text holds in base64: that of which it is a form,
/// white space left out, if this is a list of links; none where the text has
/// characters that are not of base64.
pub fn decode_possible_base64_list(value: &str) -> (result: Result<Option<String>, Failure>)
    ensures
        list_view(result) == base64_list(value@),
        !codec::is_base64_text(text::without_spaces(value@)) ==> base64_list(value@) == Ok::<
            Option<Seq<char>>,
            Seq<char>,
        >(None),
        forall|list: Seq<char>| #[trigger]
            is_form_of(value@, list) && has_link(list) ==> base64_list(value@) == Ok::<
                Option<Seq<char>>,
                Seq<char>,
            >(Some(list)),
{
    let normalized = text::remove_spaces(value);
    proof {
        if codec::base64_decoded(normalized@) is Some {
            roundtrip::law_base64_is_base64_text(normalized@);
        }
        assert forall|list: Seq<char>| #[trigger]
            is_form_of(value@, list) && has_link(list) implies base64_list(value@) == Ok::<
            Option<Seq<char>>,
            Seq<char>,
        >(Some(list)) by {
            codec::law_utf8_round_trip(list);
            roundtrip::lemma_base64_held(normalized@);
        }
    }
    match codec::decode_base64_flexible(normalized.as_str()) {
        Some(bytes) => read_decoded_list(bytes),
        None => Ok(None),
    }
}

// ---------------------------------------------------------------------------
// Subscriptions
// ---------------------------------------------------------------------------

/// The nodes of a subscription that is a JSON document: sing-box outbounds or
/// SIP008 servers.
pub open spec fn json_subscription(value: JsonValue) -> Result<Seq<NodeView>, Seq<char>> {
    match json::array_of(json::member(value, "outbounds"@)) {
        Some(outbounds) => singbox::sing_box_subscription(outbounds),
        None => match json::array_of(json::member(value, "servers"@)) {
            Some(servers) => singbox::sip008_subscription(servers),
            None => Err("unsupported JSON subscription format"@),
        },
    }
}

/// The nodes of a subscription that is a JSON document.
pub fn parse_json_subscription(value: &Json) -> (result: Result<Vec<Node>, Failure>)
    ensures
        singbox::nodes_view(result) == json_subscription(value@),
{
    match json::as_array(json::get(value, "outbounds")) {
        Some(outbounds) => {
            return singbox::parse_sing_box(outbounds);
        },
        None => {},
    }
    match json::as_array(json::get(value, "servers")) {
        Some(servers) => {
            return singbox::parse_sip008(servers);
        },
        None => {},
    }
    Err(Failure::of("unsupported JSON subscription format"))
}

/// The nodes of a subscription that is no JSON document: a list of links,
/// plain or in base64.
pub open spec fn text_subscription(content: Seq<char>) -> Result<Seq<NodeView>, Seq<char>> {
    match base64_list(content) {
        Err(message) => Err(message),
        Ok(Some(decoded)) => uri_list(decoded),
        Ok(None) => uri_list(content),
    }
}

/// The nodes of a subscription that is no JSON document. A list of links is
/// read as it is, and so are its base64 forms with white space anywhere in them.
pub fn parse_text_subscription(content: &str) -> (result: Result<Vec<Node>, Failure>)
    ensures
        singbox::nodes_view(result) == text_subscription(content@),
        has_link(content@) ==> text_subscription(content@) == uri_list(content@) && links_known(
            content@,
        ),
        forall|list: Seq<char>| #[trigger]
            is_form_of(content@, list) && has_link(list) ==> text_subscription(content@)
                == uri_list(list) && links_known(list),
{
    proof {
        if has_link(content@) {
            lemma_link_is_no_base64(content@);
        }
    }
    match decode_possible_base64_list(content) {
        Err(failure) => Err(failure),
        Ok(Some(decoded)) => parse_uri_list(decoded.as_str()),
        Ok(None) => parse_uri_list(content),
    }
}

/// The nodes of a subscription: a JSON document, or else a list of links,
/// plain or in base64. One that is blank has none.
pub open spec fn subscription(body: Seq<char>) -> Result<Seq<NodeView>, Seq<char>> {
    let content = text::trimmed(body);
    if content.len() == 0 {
        Ok(Seq::empty())
    } else {
        match json::document_of(content) {
            Some(value) => json_subscription(value),
            None => text_subscription(content),
        }
    }
}

/// The nodes of a subscription. A list of links is read as it is, and so are its
/// base64 forms with white space anywhere in them: none is taken for a JSON
/// document. Reading a list makes known what is known of URLs.
pub fn parse_subscription(body: &str) -> (result: Result<Vec<Node>, Failure>)
    ensures
        singbox::nodes_view(result) == subscription(body@),
        has_link(body@) ==> subscription(body@) == uri_list(body@) && links_known(body@),
        forall|list: Seq<char>| #[trigger]
            is_form_of(body@, list) && has_link(list) ==> subscription(body@) == uri_list(list)
                && links_known(list),
{
    let content = text::trim(body);
    proof {
        lemma_trimmed_list(body@);
        text::lemma_trimmed_without_spaces(body@);
        if has_link(body@) {
            lemma_list_is_no_document(content@);
        }
        assert forall|list: Seq<char>| #[trigger]
            is_form_of(body@, list) && has_link(list) implies content@.len() > 0
            && !json::opens_document(content@) && is_form_of(content@, list) by {
            lemma_form_is_no_document(body@, list);
        }
    }
    if content.as_str().is_empty() {
        let nodes: Vec<Node> = Vec::new();
        assert(items::views(nodes@) =~= Seq::empty());
        return Ok(nodes);
    }
    match json::parse_document(content.as_str()) {
        Some(value) => parse_json_subscription(&value),
        None => parse_text_subscription(content.as_str()),
    }
}

// ---------------------------------------------------------------------------
// What a list of links is not taken for
// ---------------------------------------------------------------------------

/// A link starts with no token of JSON, and holds `://`.
proof fn lemma_scheme(line: Seq<char>) -> (q: int)
    requires
        uri::is_supported(line),
    ensures
        0 <= q,
        q + 3 <= line.len(),
        line[q] == ':',
        line[q + 1] == '/',
        line[q + 2] == '/',
        line.len() >= 4,
        line[0] == 'v' || line[0] == 's' || line[0] == 'h' || (line[0] == 't' && (line[1] != 'r'
            || line[2] != 'u')),
{
    reveal_strlit("vmess://");
    reveal_strlit("vless://");
    reveal_strlit("trojan://");
    reveal_strlit("ss://");
    reveal_strlit("ssr://");
    reveal_strlit("hysteria2://");
    reveal_strlit("tuic://");
    let prefix = if "vmess://"@.is_prefix_of(line) {
        "vmess://"@
    } else if "vless://"@.is_prefix_of(line) {
        "vless://"@
    } else if "trojan://"@.is_prefix_of(line) {
        "trojan://"@
    } else if "ss://"@.is_prefix_of(line) {
        "ss://"@
    } else if "ssr://"@.is_prefix_of(line) {
        "ssr://"@
    } else if "hysteria2://"@.is_prefix_of(line) {
        "hysteria2://"@
    } else {
        "tuic://"@
    };
    assert forall|j: int| 0 <= j < prefix.len() implies line[j] == prefix[j] by {
        assert(line.subrange(0, prefix.len() as int)[j] == line[j]);
    }
    assert(line[0] == prefix[0] && line[1] == prefix[1] && line[2] == prefix[2]);
    let q = prefix.len() - 3;
    assert(line[q] == prefix[q] && line[q + 1] == prefix[q + 1] && line[q + 2] == prefix[q + 2]);
    q
}

/// Where the first link of a list stands: on a line, behind nothing but white
/// space.
proof fn lemma_link_place(content: Seq<char>) -> (place: (int, int))
    requires
        has_link(content),
    ensures
        0 <= place.0 <= place.1 <= content.len(),
        place.0 == 0 || content[place.0 - 1] == '\n',
        forall|i: int| place.0 <= i < place.1 ==> text::is_space(#[trigger] content[i]),
        uri::is_supported(content.skip(place.1)),
{
    let lines = text::pieces(content, '\n');
    let k = choose|k: int|
        0 <= k < lines.len() && uri::is_supported(text::trimmed(#[trigger] lines[k]));
    let i = text::lemma_piece_place(content, '\n', k);
    let line = lines[k];
    let j = text::lemma_trim_place(line);
    let link = text::trimmed(line);
    assert forall|n: int| i <= n < i + j implies text::is_space(#[trigger] content[n]) by {
        assert(content.subrange(i, i + line.len())[n - i] == content[n]);
        assert(text::is_space(line[n - i]));
    }
    let rest = content.skip(i + j);
    assert(rest.subrange(0, link.len() as int) =~= link) by {
        assert forall|n: int| 0 <= n < link.len() implies rest[n] == link[n] by {
            assert(line.subrange(j, j + link.len())[n] == line[j + n]);
            assert(content.subrange(i, i + line.len())[j + n] == content[i + j + n]);
        }
    }
    lemma_supported_longer(link, rest);
    (i, i + j)
}

/// What starts with a link starts as a link does.
proof fn lemma_supported_longer(link: Seq<char>, rest: Seq<char>)
    requires
        uri::is_supported(link),
        link.len() <= rest.len(),
        rest.subrange(0, link.len() as int) == link,
    ensures
        uri::is_supported(rest),
{
    lemma_prefix_longer("vmess://"@, link, rest);
    lemma_prefix_longer("vless://"@, link, rest);
    lemma_prefix_longer("trojan://"@, link, rest);
    lemma_prefix_longer("ss://"@, link, rest);
    lemma_prefix_longer("ssr://"@, link, rest);
    lemma_prefix_longer("hysteria2://"@, link, rest);
    lemma_prefix_longer("tuic://"@, link, rest);
}

/// A prefix of a prefix is a prefix.
proof fn lemma_prefix_longer(prefix: Seq<char>, link: Seq<char>, rest: Seq<char>)
    requires
        link.len() <= rest.len(),
        rest.subrange(0, link.len() as int) == link,
    ensures
        prefix.is_prefix_of(link) ==> prefix.is_prefix_of(rest),
{
    if prefix.is_prefix_of(link) {
        assert(rest.subrange(0, prefix.len() as int) =~= link.subrange(0, prefix.len() as int));
    }
}

/// A list of links holds `://`.
proof fn lemma_list_holds_scheme(content: Seq<char>) -> (i: int)
    requires
        has_link(content),
    ensures
        0 <= i,
        i + 3 <= content.len(),
        content[i] == ':',
        content[i + 1] == '/',
        content[i + 2] == '/',
{
    let (_, start) = lemma_link_place(content);
    let q = lemma_scheme(content.skip(start));
    start + q
}

/// A list of links is not made of the characters of base64.
proof fn lemma_link_is_no_base64(content: Seq<char>)
    requires
        has_link(content),
    ensures
        !codec::is_base64_text(text::without_spaces(content)),
{
    let i = lemma_list_holds_scheme(content);
    let left = text::without_spaces(content);
    text::lemma_not_space_stays(content, i);
    let k = choose|k: int| 0 <= k < left.len() && left[k] == ':';
    assert(!codec::is_base64_char(left[k]));
}

/// Where JSON leaves white space off, before a text that is no white space.
proof fn lemma_skip_json_spaces(text: Seq<char>, count: int)
    requires
        0 <= count < text.len(),
        forall|i: int| 0 <= i < count ==> text::is_space(#[trigger] text[i]),
        !text::is_space(text[count]),
    ensures
        ({
            let rest = json::skip_json_spaces(text);
            ||| rest == text.skip(count)
            ||| rest.len() > 0 && text::is_space(rest[0]) && !json::is_json_space(rest[0])
        }),
    decreases count,
{
    if count == 0 {
        assert(text.skip(0) =~= text);
    } else if json::is_json_space(text[0]) {
        let less = text.skip(1);
        assert forall|i: int| 0 <= i < count - 1 implies text::is_space(#[trigger] less[i]) by {
            assert(less[i] == text[i + 1]);
        }
        lemma_skip_json_spaces(less, count - 1);
        assert(less.skip(count - 1) =~= text.skip(count));
    } else {
        assert(text::is_space(text[0]));
    }
}

/// A list of links is no JSON document: a line of it starts with no token.
proof fn lemma_list_is_no_document(content: Seq<char>)
    requires
        has_link(content),
    ensures
        content.len() > 0,
        !json::lines_start_tokens(content),
{
    let (start, link) = lemma_link_place(content);
    let line = content.skip(start);
    let rest = content.skip(link);
    let q = lemma_scheme(rest);
    assert(line.skip(link - start) =~= rest);
    assert(line[link - start] == rest[0]);
    assert forall|i: int| 0 <= i < link - start implies text::is_space(#[trigger] line[i]) by {
        assert(line[i] == content[start + i]);
    }
    lemma_skip_json_spaces(line, link - start);
    let token = json::skip_json_spaces(line);
    reveal_strlit("true");
    reveal_strlit("false");
    reveal_strlit("null");
    text::lemma_prefix_start("true"@, token);
    text::lemma_prefix_start("false"@, token);
    text::lemma_prefix_start("null"@, token);
    if "true"@.is_prefix_of(token) {
        assert(token.subrange(0, 4)[1] == token[1] && token.subrange(0, 4)[2] == token[2]);
        assert("true"@[1] == 'r' && "true"@[2] == 'u');
    }
    assert(!json::starts_token(json::skip_json_spaces(content.skip(start))));
}

/// A base64 form of a list of links is no JSON document.
proof fn lemma_form_is_no_document(body: Seq<char>, list: Seq<char>)
    requires
        is_form_of(body, list),
        has_link(list),
    ensures
        text::trimmed(body).len() > 0,
        is_form_of(text::trimmed(body), list),
        !json::opens_document(text::trimmed(body)),
{
    let content = text::trimmed(body);
    let kind = choose|kind: Base64Form|
        text::without_spaces(body) == #[trigger] codec::base64_encoded(kind, encode_utf8(list));
    let form = codec::base64_encoded(kind, encode_utf8(list));
    text::lemma_trimmed_without_spaces(body);
    text::law_trim_idempotent(body);
    let i = lemma_list_holds_scheme(list);
    roundtrip::lemma_link_in_base64(kind, list, i);
    roundtrip::lemma_base64_chars(kind, encode_utf8(list));
    let letter = if form.contains('O') {
        'O'
    } else {
        'L'
    };
    text::lemma_left_is_inside(content, letter);
    let k = choose|k: int| 0 <= k < content.len() && content[k] == letter;
    assert(!json::is_scalar_char(content[k]));
    text::lemma_not_space_stays(content, 0);
    let n = choose|n: int| 0 <= n < form.len() && form[n] == content[0];
    assert(codec::is_base64_char(form[n]));
}

// ---------------------------------------------------------------------------
// White space around a list of links
// ---------------------------------------------------------------------------

/// The lines of a list that are not blank, without white space around them.
pub open spec fn full_lines(lines: Seq<Seq<char>>) -> Seq<Seq<char>>
    decreases lines.len(),
{
    if lines.len() == 0 {
        Seq::empty()
    } else {
        let earlier = full_lines(lines.drop_last());
        let line = text::trimmed(lines.last());
        if line.len() == 0 {
            earlier
        } else {
            earlier.push(line)
        }
    }
}

/// What is read from lines is read from those that are not blank.
proof fn lemma_full_lines(lines: Seq<Seq<char>>)
    ensures
        line_nodes(full_lines(lines)) == line_nodes(lines),
        has_content(lines) <==> full_lines(lines).len() > 0,
        forall|k: int|
            0 <= k < lines.len() && text::trimmed(#[trigger] lines[k]).len() > 0
                ==> full_lines(lines).contains(text::trimmed(lines[k])),
        forall|k: int|
            0 <= k < full_lines(lines).len() ==> exists|n: int|
                0 <= n < lines.len() && text::trimmed(#[trigger] lines[n])
                    == #[trigger] full_lines(lines)[k],
    decreases lines.len(),
{
    if lines.len() > 0 {
        let earlier = lines.drop_last();
        let full = full_lines(earlier);
        let line = text::trimmed(lines.last());
        lemma_full_lines(earlier);
        text::law_trim_idempotent(lines.last());
        if line.len() == 0 {
            lemma_blank_line(line);
        } else {
            assert(full.push(line).drop_last() =~= full);
            assert(text::trimmed(lines[lines.len() - 1]).len() > 0);
        }
        assert forall|k: int|
            0 <= k < lines.len() && text::trimmed(#[trigger] lines[k]).len() > 0 implies full_lines(
            lines,
        ).contains(text::trimmed(lines[k])) by {
            if k < earlier.len() {
                assert(earlier[k] == lines[k]);
                let n = choose|n: int| 0 <= n < full.len() && full[n] == text::trimmed(lines[k]);
                assert(full_lines(lines)[n] == full[n]);
            } else {
                assert(full_lines(lines)[full.len() as int] == line);
            }
        }
        assert forall|k: int| 0 <= k < full_lines(lines).len() implies exists|n: int|
            0 <= n < lines.len() && text::trimmed(#[trigger] lines[n]) == #[trigger] full_lines(
                lines,
            )[k] by {
            if k < full.len() {
                assert(full_lines(lines)[k] == full[k]);
                let n = choose|n: int|
                    0 <= n < earlier.len() && text::trimmed(#[trigger] earlier[n]) == full[k];
                assert(lines[n] == earlier[n]);
            } else {
                assert(text::trimmed(lines[lines.len() - 1]) == full_lines(lines)[k]);
            }
        }
        assert(has_content(lines) <==> full_lines(lines).len() > 0) by {
            if has_content(lines) {
                let k = choose|k: int|
                    0 <= k < lines.len() && text::trimmed(#[trigger] lines[k]).len() > 0;
                assert(full_lines(lines).contains(text::trimmed(lines[k])));
            }
            if full_lines(lines).len() > 0 {
                let n = choose|n: int|
                    0 <= n < lines.len() && text::trimmed(#[trigger] lines[n]) == full_lines(
                        lines,
                    )[0];
                lemma_full_is_full(lines, 0);
                assert(text::trimmed(lines[n]).len() > 0);
            }
        }
    }
}

/// No full line is blank.
proof fn lemma_full_is_full(lines: Seq<Seq<char>>, k: int)
    requires
        0 <= k < full_lines(lines).len(),
    ensures
        full_lines(lines)[k].len() > 0,
    decreases lines.len(),
{
    let full = full_lines(lines.drop_last());
    if k < full.len() {
        lemma_full_is_full(lines.drop_last(), k);
        assert(full_lines(lines)[k] == full[k]);
    }
}

/// The full lines of one more line before others.
proof fn lemma_full_first(first: Seq<char>, lines: Seq<Seq<char>>)
    ensures
        full_lines(seq![first] + lines) == full_lines(seq![first]) + full_lines(lines),
    decreases lines.len(),
{
    let all = seq![first] + lines;
    if lines.len() == 0 {
        assert(all =~= seq![first]);
        assert(full_lines(seq![first]) + full_lines(lines) =~= full_lines(seq![first]));
    } else {
        lemma_full_first(first, lines.drop_last());
        assert(all.drop_last() =~= seq![first] + lines.drop_last());
        assert(full_lines(all) =~= full_lines(seq![first]) + full_lines(lines));
    }
}

/// White space at the start of a list counts for nothing.
proof fn lemma_space_before(content: Seq<char>)
    requires
        content.len() > 0,
        text::is_space(content[0]),
    ensures
        full_lines(text::pieces(content, '\n')) == full_lines(
            text::pieces(content.skip(1), '\n'),
        ),
{
    let rest = content.skip(1);
    let lines = text::pieces(content, '\n');
    let less = text::pieces(rest, '\n');
    text::lemma_index_of(content, '\n');
    text::lemma_index_of(rest, '\n');
    let n = text::index_of(content, '\n');
    assert(full_lines(Seq::<Seq<char>>::empty()) == Seq::<Seq<char>>::empty());
    if content[0] == '\n' {
        let blank = content.take(0);
        assert(blank =~= Seq::empty());
        assert(lines =~= seq![blank] + less);
        lemma_full_first(blank, less);
        assert(seq![blank].drop_last() =~= Seq::empty());
        assert(full_lines(seq![blank]) =~= Seq::empty());
        assert(full_lines(lines) =~= full_lines(less));
    } else {
        let others = less.skip(1);
        text::lemma_index_of_is(rest, '\n', n - 1);
        text::lemma_trim_more(less[0], content[0]);
        if n < content.len() {
            assert(rest.skip(n) =~= content.skip(n + 1));
            assert(content.take(n) =~= seq![content[0]] + rest.take(n - 1));
        } else {
            assert(content =~= seq![content[0]] + rest);
        }
        assert(less =~= seq![less[0]] + others);
        assert(lines =~= seq![seq![content[0]] + less[0]] + others);
        lemma_full_first(less[0], others);
        lemma_full_first(seq![content[0]] + less[0], others);
        assert(seq![less[0]].drop_last() =~= Seq::empty());
        assert(seq![seq![content[0]] + less[0]].drop_last() =~= Seq::empty());
        assert(full_lines(seq![seq![content[0]] + less[0]]) =~= full_lines(seq![less[0]]));
    }
}

/// White space at the end of a list counts for nothing.
proof fn lemma_space_behind(content: Seq<char>)
    requires
        content.len() > 0,
        text::is_space(content.last()),
    ensures
        full_lines(text::pieces(content, '\n')) == full_lines(
            text::pieces(content.drop_last(), '\n'),
        ),
{
    let rest = content.drop_last();
    let less = text::pieces(rest, '\n');
    let lines = text::pieces(content, '\n');
    if content.last() == '\n' {
        let blank = Seq::<char>::empty();
        roundtrip::lemma_pieces_append(rest, blank, '\n');
        assert(content =~= rest + seq!['\n'] + blank);
        assert(lines.drop_last() =~= less);
        assert(text::trimmed(blank) =~= Seq::empty());
    } else {
        text::lemma_pieces_push(rest, '\n', content.last());
        assert(content =~= rest.push(content.last()));
        text::lemma_trim_more(less.last(), content.last());
        assert(lines.drop_last() =~= less.drop_last());
    }
}

/// White space at either end of a list counts for nothing.
proof fn lemma_full_trimmed(content: Seq<char>)
    ensures
        full_lines(text::pieces(text::trimmed(content), '\n')) == full_lines(
            text::pieces(content, '\n'),
        ),
    decreases content.len(),
{
    if content.len() > 0 && text::is_space(content[0]) {
        lemma_space_before(content);
        lemma_full_trimmed(content.skip(1));
    } else if content.len() > 0 && text::is_space(content.last()) {
        lemma_space_behind(content);
        lemma_full_trimmed(content.drop_last());
        text::lemma_trim_more(content.drop_last(), content.last());
        assert(content =~= content.drop_last().push(content.last()));
    }
}

/// What a list of links is counts without the white space around it.
proof fn lemma_trimmed_list(content: Seq<char>)
    ensures
        uri_list(text::trimmed(content)) == uri_list(content),
        has_link(text::trimmed(content)) == has_link(content),
        links_known(text::trimmed(content)) == links_known(content),
{
    let trimmed = text::trimmed(content);
    lemma_full_trimmed(content);
    lemma_full_lines(text::pieces(content, '\n'));
    lemma_full_lines(text::pieces(trimmed, '\n'));
    lemma_same_full_lines(content, trimmed);
    lemma_same_full_lines(trimmed, content);
}

/// Lists with the same full lines have links and what is known of them in
/// common.
proof fn lemma_same_full_lines(a: Seq<char>, b: Seq<char>)
    requires
        full_lines(text::pieces(a, '\n')) == full_lines(text::pieces(b, '\n')),
    ensures
        has_link(a) ==> has_link(b),
        links_known(a) ==> links_known(b),
{
    let from = text::pieces(a, '\n');
    let to = text::pieces(b, '\n');
    let full = full_lines(from);
    lemma_full_lines(from);
    lemma_full_lines(to);
    if has_link(a) {
        let k = choose|k: int|
            0 <= k < from.len() && uri::is_supported(text::trimmed(#[trigger] from[k]));
        uri::lemma_supported(text::trimmed(from[k]));
        let n = choose|n: int| 0 <= n < full.len() && full[n] == text::trimmed(from[k]);
        assert(full_lines(to)[n] == text::trimmed(from[k]));
        let m = choose|m: int| 0 <= m < to.len() && text::trimmed(#[trigger] to[m]) == full[n];
        assert(uri::is_supported(text::trimmed(to[m])));
    }
    if links_known(a) {
        assert forall|k: int| 0 <= k < to.len() implies uri::known_link(
            text::trimmed(#[trigger] to[k]),
        ) by {
            if text::trimmed(to[k]).len() == 0 {
                lemma_blank_line(text::trimmed(to[k]));
            } else {
                let n = choose|n: int| 0 <= n < full.len() && full[n] == text::trimmed(to[k]);
                assert(full_lines(from)[n] == text::trimmed(to[k]));
                let m = choose|m: int|
                    0 <= m < from.len() && text::trimmed(#[trigger] from[m]) == full[n];
                assert(uri::known_link(text::trimmed(from[m])));
            }
        }
    }
}

} // verus!
