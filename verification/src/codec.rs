//! The encodings that node links are written in: UTF-8, percent escapes, form
//! queries, base64, URLs and digests.

use vstd::prelude::*;
use vstd::string::*;
use vstd::utf8::*;

use crate::roundtrip;
use crate::text;

verus! {

// ---------------------------------------------------------------------------
// UTF-8
// ---------------------------------------------------------------------------

/// What `String::from_utf8_lossy` makes of bytes that are not UTF-8.
pub uninterp spec fn lossy_text(bytes: Seq<u8>) -> Seq<char>;

/// The text that `bytes` hold, read leniently: their UTF-8 text, or the lossy
/// text where they are not UTF-8.
pub open spec fn lenient_text(bytes: Seq<u8>) -> Seq<char> {
    if valid_utf8(bytes) {
        decode_utf8(bytes)
    } else {
        lossy_text(bytes)
    }
}

/// The text that `bytes` hold in UTF-8.
pub open spec fn strict_text(bytes: Seq<u8>) -> Option<Seq<char>> {
    if valid_utf8(bytes) {
        Some(decode_utf8(bytes))
    } else {
        None
    }
}

/// `String::from_utf8`: the text that `bytes` hold, where they are UTF-8.
#[verifier::external_body]
pub(crate) fn utf8_text(bytes: Vec<u8>) -> (result: Option<String>)
    ensures
        text::text_view(result) == strict_text(bytes@),
{
    String::from_utf8(bytes).ok()
}

/// `String::from_utf8_lossy`: the text that `bytes` hold, read leniently.
#[verifier::external_body]
pub(crate) fn lossy_utf8(bytes: &Vec<u8>) -> (result: String)
    ensures
        result@ == lenient_text(bytes@),
        !valid_utf8(bytes@) ==> result@ == lossy_text(bytes@),
{
    String::from_utf8_lossy(bytes).into_owned()
}

/// The UTF-8 bytes of a text hold the text.
pub proof fn law_utf8_round_trip(text: Seq<char>)
    ensures
        strict_text(encode_utf8(text)) == Some(text),
        lenient_text(encode_utf8(text)) == text,
{
    encode_utf8_valid_utf8(text);
    encode_utf8_decode_utf8(text);
}

// ---------------------------------------------------------------------------
// Percent escapes
// ---------------------------------------------------------------------------

/// The upper-case hexadecimal digit of `value`, which is less than sixteen.
pub open spec fn hex_digit(value: int) -> char {
    if value < 10 {
        ('0' as u32 + value) as char
    } else {
        ('A' as u32 + value - 10) as char
    }
}

/// A byte as a percent sign and two hexadecimal digits.
pub open spec fn escaped(byte: u8) -> Seq<char> {
    seq!['%', hex_digit(byte as int / 16), hex_digit(byte as int % 16)]
}

/// `percent_encoding::percent_encode_byte` writes a byte as its escape.
pub assume_specification[ percent_encoding::percent_encode_byte ](byte: u8) -> (escape: &'static str)
    ensures
        escape@ == escaped(byte),
;

/// The places in a link that a text is escaped for.
#[derive(Debug, Clone, Copy, PartialEq, Eq)]
pub enum Place {
    Userinfo,
    Fragment,
}

/// The bytes that stand for themselves: of user information letters and
/// digits, of a fragment all printable ASCII but seven characters.
pub open spec fn is_plain(byte: u8, place: Place) -> bool {
    match place {
        Place::Userinfo => {
            ||| 0x30 <= byte <= 0x39
            ||| 0x41 <= byte <= 0x5a
            ||| 0x61 <= byte <= 0x7a
        },
        Place::Fragment => {
            &&& 0x20 < byte < 0x7f
            &&& byte != 0x22
            &&& byte != 0x23
            &&& byte != 0x25
            &&& byte != 0x3c
            &&& byte != 0x3e
            &&& byte != 0x60
        },
    }
}

fn is_plain_byte(byte: u8, place: Place) -> (plain: bool)
    ensures
        plain == is_plain(byte, place),
{
    match place {
        Place::Userinfo => (0x30 <= byte && byte <= 0x39) || (0x41 <= byte && byte <= 0x5a) || (0x61
            <= byte && byte <= 0x7a),
        Place::Fragment => 0x20 < byte && byte < 0x7f && byte != 0x22 && byte != 0x23 && byte != 0x25
            && byte != 0x3c && byte != 0x3e && byte != 0x60,
    }
}

/// `bytes` with every byte escaped that is not plain at `place`.
pub open spec fn percent_encoded(bytes: Seq<u8>, place: Place) -> Seq<char>
    decreases bytes.len(),
{
    if bytes.len() == 0 {
        Seq::empty()
    } else {
        let last = bytes.last();
        percent_encoded(bytes.drop_last(), place) + if is_plain(last, place) {
            seq![last as char]
        } else {
            escaped(last)
        }
    }
}

/// The UTF-8 bytes of `text`, escaped for `place`.
pub fn percent_encode(text: &str, place: Place) -> (result: String)
    ensures
        result@ == percent_encoded(encode_utf8(text@), place),
{
    let bytes = text.as_bytes();
    let mut result = String::new();
    let mut i: usize = 0;
    assert(bytes@.take(0) =~= Seq::empty());
    while i < bytes.len()
        invariant
            i <= bytes@.len(),
            result@ == percent_encoded(bytes@.take(i as int), place),
        decreases bytes@.len() - i,
    {
        let ghost done = bytes@.take(i + 1);
        assert(done.drop_last() =~= bytes@.take(i as int));
        let ghost before = result@;
        if is_plain_byte(bytes[i], place) {
            result.push(bytes[i] as char);
            assert(result@ =~= before + seq![bytes@[i as int] as char]);
        } else {
            result.append(percent_encoding::percent_encode_byte(bytes[i]));
        }
        i = i + 1;
    }
    assert(bytes@.take(i as int) =~= bytes@);
    result
}

/// The value of a hexadecimal digit.
pub open spec fn hex_value(byte: u8) -> Option<int> {
    if 0x30 <= byte <= 0x39 {
        Some(byte - 0x30)
    } else if 0x41 <= byte <= 0x46 {
        Some(byte - 0x41 + 10)
    } else if 0x61 <= byte <= 0x66 {
        Some(byte - 0x61 + 10)
    } else {
        None
    }
}

/// Whether `bytes` start with a percent sign and two hexadecimal digits.
pub open spec fn starts_with_escape(bytes: Seq<u8>) -> bool {
    &&& bytes.len() >= 3
    &&& bytes[0] == 0x25
    &&& hex_value(bytes[1]) is Some
    &&& hex_value(bytes[2]) is Some
}

/// `bytes` with every percent escape replaced by the byte it writes.
pub open spec fn percent_decoded(bytes: Seq<u8>) -> Seq<u8>
    decreases bytes.len(),
{
    if bytes.len() == 0 {
        Seq::empty()
    } else if starts_with_escape(bytes) {
        seq![(hex_value(bytes[1])->0 * 16 + hex_value(bytes[2])->0) as u8] + percent_decoded(
            bytes.skip(3),
        )
    } else {
        seq![bytes[0]] + percent_decoded(bytes.skip(1))
    }
}

/// The text that `text` writes with percent escapes.
pub open spec fn unescaped(text: Seq<char>) -> Seq<char> {
    lenient_text(percent_decoded(encode_utf8(text)))
}

/// `percent_encoding::percent_decode_str` and `decode_utf8_lossy`: escapes are
/// replaced by their bytes, and the bytes read as text, leniently.
#[verifier::external_body]
pub(crate) fn percent_decode(text: &str) -> (result: String)
    ensures
        result@ == unescaped(text@),
        !valid_utf8(percent_decoded(encode_utf8(text@))) ==> result@ == lossy_text(
            percent_decoded(encode_utf8(text@)),
        ),
{
    percent_encoding::percent_decode_str(text).decode_utf8_lossy().to_string()
}

// ---------------------------------------------------------------------------
// Form queries
// ---------------------------------------------------------------------------

/// A byte as a form query writes it.
pub open spec fn form_escaped(byte: u8) -> Seq<char> {
    if byte == 0x20 {
        seq!['+']
    } else if byte == 0x2a || byte == 0x2d || byte == 0x2e || byte == 0x5f || is_plain(
        byte,
        Place::Userinfo,
    ) {
        seq![byte as char]
    } else {
        escaped(byte)
    }
}

/// Bytes as a form query writes them.
pub open spec fn form_encoded(bytes: Seq<u8>) -> Seq<char>
    decreases bytes.len(),
{
    if bytes.len() == 0 {
        Seq::empty()
    } else {
        form_encoded(bytes.drop_last()) + form_escaped(bytes.last())
    }
}

/// A name and a value as a form query writes them.
pub open spec fn form_pair(pair: (Seq<char>, Seq<char>)) -> Seq<char> {
    form_encoded(encode_utf8(pair.0)) + seq!['='] + form_encoded(encode_utf8(pair.1))
}

/// The form query that holds `pairs`.
pub open spec fn form_query(pairs: Seq<(Seq<char>, Seq<char>)>) -> Seq<char> {
    text::joined(pairs.map_values(|pair: (Seq<char>, Seq<char>)| form_pair(pair)), seq!['&'])
}

/// The views of a list of pairs of texts.
pub open spec fn pair_views(pairs: Seq<(String, String)>) -> Seq<(Seq<char>, Seq<char>)> {
    pairs.map_values(|pair: (String, String)| (pair.0@, pair.1@))
}

/// `form_urlencoded::Serializer` over an empty string, `extend_pairs` and
/// `finish`: the form query that holds `pairs`, in their order.
#[verifier::external_body]
pub(crate) fn write_form(pairs: &Vec<(String, String)>) -> (query: String)
    ensures
        query@ == form_query(pair_views(pairs@)),
{
    url::form_urlencoded::Serializer::new(String::new()).extend_pairs(pairs).finish()
}

/// Bytes with a space for every plus sign.
pub open spec fn plus_as_space(bytes: Seq<u8>) -> Seq<u8> {
    bytes.map_values(|byte: u8| if byte == 0x2b { 0x20u8 } else { byte })
}

/// The text that a name or a value of a form query writes.
pub open spec fn form_decoded(text: Seq<char>) -> Seq<char> {
    lenient_text(percent_decoded(plus_as_space(encode_utf8(text))))
}

/// The name and the value that one piece of a form query holds.
pub open spec fn form_entry(piece: Seq<char>) -> (Seq<char>, Seq<char>) {
    match text::split_at_first(piece, '=') {
        Some((name, value)) => (form_decoded(name), form_decoded(value)),
        None => (form_decoded(piece), form_decoded(Seq::empty())),
    }
}

/// The names and values that a form query holds: one entry for each piece
/// between ampersands that is not empty.
pub open spec fn form_entries(query: Seq<char>) -> Seq<(Seq<char>, Seq<char>)> {
    text::pieces(query, '&').filter(|piece: Seq<char>| piece.len() > 0).map_values(
        |piece: Seq<char>| form_entry(piece),
    )
}

/// `form_urlencoded::parse` on the bytes of `query`: the entries that it holds,
/// in their order.
#[verifier::external_body]
pub(crate) fn read_form(query: &str) -> (pairs: Vec<(String, String)>)
    ensures
        pair_views(pairs@) == form_entries(query@),
{
    url::form_urlencoded::parse(query.as_bytes()).into_owned().collect()
}

// ---------------------------------------------------------------------------
// Base64
// ---------------------------------------------------------------------------

/// A form of base64: its alphabet, and whether the end is padded.
pub struct Base64Form {
    pub url_safe: bool,
    pub padded: bool,
}

/// Base64 with the standard alphabet and padding.
pub open spec fn standard_form() -> Base64Form {
    Base64Form { url_safe: false, padded: true }
}

/// The character for a number less than 64.
pub open spec fn base64_digit(value: int, url_safe: bool) -> char {
    if value < 26 {
        ('A' as u32 + value) as char
    } else if value < 52 {
        ('a' as u32 + value - 26) as char
    } else if value < 62 {
        ('0' as u32 + value - 52) as char
    } else if value == 62 {
        if url_safe {
            '-'
        } else {
            '+'
        }
    } else {
        if url_safe {
            '_'
        } else {
            '/'
        }
    }
}

/// What stands in the place of `missing` characters at the end.
pub open spec fn base64_padding(form: Base64Form, missing: nat) -> Seq<char> {
    if form.padded {
        Seq::new(missing, |i: int| '=')
    } else {
        Seq::empty()
    }
}

/// Bytes in base64: four characters for three bytes, six bits each, and fewer
/// for fewer bytes at the end.
pub open spec fn base64_encoded(form: Base64Form, bytes: Seq<u8>) -> Seq<char>
    decreases bytes.len(),
{
    let digit = |value: int| base64_digit(value, form.url_safe);
    let a = bytes[0] as int;
    let b = bytes[1] as int;
    let c = bytes[2] as int;
    if bytes.len() == 0 {
        Seq::empty()
    } else if bytes.len() == 1 {
        seq![digit(a / 4), digit(a % 4 * 16)] + base64_padding(form, 2)
    } else if bytes.len() == 2 {
        seq![digit(a / 4), digit(a % 4 * 16 + b / 16), digit(b % 16 * 4)] + base64_padding(form, 1)
    } else {
        seq![
            digit(a / 4),
            digit(a % 4 * 16 + b / 16),
            digit(b % 16 * 4 + c / 64),
            digit(c % 64),
        ] + base64_encoded(form, bytes.skip(3))
    }
}

/// Bytes in base64 with the standard alphabet and padding.
pub open spec fn standard_encoded(bytes: Seq<u8>) -> Seq<char> {
    base64_encoded(standard_form(), bytes)
}

/// The characters of the two alphabets and the padding.
pub open spec fn is_base64_char(ch: char) -> bool {
    ||| 'A' <= ch <= 'Z'
    ||| 'a' <= ch <= 'z'
    ||| '0' <= ch <= '9'
    ||| ch == '+' || ch == '/' || ch == '-' || ch == '_'
    ||| ch == '='
}

/// Whether a text holds nothing but characters of base64.
pub open spec fn is_base64_text(text: Seq<char>) -> bool {
    forall|i: int| 0 <= i < text.len() ==> is_base64_char(#[trigger] text[i])
}

/// The view of optional bytes.
pub open spec fn bytes_view(bytes: Option<Vec<u8>>) -> Option<Seq<u8>> {
    match bytes {
        Some(bytes) => Some(bytes@),
        None => None,
    }
}

/// Whether `found` is what a text holds in one form: the bytes whose form it is,
/// or nothing where it is the form of none.
pub open spec fn holds_in_form(text: Seq<char>, form: Base64Form, found: Option<Seq<u8>>) -> bool {
    match found {
        Some(bytes) => text == base64_encoded(form, bytes),
        None => forall|bytes: Seq<u8>| text != #[trigger] base64_encoded(form, bytes),
    }
}

/// `base64::Engine::decode` of `STANDARD`: it reads what was written in the
/// standard alphabet with padding, and nothing else.
#[verifier::external_body]
fn decode_standard(text: &str) -> (bytes: Option<Vec<u8>>)
    ensures
        holds_in_form(text@, standard_form(), bytes_view(bytes)),
{
    base64::Engine::decode(&base64::engine::general_purpose::STANDARD, text).ok()
}

/// `base64::Engine::decode` of `STANDARD_NO_PAD`: it reads what was written in
/// the standard alphabet without padding, and nothing else.
#[verifier::external_body]
fn decode_standard_no_pad(text: &str) -> (bytes: Option<Vec<u8>>)
    ensures
        holds_in_form(
            text@,
            (Base64Form { url_safe: false, padded: false }),
            bytes_view(bytes),
        ),
{
    base64::Engine::decode(&base64::engine::general_purpose::STANDARD_NO_PAD, text).ok()
}

/// `base64::Engine::decode` of `URL_SAFE`: it reads what was written in the
/// URL-safe alphabet with padding, and nothing else.
#[verifier::external_body]
fn decode_url_safe(text: &str) -> (bytes: Option<Vec<u8>>)
    ensures
        holds_in_form(
            text@,
            (Base64Form { url_safe: true, padded: true }),
            bytes_view(bytes),
        ),
{
    base64::Engine::decode(&base64::engine::general_purpose::URL_SAFE, text).ok()
}

/// `base64::Engine::decode` of `URL_SAFE_NO_PAD`: it reads what was written in
/// the URL-safe alphabet without padding, and nothing else.
#[verifier::external_body]
fn decode_url_safe_no_pad(text: &str) -> (bytes: Option<Vec<u8>>)
    ensures
        holds_in_form(
            text@,
            (Base64Form { url_safe: true, padded: false }),
            bytes_view(bytes),
        ),
{
    base64::Engine::decode(&base64::engine::general_purpose::URL_SAFE_NO_PAD, text).ok()
}

/// `base64::Engine::encode` of `STANDARD` on the bytes of `text`.
#[verifier::external_body]
pub(crate) fn encode_base64(text: &str) -> (result: String)
    ensures
        result@ == standard_encoded(encode_utf8(text@)),
{
    base64::Engine::encode(&base64::engine::general_purpose::STANDARD, text)
}

/// What `text` holds in base64: the bytes of which it is one of the forms.
pub open spec fn base64_decoded(text: Seq<char>) -> Option<Seq<u8>> {
    if exists|form: Base64Form, bytes: Seq<u8>| text == #[trigger] base64_encoded(form, bytes) {
        let (_, bytes) = choose|form: Base64Form, bytes: Seq<u8>|
            text == #[trigger] base64_encoded(form, bytes);
        Some(bytes)
    } else {
        None
    }
}

/// What `value` holds in base64, with either alphabet, padded or not.
pub fn decode_base64_flexible(value: &str) -> (bytes: Option<Vec<u8>>)
    ensures
        bytes_view(bytes) == base64_decoded(value@),
{
    proof {
        roundtrip::lemma_base64_held(value@);
    }
    let standard = decode_standard(value);
    if standard.is_some() {
        return standard;
    }
    let standard_no_pad = decode_standard_no_pad(value);
    if standard_no_pad.is_some() {
        return standard_no_pad;
    }
    let url_safe = decode_url_safe(value);
    if url_safe.is_some() {
        return url_safe;
    }
    let url_safe_no_pad = decode_url_safe_no_pad(value);
    proof {
        if url_safe_no_pad is None {
            assert forall|form: Base64Form, bytes: Seq<u8>|
                value@ != #[trigger] base64_encoded(form, bytes) by {
                assert(form == standard_form() || form == (Base64Form {
                    url_safe: false,
                    padded: false,
                }) || form == (Base64Form { url_safe: true, padded: true }) || form == (Base64Form {
                    url_safe: true,
                    padded: false,
                }));
            }
        }
    }
    url_safe_no_pad
}

// ---------------------------------------------------------------------------
// URLs
// ---------------------------------------------------------------------------

/// The parts of a URL.
#[derive(Debug)]
pub struct UrlText {
    pub scheme: String,
    pub username: String,
    pub password: Option<String>,
    pub host: Option<String>,
    pub port: Option<u16>,
    pub query: Vec<(String, String)>,
    pub fragment: Option<String>,
    /// How many bytes the URL has without its fragment, once it is escaped.
    pub length: usize,
}

/// The mathematical form of the parts of a URL.
pub struct UrlParts {
    pub scheme: Seq<char>,
    pub username: Seq<char>,
    pub password: Option<Seq<char>>,
    pub host: Option<Seq<char>>,
    pub port: Option<u16>,
    pub query: Seq<(Seq<char>, Seq<char>)>,
    pub fragment: Option<Seq<char>>,
    pub length: nat,
}

impl View for UrlText {
    type V = UrlParts;

    open spec fn view(&self) -> UrlParts {
        UrlParts {
            scheme: self.scheme@,
            username: self.username@,
            password: text::text_view(self.password),
            host: text::text_view(self.host),
            port: self.port,
            query: pair_views(self.query@),
            fragment: text::text_view(self.fragment),
            length: self.length as nat,
        }
    }
}

/// What `url::Url::parse` reads from a text.
pub uninterp spec fn url_parts(text: Seq<char>) -> Option<UrlParts>;

/// Whether a text starts as the links do that are plain URLs.
pub open spec fn is_url_link(text: Seq<char>) -> bool {
    ||| "vless://"@.is_prefix_of(text)
    ||| "trojan://"@.is_prefix_of(text)
    ||| "hysteria2://"@.is_prefix_of(text)
    ||| "tuic://"@.is_prefix_of(text)
}

/// What stands before the fragment of a link.
pub open spec fn before_fragment(uri: Seq<char>) -> Seq<char> {
    uri.take(text::index_of(uri, '#'))
}

/// The fragment of a link that has one.
pub open spec fn after_fragment(uri: Seq<char>) -> Seq<char> {
    uri.skip(text::index_of(uri, '#') + 1)
}

/// Whether a text can be a fragment as it is: visible ASCII characters other
/// than `"`, `#`, `<`, `>` and the backtick.
pub open spec fn is_fragment(text: Seq<char>) -> bool {
    forall|i: int|
        0 <= i < text.len() ==> {
            let ch = #[trigger] text[i];
            ' ' < ch < '\u{7f}' && ch != '"' && ch != '#' && ch != '<' && ch != '>' && ch != '`'
        }
}

/// Whether two links differ in their fragments alone. The first one, where it
/// has none, ends with a character that is not taken off the end of a URL.
pub open spec fn same_but_fragment(other: Seq<char>, uri: Seq<char>) -> bool {
    &&& before_fragment(other) == before_fragment(uri)
    &&& other.contains('#') || (other.len() > 0 && other.last() > ' ')
}

/// The parts of a URL with another fragment.
pub open spec fn with_fragment(parts: UrlParts, fragment: Seq<char>) -> UrlParts {
    UrlParts { fragment: Some(fragment), ..parts }
}

/// Whether a fragment can stand behind a URL: it has one, or is not too long for
/// the place of a fragment to be noted.
pub open spec fn has_room_for_fragment(uri: Seq<char>, parts: UrlParts) -> bool {
    uri.contains('#') || parts.length <= u32::MAX
}

/// What is known of `found`, the parts of a link with a fragment, from links
/// that differ from it in their fragments alone: where such a link is a URL
/// with a host, behind which a fragment can stand, the other parts are the same.
pub open spec fn keeps_parts(uri: Seq<char>, found: Option<UrlParts>) -> bool {
    is_url_link(uri) && uri.contains('#') && is_fragment(after_fragment(uri)) ==> forall|
        other: Seq<char>,
    |
        same_but_fragment(other, uri) && (#[trigger] url_parts(other) matches Some(parts)
            && has_room_for_fragment(other, parts) && (parts.host matches Some(host) && host.len()
            > 0)) ==> found == Some(with_fragment(url_parts(other)->0, after_fragment(uri)))
}

/// What is known of how long a link is as a URL: a character takes at most
/// twelve bytes, four escapes.
pub open spec fn bounds_length(uri: Seq<char>, found: Option<UrlParts>) -> bool {
    is_url_link(uri) ==> (found matches Some(parts) ==> parts.length <= 12 * before_fragment(
        uri,
    ).len())
}

/// A URL with user information, a host, a port and a fragment, as it is
/// written: the user information escaped, the query as a form query.
pub struct PlainUrl {
    pub scheme: Seq<char>,
    pub username: Seq<char>,
    pub password: Option<Seq<char>>,
    pub host: Seq<char>,
    pub port: u16,
    pub query: Seq<char>,
    pub fragment: Seq<char>,
}

/// A URL as a text.
pub open spec fn url_text(url: PlainUrl) -> Seq<char> {
    let userinfo = match url.password {
        Some(password) => url.username + ":"@ + password,
        None => url.username,
    };
    let query = if url.query.len() == 0 {
        Seq::empty()
    } else {
        "?"@ + url.query
    };
    url.scheme + "://"@ + userinfo + "@"@ + (url.host + ":"@ + text::decimal(url.port as nat)) + (
    query + "#"@ + url.fragment)
}

/// A letter or a digit.
pub open spec fn is_alphanumeric(ch: char) -> bool {
    'a' <= ch <= 'z' || 'A' <= ch <= 'Z' || '0' <= ch <= '9'
}

/// Whether a text is escaped user information, and not empty.
pub open spec fn is_userinfo(text: Seq<char>) -> bool {
    &&& text.len() > 0
    &&& forall|i: int|
        0 <= i < text.len() ==> is_alphanumeric(#[trigger] text[i]) || text[i] == '%'
}

/// Whether a text is made of letters, digits, dots and hyphens, and not empty.
pub open spec fn is_host_name(text: Seq<char>) -> bool {
    &&& text.len() > 0
    &&& forall|i: int|
        0 <= i < text.len() ==> is_alphanumeric(#[trigger] text[i]) || text[i] == '.' || text[i]
            == '-'
}

/// Whether a text has the characters of form queries alone.
pub open spec fn is_form_text(text: Seq<char>) -> bool {
    forall|i: int|
        0 <= i < text.len() ==> {
            let ch = #[trigger] text[i];
            is_alphanumeric(ch) || ch == '*' || ch == '-' || ch == '.' || ch == '_' || ch == '+'
                || ch == '%' || ch == '=' || ch == '&'
        }
}

/// Whether a URL is written with characters that stand for themselves where
/// they are.
pub open spec fn is_plain_url(url: PlainUrl) -> bool {
    &&& url.scheme == "vless"@ || url.scheme == "trojan"@ || url.scheme == "hysteria2"@
        || url.scheme == "tuic"@
    &&& is_userinfo(url.username)
    &&& url.password matches Some(password) ==> is_userinfo(password)
    &&& is_host_name(url.host)
    &&& is_form_text(url.query)
    &&& is_fragment(url.fragment)
}

/// The parts that a URL was written with.
pub open spec fn plain_parts(url: PlainUrl) -> UrlParts {
    UrlParts {
        scheme: url.scheme,
        username: url.username,
        password: url.password,
        host: Some(url.host),
        port: Some(url.port),
        query: form_entries(url.query),
        fragment: Some(url.fragment),
        length: before_fragment(url_text(url)).len(),
    }
}

/// What is known of `found`, the parts of a link, where the link was written
/// with characters that stand for themselves: they are those that it was
/// written with. The place of the fragment must be a number of 32 bits.
pub open spec fn reads_written(uri: Seq<char>, found: Option<UrlParts>) -> bool {
    before_fragment(uri).len() <= u32::MAX ==> forall|url: PlainUrl|
        is_plain_url(url) && uri == #[trigger] url_text(url) ==> found == Some(plain_parts(url))
}

/// The view of the parts of a URL.
pub open spec fn parts_view(parts: Option<UrlText>) -> Option<UrlParts> {
    match parts {
        Some(parts) => Some(parts@),
        None => None,
    }
}

/// `url::Url::parse`, taken apart by `scheme`, `username`, `password`,
/// `host_str`, `port`, `query_pairs` and `fragment`, and measured up to its
/// fragment; nothing where `text` is not an absolute URL. A scheme is never
/// empty. Of a link with one of four schemes, none of which is special to URLs,
/// three things are claimed: what stands behind the first `#` changes no part
/// but the fragment, what was written with characters that stand for themselves
/// is read as it was written, and no character becomes more than four escapes.
/// The first two hold as long as the place of the fragment is a number of 32
/// bits; there the parser gives up.
#[verifier::external_body]
pub(crate) fn parse_url(text: &str) -> (parts: Option<UrlText>)
    ensures
        parts_view(parts) == url_parts(text@),
        parts matches Some(parts) ==> parts.scheme@.len() > 0,
        keeps_parts(text@, parts_view(parts)),
        reads_written(text@, parts_view(parts)),
        bounds_length(text@, parts_view(parts)),
{
    url::Url::parse(text).ok().map(|url| UrlText {
        scheme: url.scheme().to_string(),
        username: url.username().to_string(),
        password: url.password().map(|value| value.to_string()),
        host: url.host_str().map(|value| value.to_string()),
        port: url.port(),
        query: url.query_pairs().into_owned().collect(),
        fragment: url.fragment().map(|value| value.to_string()),
        length: url[..url::Position::AfterQuery].len(),
    })
}

// ---------------------------------------------------------------------------
// Digests
// ---------------------------------------------------------------------------

/// The SHA-256 digest of bytes.
pub uninterp spec fn sha256_digest(bytes: Seq<u8>) -> Seq<u8>;

/// `sha2::Sha256::digest` of the bytes of `text`: 32 bytes.
#[verifier::external_body]
pub(crate) fn sha256(text: &str) -> (digest: Vec<u8>)
    ensures
        digest@ == sha256_digest(encode_utf8(text@)),
        digest@.len() == 32,
{
    <sha2::Sha256 as sha2::Digest>::digest(text.as_bytes()).to_vec()
}

} // verus!
