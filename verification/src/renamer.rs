//! Names for display: the flag in a node's own name, and its country.

use vstd::prelude::*;
use vstd::string::*;
use vstd::utf8::*;

use crate::items;
use crate::node::{Node, NodeView};
use crate::strmap::StrMap;
use crate::text;

verus! {

// ---------------------------------------------------------------------------
// Countries
// ---------------------------------------------------------------------------

/// The countries by their codes.
pub const COUNTRIES: [(&'static str, &'static str); 257] = [
    ("AC", "Ascension Island"),
    ("AD", "Andorra"),
    ("AE", "United Arab Emirates"),
    ("AF", "Afghanistan"),
    ("AG", "Antigua and Barbuda"),
    ("AI", "Anguilla"),
    ("AL", "Albania"),
    ("AM", "Armenia"),
    ("AO", "Angola"),
    ("AQ", "Antarctica"),
    ("AR", "Argentina"),
    ("AS", "American Samoa"),
    ("AT", "Austria"),
    ("AU", "Australia"),
    ("AW", "Aruba"),
    ("AX", "Aland Islands"),
    ("AZ", "Azerbaijan"),
    ("BA", "Bosnia and Herzegovina"),
    ("BB", "Barbados"),
    ("BD", "Bangladesh"),
    ("BE", "Belgium"),
    ("BF", "Burkina Faso"),
    ("BG", "Bulgaria"),
    ("BH", "Bahrain"),
    ("BI", "Burundi"),
    ("BJ", "Benin"),
    ("BL", "Saint Barthelemy"),
    ("BM", "Bermuda"),
    ("BN", "Brunei"),
    ("BO", "Bolivia"),
    ("BQ", "Caribbean Netherlands"),
    ("BR", "Brazil"),
    ("BS", "Bahamas"),
    ("BT", "Bhutan"),
    ("BV", "Bouvet Island"),
    ("BW", "Botswana"),
    ("BY", "Belarus"),
    ("BZ", "Belize"),
    ("CA", "Canada"),
    ("CC", "Cocos Islands"),
    ("CD", "Democratic Republic of the Congo"),
    ("CF", "Central African Republic"),
    ("CG", "Republic of the Congo"),
    ("CH", "Switzerland"),
    ("CI", "Cote d'Ivoire"),
    ("CK", "Cook Islands"),
    ("CL", "Chile"),
    ("CM", "Cameroon"),
    ("CN", "China"),
    ("CO", "Colombia"),
    ("CP", "Clipperton Island"),
    ("CR", "Costa Rica"),
    ("CU", "Cuba"),
    ("CV", "Cape Verde"),
    ("CW", "Curacao"),
    ("CX", "Christmas Island"),
    ("CY", "Cyprus"),
    ("CZ", "Czechia"),
    ("DE", "Germany"),
    ("DG", "Diego Garcia"),
    ("DJ", "Djibouti"),
    ("DK", "Denmark"),
    ("DM", "Dominica"),
    ("DO", "Dominican Republic"),
    ("DZ", "Algeria"),
    ("EA", "Ceuta and Melilla"),
    ("EC", "Ecuador"),
    ("EE", "Estonia"),
    ("EG", "Egypt"),
    ("EH", "Western Sahara"),
    ("ER", "Eritrea"),
    ("ES", "Spain"),
    ("ET", "Ethiopia"),
    ("EU", "European Union"),
    ("FI", "Finland"),
    ("FJ", "Fiji"),
    ("FK", "Falkland Islands"),
    ("FM", "Micronesia"),
    ("FO", "Faroe Islands"),
    ("FR", "France"),
    ("GA", "Gabon"),
    ("GB", "United Kingdom"),
    ("GD", "Grenada"),
    ("GE", "Georgia"),
    ("GF", "French Guiana"),
    ("GG", "Guernsey"),
    ("GH", "Ghana"),
    ("GI", "Gibraltar"),
    ("GL", "Greenland"),
    ("GM", "Gambia"),
    ("GN", "Guinea"),
    ("GP", "Guadeloupe"),
    ("GQ", "Equatorial Guinea"),
    ("GR", "Greece"),
    ("GS", "South Georgia and the South Sandwich Islands"),
    ("GT", "Guatemala"),
    ("GU", "Guam"),
    ("GW", "Guinea-Bissau"),
    ("GY", "Guyana"),
    ("HK", "Hong Kong"),
    ("HM", "Heard Island and McDonald Islands"),
    ("HN", "Honduras"),
    ("HR", "Croatia"),
    ("HT", "Haiti"),
    ("HU", "Hungary"),
    ("IC", "Canary Islands"),
    ("ID", "Indonesia"),
    ("IE", "Ireland"),
    ("IL", "Israel"),
    ("IM", "Isle of Man"),
    ("IN", "India"),
    ("IO", "British Indian Ocean Territory"),
    ("IQ", "Iraq"),
    ("IR", "Iran"),
    ("IS", "Iceland"),
    ("IT", "Italy"),
    ("JE", "Jersey"),
    ("JM", "Jamaica"),
    ("JO", "Jordan"),
    ("JP", "Japan"),
    ("KE", "Kenya"),
    ("KG", "Kyrgyzstan"),
    ("KH", "Cambodia"),
    ("KI", "Kiribati"),
    ("KM", "Comoros"),
    ("KN", "Saint Kitts and Nevis"),
    ("KP", "North Korea"),
    ("KR", "South Korea"),
    ("KW", "Kuwait"),
    ("KY", "Cayman Islands"),
    ("KZ", "Kazakhstan"),
    ("LA", "Laos"),
    ("LB", "Lebanon"),
    ("LC", "Saint Lucia"),
    ("LI", "Liechtenstein"),
    ("LK", "Sri Lanka"),
    ("LR", "Liberia"),
    ("LS", "Lesotho"),
    ("LT", "Lithuania"),
    ("LU", "Luxembourg"),
    ("LV", "Latvia"),
    ("LY", "Libya"),
    ("MA", "Morocco"),
    ("MC", "Monaco"),
    ("MD", "Moldova"),
    ("ME", "Montenegro"),
    ("MF", "Saint Martin"),
    ("MG", "Madagascar"),
    ("MH", "Marshall Islands"),
    ("MK", "North Macedonia"),
    ("ML", "Mali"),
    ("MM", "Myanmar"),
    ("MN", "Mongolia"),
    ("MO", "Macau"),
    ("MP", "Northern Mariana Islands"),
    ("MQ", "Martinique"),
    ("MR", "Mauritania"),
    ("MS", "Montserrat"),
    ("MT", "Malta"),
    ("MU", "Mauritius"),
    ("MV", "Maldives"),
    ("MW", "Malawi"),
    ("MX", "Mexico"),
    ("MY", "Malaysia"),
    ("MZ", "Mozambique"),
    ("NA", "Namibia"),
    ("NC", "New Caledonia"),
    ("NE", "Niger"),
    ("NF", "Norfolk Island"),
    ("NG", "Nigeria"),
    ("NI", "Nicaragua"),
    ("NL", "Netherlands"),
    ("NO", "Norway"),
    ("NP", "Nepal"),
    ("NR", "Nauru"),
    ("NU", "Niue"),
    ("NZ", "New Zealand"),
    ("OM", "Oman"),
    ("PA", "Panama"),
    ("PE", "Peru"),
    ("PF", "French Polynesia"),
    ("PG", "Papua New Guinea"),
    ("PH", "Philippines"),
    ("PK", "Pakistan"),
    ("PL", "Poland"),
    ("PM", "Saint Pierre and Miquelon"),
    ("PN", "Pitcairn Islands"),
    ("PR", "Puerto Rico"),
    ("PS", "Palestine"),
    ("PT", "Portugal"),
    ("PW", "Palau"),
    ("PY", "Paraguay"),
    ("QA", "Qatar"),
    ("RE", "Reunion"),
    ("RO", "Romania"),
    ("RS", "Serbia"),
    ("RU", "Russia"),
    ("RW", "Rwanda"),
    ("SA", "Saudi Arabia"),
    ("SB", "Solomon Islands"),
    ("SC", "Seychelles"),
    ("SD", "Sudan"),
    ("SE", "Sweden"),
    ("SG", "Singapore"),
    ("SH", "Saint Helena"),
    ("SI", "Slovenia"),
    ("SJ", "Svalbard and Jan Mayen"),
    ("SK", "Slovakia"),
    ("SL", "Sierra Leone"),
    ("SM", "San Marino"),
    ("SN", "Senegal"),
    ("SO", "Somalia"),
    ("SR", "Suriname"),
    ("SS", "South Sudan"),
    ("ST", "Sao Tome and Principe"),
    ("SV", "El Salvador"),
    ("SX", "Sint Maarten"),
    ("SY", "Syria"),
    ("SZ", "Eswatini"),
    ("TA", "Tristan da Cunha"),
    ("TC", "Turks and Caicos Islands"),
    ("TD", "Chad"),
    ("TF", "French Southern Territories"),
    ("TG", "Togo"),
    ("TH", "Thailand"),
    ("TJ", "Tajikistan"),
    ("TK", "Tokelau"),
    ("TL", "Timor-Leste"),
    ("TM", "Turkmenistan"),
    ("TN", "Tunisia"),
    ("TO", "Tonga"),
    ("TR", "Turkey"),
    ("TT", "Trinidad and Tobago"),
    ("TV", "Tuvalu"),
    ("TW", "Taiwan"),
    ("TZ", "Tanzania"),
    ("UA", "Ukraine"),
    ("UG", "Uganda"),
    ("UM", "United States Minor Outlying Islands"),
    ("US", "United States"),
    ("UY", "Uruguay"),
    ("UZ", "Uzbekistan"),
    ("VA", "Vatican City"),
    ("VC", "Saint Vincent and the Grenadines"),
    ("VE", "Venezuela"),
    ("VG", "British Virgin Islands"),
    ("VI", "U.S. Virgin Islands"),
    ("VN", "Vietnam"),
    ("VU", "Vanuatu"),
    ("WF", "Wallis and Futuna"),
    ("WS", "Samoa"),
    ("XK", "Kosovo"),
    ("YE", "Yemen"),
    ("YT", "Mayotte"),
    ("ZA", "South Africa"),
    ("ZM", "Zambia"),
    ("ZW", "Zimbabwe"),
];

/// The name under a code, in the entries from `from` on.
pub open spec fn country_from(code: Seq<char>, from: int) -> Seq<char>
    decreases COUNTRIES@.len() - from,
{
    if from < 0 || from >= COUNTRIES@.len() {
        "Unknown"@
    } else if COUNTRIES@[from].0@ == code {
        COUNTRIES@[from].1@
    } else {
        country_from(code, from + 1)
    }
}

/// The name of the country with a code, `Unknown` where no country has it.
pub open spec fn country_of(code: Seq<char>) -> Seq<char> {
    country_from(code, 0)
}

/// The name of the country with a code.
pub fn country_name(code: &str) -> (name: &'static str)
    ensures
        name@ == country_of(code@),
{
    let table = COUNTRIES;
    let mut i: usize = 0;
    while i < table.len()
        invariant
            i <= table@.len(),
            table == COUNTRIES,
            country_of(code@) == country_from(code@, i as int),
        decreases table@.len() - i,
    {
        if text::same_text(table[i].0, code) {
            return table[i].1;
        }
        i = i + 1;
    }
    "Unknown"
}

// ---------------------------------------------------------------------------
// Flags
// ---------------------------------------------------------------------------

/// `char::from_u32`: the character with a code point, where there is one.
pub assume_specification[ char::from_u32 ](i: u32) -> (character: Option<char>)
    ensures
        character == if is_scalar(i) {
            Some(i as char)
        } else {
            None
        },
;

/// Whether a character is one of the two that a flag is written with.
pub open spec fn is_indicator(character: char) -> bool {
    0x1F1E6 <= character as u32 <= 0x1F1FF
}

/// Whether a character is one of the two that a flag is written with.
pub fn is_regional_indicator(character: char) -> (result: bool)
    ensures
        result == is_indicator(character),
{
    0x1F1E6 <= character as u32 && character as u32 <= 0x1F1FF
}

/// The character as far from `A` as `character` is from the first regional
/// indicator.
pub open spec fn indicator_letter(character: char) -> Option<char> {
    if (character as u32) < 0x1F1E6 {
        None
    } else {
        let code = (character as u32 - 0x1F1E6 + 0x41) as u32;
        if is_scalar(code) {
            Some(code as char)
        } else {
            None
        }
    }
}

/// The letter that a regional indicator stands for.
pub fn regional_indicator_to_ascii(character: char) -> (letter: Option<char>)
    ensures
        letter == indicator_letter(character),
{
    let code = character as u32;
    if code < 0x1F1E6 {
        return None;
    }
    char::from_u32(code - 0x1F1E6 + 0x41)
}

/// The index of the first flag in `text`, or its length where there is none.
pub open spec fn flag_index(text: Seq<char>) -> int
    decreases text.len(),
{
    if text.len() < 2 {
        text.len() as int
    } else if is_indicator(text[0]) && is_indicator(text[1]) {
        0
    } else {
        1 + flag_index(text.skip(1))
    }
}

/// The code that a flag stands for.
pub open spec fn flag_code(flag: Seq<char>) -> Seq<char> {
    seq![indicator_letter(flag[0])->0, indicator_letter(flag[1])->0]
}

/// The first flag in `text`, and the code that it stands for.
pub open spec fn flag_in(text: Seq<char>) -> Option<(Seq<char>, Seq<char>)> {
    let i = flag_index(text);
    if i < text.len() {
        Some((text.subrange(i, i + 2), flag_code(text.subrange(i, i + 2))))
    } else {
        None
    }
}

/// A regional indicator stands for a letter.
proof fn lemma_indicator_letter(character: char)
    requires
        is_indicator(character),
    ensures
        indicator_letter(character) is Some,
{
}

/// The first flag in a text, and the code that it stands for.
pub fn extract_flag(input: &str) -> (result: Option<(String, String)>)
    ensures
        text::pair_view(result) == flag_in(input@),
{
    let chars = text::chars_of(input);
    let count = chars.len();
    let mut i: usize = 0;
    assert(input@.skip(0) =~= input@);
    while i < count && count - i >= 2
        invariant
            i <= count,
            count == chars@.len(),
            chars@ == input@,
            flag_index(input@) == i + flag_index(input@.skip(i as int)),
        decreases count - i,
    {
        let ghost rest = input@.skip(i as int);
        assert(rest[0] == input@[i as int] && rest[1] == input@[i + 1]);
        let first = chars[i];
        let second = chars[i + 1];
        if is_regional_indicator(first) && is_regional_indicator(second) {
            proof {
                lemma_indicator_letter(first);
                lemma_indicator_letter(second);
            }
            let mut flag = String::new();
            flag.push(first);
            flag.push(second);
            assert(flag@ =~= input@.subrange(i as int, i + 2));
            let mut code = String::new();
            match regional_indicator_to_ascii(first) {
                Some(letter) => code.push(letter),
                None => {
                    return None;
                },
            }
            match regional_indicator_to_ascii(second) {
                Some(letter) => code.push(letter),
                None => {
                    return None;
                },
            }
            assert(code@ =~= flag_code(flag@));
            return Some((flag, code));
        }
        assert(rest.skip(1) =~= input@.skip(i + 1));
        i = i + 1;
    }
    None
}

// ---------------------------------------------------------------------------
// Names
// ---------------------------------------------------------------------------

/// The flag and country in a name, or a globe where it has no flag.
pub open spec fn label_of(raw_name: Seq<char>) -> Seq<char> {
    match flag_in(raw_name) {
        Some((flag, code)) => flag + " "@ + country_of(code),
        None => "\u{1F310} Unknown"@,
    }
}

/// The flag and country in a name.
pub fn country_label(raw_name: &str) -> (label: String)
    ensures
        label@ == label_of(raw_name@),
{
    match extract_flag(raw_name) {
        Some((flag, code)) => {
            let mut label = flag;
            label.append(" ");
            label.append(country_name(code.as_str()));
            label
        },
        None => "\u{1F310} Unknown".to_string(),
    }
}

/// How many of `nodes` have a label.
pub open spec fn label_count(nodes: Seq<NodeView>, label: Seq<char>) -> nat
    decreases nodes.len(),
{
    if nodes.len() == 0 {
        0
    } else {
        label_count(nodes.drop_last(), label) + if label_of(nodes.last().raw_name) == label {
            1nat
        } else {
            0nat
        }
    }
}

/// The name that the node at `i` is displayed under: its label, numbered where
/// other nodes have it too.
pub open spec fn display_name(nodes: Seq<NodeView>, i: int) -> Seq<char> {
    let label = label_of(nodes[i].raw_name);
    if label_count(nodes, label) > 1 {
        label + " #"@ + text::decimal(label_count(nodes.take(i + 1), label))
    } else {
        label
    }
}

/// A node under another display name.
pub open spec fn displayed(node: NodeView, name: Seq<char>) -> NodeView {
    NodeView { display_name: name, ..node }
}

/// The nodes under their display names.
pub open spec fn renamed(nodes: Seq<NodeView>) -> Seq<NodeView> {
    Seq::new(nodes.len(), |i: int| displayed(nodes[i], display_name(nodes, i)))
}

/// How often a label was counted.
spec fn counted(counts: Map<Seq<char>, usize>, label: Seq<char>) -> nat {
    if counts.contains_key(label) {
        counts[label] as nat
    } else {
        0
    }
}

/// Counts a label once more.
fn count_label(counts: &mut StrMap<usize>, label: &str) -> (count: usize)
    requires
        counted(old(counts)@, label@) < usize::MAX,
    ensures
        count == counted(old(counts)@, label@) + 1,
        forall|other: Seq<char>| #[trigger]
            counted(final(counts)@, other) == counted(old(counts)@, other) + if other == label@ {
                1nat
            } else {
                0nat
            },
{
    let count: usize = match counts.get(label) {
        Some(count) => *count + 1,
        None => 1,
    };
    counts.insert(label.to_string(), count);
    count
}

/// There are no more nodes with a label than nodes.
proof fn lemma_label_count_bound(nodes: Seq<NodeView>, label: Seq<char>)
    ensures
        label_count(nodes, label) <= nodes.len(),
    decreases nodes.len(),
{
    if nodes.len() > 0 {
        lemma_label_count_bound(nodes.drop_last(), label);
    }
}

/// One node more counts for its own label alone.
proof fn lemma_label_count_step(nodes: Seq<NodeView>, i: int)
    requires
        0 <= i < nodes.len(),
    ensures
        forall|label: Seq<char>| #[trigger]
            label_count(nodes.take(i + 1), label) == label_count(nodes.take(i), label) + if label
                == label_of(nodes[i].raw_name) {
                1nat
            } else {
                0nat
            },
{
    assert(nodes.take(i + 1).drop_last() =~= nodes.take(i));
}

/// How many nodes have each label.
fn count_labels(nodes: &Vec<Node>) -> (counts: StrMap<usize>)
    ensures
        forall|label: Seq<char>| #[trigger]
            counted(counts@, label) == label_count(items::views(nodes@), label),
{
    let ghost all = items::views(nodes@);
    let mut counts: StrMap<usize> = StrMap::new();
    let mut i: usize = 0;
    assert(all.take(0) =~= Seq::empty());
    while i < nodes.len()
        invariant
            i <= nodes@.len(),
            all == items::views(nodes@),
            forall|label: Seq<char>| #[trigger]
                counted(counts@, label) == label_count(all.take(i as int), label),
        decreases nodes@.len() - i,
    {
        assert(all[i as int] == nodes@[i as int]@);
        let label = country_label(nodes[i].raw_name.as_str());
        proof {
            lemma_label_count_bound(all.take(i as int), label@);
            lemma_label_count_step(all, i as int);
        }
        count_label(&mut counts, label.as_str());
        i = i + 1;
    }
    assert(all.take(i as int) =~= all);
    counts
}

/// Gives every node its display name.
pub fn rename_nodes(nodes: &mut Vec<Node>)
    ensures
        items::views(final(nodes)@) == renamed(items::views(old(nodes)@)),
{
    let ghost all = items::views(nodes@);
    let totals = count_labels(nodes);
    let mut seen: StrMap<usize> = StrMap::new();
    let mut i: usize = 0;
    assert(all.take(0) =~= Seq::empty());
    while i < nodes.len()
        invariant
            i <= nodes@.len(),
            nodes@.len() == all.len(),
            forall|j: int| 0 <= j < i ==> (#[trigger] nodes@[j])@ == renamed(all)[j],
            forall|j: int| i <= j < all.len() ==> (#[trigger] nodes@[j])@ == all[j],
            forall|label: Seq<char>| #[trigger] counted(totals@, label) == label_count(all, label),
            forall|label: Seq<char>| #[trigger]
                counted(seen@, label) == label_count(all.take(i as int), label),
        decreases nodes@.len() - i,
    {
        let ghost before = nodes@;
        assert(nodes@[i as int]@ == all[i as int]);
        let label = country_label(nodes[i].raw_name.as_str());
        proof {
            lemma_label_count_bound(all.take(i as int), label@);
            lemma_label_count_step(all, i as int);
        }
        let index = count_label(&mut seen, label.as_str());
        let total: usize = match totals.get(label.as_str()) {
            Some(total) => *total,
            None => 1,
        };
        assert(counted(totals@, label@) == label_count(all, label@));
        let name = if total > 1 {
            let mut name = label;
            name.append(" #");
            name.append(text::decimal_text(index as u64).as_str());
            name
        } else {
            label
        };
        assert(name@ == display_name(all, i as int));
        nodes[i].display_name = name;
        assert(nodes@[i as int]@ == renamed(all)[i as int]);
        assert forall|j: int| 0 <= j < nodes@.len() && j != i implies #[trigger] nodes@[j]
            == before[j] by {}
        i = i + 1;
    }
    assert(items::views(nodes@) =~= renamed(all));
}

// ---------------------------------------------------------------------------
// Laws
// ---------------------------------------------------------------------------

/// Renaming depends on the names that nodes came with and changes only those
/// that they are displayed under, so doing it twice is doing it once.
pub proof fn law_rename_idempotent(nodes: Seq<NodeView>)
    ensures
        renamed(renamed(nodes)) == renamed(nodes),
{
    let once = renamed(nodes);
    assert forall|i: int| 0 <= i < nodes.len() implies #[trigger] renamed(once)[i] == once[i] by {
        let label = label_of(nodes[i].raw_name);
        lemma_label_count_same(nodes, once, label);
        lemma_label_count_same(nodes.take(i + 1), once.take(i + 1), label);
    }
    assert(renamed(once) =~= once);
}

/// Nodes that came with the same names have the same labels.
proof fn lemma_label_count_same(a: Seq<NodeView>, b: Seq<NodeView>, label: Seq<char>)
    requires
        a.len() == b.len(),
        forall|i: int| 0 <= i < a.len() ==> (#[trigger] a[i]).raw_name == b[i].raw_name,
    ensures
        label_count(a, label) == label_count(b, label),
    decreases a.len(),
{
    if a.len() > 0 {
        assert forall|i: int| 0 <= i < a.len() - 1 implies (#[trigger] a.drop_last()[i]).raw_name
            == b.drop_last()[i].raw_name by {
            assert(a.drop_last()[i] == a[i]);
        }
        lemma_label_count_same(a.drop_last(), b.drop_last(), label);
        assert(a.last() == a[a.len() - 1]);
    }
}

/// A later node with a label has a higher number.
proof fn lemma_label_count_grows(nodes: Seq<NodeView>, label: Seq<char>, i: int, j: int)
    requires
        0 <= i <= j <= nodes.len(),
    ensures
        label_count(nodes.take(i), label) <= label_count(nodes.take(j), label),
    decreases j - i,
{
    if i < j {
        lemma_label_count_grows(nodes, label, i, j - 1);
        lemma_label_count_step(nodes, j - 1);
        assert(label_count(nodes.take(j - 1 + 1), label) >= label_count(nodes.take(j - 1), label));
    }
}

/// The index of a flag is that of two regional indicators.
proof fn lemma_flag_index(text: Seq<char>)
    ensures
        0 <= flag_index(text) <= text.len(),
        flag_index(text) < text.len() ==> flag_index(text) + 2 <= text.len() && is_indicator(
            text[flag_index(text)],
        ) && is_indicator(text[flag_index(text) + 1]),
    decreases text.len(),
{
    if text.len() >= 2 && !(is_indicator(text[0]) && is_indicator(text[1])) {
        lemma_flag_index(text.skip(1));
    }
}

/// Labels that differ do so in their first two characters.
proof fn lemma_label_start(a: Seq<char>, b: Seq<char>)
    requires
        label_of(a) != label_of(b),
    ensures
        label_of(a).len() >= 2,
        label_of(b).len() >= 2,
        label_of(a)[0] != label_of(b)[0] || label_of(a)[1] != label_of(b)[1],
{
    lemma_flag_index(a);
    lemma_flag_index(b);
    reveal_strlit("\u{1F310} Unknown");
    if flag_in(a) is Some && flag_in(b) is Some {
        let (f, _) = flag_in(a)->0;
        let (g, _) = flag_in(b)->0;
        if f[0] == g[0] && f[1] == g[1] {
            assert(f =~= g);
        }
    }
}

/// No two nodes are displayed under one name.
pub proof fn law_display_names_distinct(nodes: Seq<NodeView>, i: int, j: int)
    requires
        0 <= i < j < nodes.len(),
    ensures
        renamed(nodes)[i].display_name != renamed(nodes)[j].display_name,
{
    let a = label_of(nodes[i].raw_name);
    let b = label_of(nodes[j].raw_name);
    let x = display_name(nodes, i);
    let y = display_name(nodes, j);
    if a == b {
        lemma_label_count_step(nodes, i);
        lemma_label_count_grows(nodes, a, 0, i);
        lemma_label_count_grows(nodes, a, i + 1, j);
        lemma_label_count_step(nodes, j);
        lemma_label_count_grows(nodes, a, j + 1, nodes.len() as int);
        assert(nodes.take(nodes.len() as int) =~= nodes);
        let m = label_count(nodes.take(i + 1), a);
        let n = label_count(nodes.take(j + 1), a);
        assert(m < n);
        if x == y {
            let head = a + " #"@;
            assert(x.skip(head.len() as int) =~= text::decimal(m));
            assert(y.skip(head.len() as int) =~= text::decimal(n));
            text::lemma_decimal_digits(m);
            text::lemma_decimal_digits(n);
        }
    } else {
        lemma_label_start(nodes[i].raw_name, nodes[j].raw_name);
        assert(x[0] == a[0] && x[1] == a[1]);
        assert(y[0] == b[0] && y[1] == b[1]);
    }
}

} // verus!
