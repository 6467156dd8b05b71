//! Texts and ordered maps.

use xray_sub_manager::strmap::{side_of, Side, StrMap};
use xray_sub_manager::text::{
    decimal_text, join, parse_unsigned, remove_spaces, rsplit_once, split, split_once, starts_with,
    strip_prefix, trim,
};

#[test]
fn texts_are_trimmed_as_unicode_has_it() {
    for text in ["", " a ", "\u{feff}a", "\u{2028}a\u{3000}", "\u{85}a\u{1680}b\u{202f}", "\t\n\u{b}\u{c}\r x"] {
        assert_eq!(trim(text), text.trim());
        let dense: String = text.chars().filter(|ch| !ch.is_whitespace()).collect();
        assert_eq!(remove_spaces(text), dense);
    }
    for code in 0..0x3100u32 {
        if let Some(ch) = char::from_u32(code) {
            let text = ch.to_string();
            assert_eq!(trim(&text).is_empty(), ch.is_whitespace(), "{code:x}");
        }
    }
    let trimmed = trim("  twice  ");
    assert_eq!(trim(&trimmed), trimmed);
}

#[test]
fn texts_are_cut_and_joined() {
    let owned = |pair: Option<(&str, &str)>| pair.map(|(a, b)| (a.to_string(), b.to_string()));
    for text in ["", ":", "a:b:c", "a", "::"] {
        assert_eq!(split_once(text, ':'), owned(text.split_once(':')));
        assert_eq!(rsplit_once(text, ':'), owned(text.rsplit_once(':')));
        let pieces: Vec<String> = text.split(':').map(|piece| piece.to_string()).collect();
        assert_eq!(split(text, ':'), pieces);
        assert_eq!(join(&pieces, ":"), text);
    }
    assert_eq!(join(&vec!["a".to_string(), "b".to_string()], ", "), "a, b");
    assert_eq!(join(&Vec::new(), "x"), "");
    assert!(starts_with("\u{e9}a", "\u{e9}") && !starts_with("a", "ab"));
    assert_eq!(strip_prefix("abc", "ab"), Some("c".to_string()));
    assert_eq!(strip_prefix("abc", "b"), None);
}

#[test]
fn numbers_are_read_and_written() {
    for number in [0, 7, 10, 65_535, u64::MAX] {
        assert_eq!(decimal_text(number), number.to_string());
        assert_eq!(parse_unsigned(&decimal_text(number), u64::MAX), Some(number));
    }
    for text in ["", "+", "-0", "+5", "007", "1 ", "1.0", "18446744073709551615", "18446744073709551616"] {
        assert_eq!(parse_unsigned(text, u64::MAX), text.parse::<u64>().ok(), "{text}");
        assert_eq!(parse_unsigned(text, 65_535).map(|v| v as u16), text.parse::<u16>().ok(), "{text}");
    }
}

#[test]
fn maps_are_in_key_order() {
    let mut map: StrMap<String> = StrMap::new();
    for key in ["b", "a", "ab", "\u{e9}", "", "B", "a"] {
        map.insert(key.to_string(), format!("<{key}>"));
    }
    let keys: Vec<&str> = (0..map.len()).map(|i| map.key_at(i).as_str()).collect();
    assert_eq!(keys, vec!["", "B", "a", "ab", "b", "\u{e9}"]);
    assert_eq!(map.value_at(3), "<ab>");
    assert!(map.contains_key("") && !map.contains_key("x"));
    assert_eq!(map.remove("a"), Some("<a>".to_string()));
    assert_eq!(map.remove("a"), None);
    assert_eq!(map.get("a"), None);
    assert_eq!(map.len(), 5);
    assert!(matches!(side_of("a", "b"), Side::Before));
    assert!(matches!(side_of("a", "a"), Side::Same));
    assert!(matches!(side_of("b", "a"), Side::After));
    assert!(matches!(side_of("\u{e9}", "z"), Side::After));
}
