use sitegen::string_map::StringMap;
use sitegen::text::{
    char_is_whitespace, contains, parse_u128, split, str_is_blank, string_chars, u64_to_string,
};

#[test]
fn splitting_as_the_standard_library_does() {
    for text in ["", "a", "|", "a|b", "a||b|", "|a|", "no separator", "ä|ö|ü"] {
        let expected: Vec<String> = text.split('|').map(|piece| piece.to_string()).collect();
        assert_eq!(split(text, '|'), expected);
    }
    assert_eq!(split("a:b:c", ':'), vec!["a", "b", "c"]);
    assert_eq!(split("", ':'), vec![""]);
}

#[test]
fn white_space_as_the_standard_library_sees_it() {
    let mut code: u32 = 0;
    while code <= 0x10FFFF {
        if let Some(c) = char::from_u32(code) {
            assert_eq!(char_is_whitespace(c), c.is_whitespace());
        }
        code += 1;
    }
    assert!(str_is_blank(""));
    assert!(str_is_blank(" \t\r\n\u{2003}"));
    assert!(!str_is_blank("  x "));
}

#[test]
fn searching_a_string() {
    assert!(contains("https://example.com", "://"));
    assert!(contains("://", "://"));
    assert!(contains("a://", "://"));
    assert!(!contains("a:/b/c", "://"));
    assert!(!contains(":/", "://"));
    assert!(!contains("", "://"));
    assert!(contains("", ""));
    assert!(contains("abc", ""));
    assert!(contains("aab", "ab"));
}

#[test]
fn reading_unsigned_integers() {
    assert_eq!(parse_u128("0"), Some(0));
    assert_eq!(parse_u128("007"), Some(7));
    assert_eq!(parse_u128("+15"), Some(15));
    assert_eq!(parse_u128("1612137600000"), Some(1612137600000));
    assert_eq!(
        parse_u128("340282366920938463463374607431768211455"),
        Some(340282366920938463463374607431768211455)
    );
    assert_eq!(parse_u128("340282366920938463463374607431768211456"), None);
    assert_eq!(parse_u128("3402823669209384634633746074317682114550"), None);
    assert_eq!(parse_u128(""), None);
    assert_eq!(parse_u128("+"), None);
    assert_eq!(parse_u128("-1"), None);
    assert_eq!(parse_u128("++1"), None);
    assert_eq!(parse_u128("1 "), None);
    assert_eq!(parse_u128("12a"), None);
    assert_eq!(parse_u128("٣"), None);
    for text in ["42", "+0", "", "+", "1e3", "99999999999999999999999999999999999999999"] {
        assert_eq!(parse_u128(text), text.parse::<u128>().ok());
    }
}

#[test]
fn writing_unsigned_integers() {
    assert_eq!(u64_to_string(0), "0");
    assert_eq!(u64_to_string(9), "9");
    assert_eq!(u64_to_string(10), "10");
    assert_eq!(u64_to_string(1234567890), "1234567890");
    assert_eq!(u64_to_string(u64::MAX), "18446744073709551615");
}

#[test]
fn the_characters_of_a_string() {
    assert_eq!(string_chars("héllo"), vec!['h', 'é', 'l', 'l', 'o']);
    assert_eq!(string_chars(""), Vec::<char>::new());
}

#[test]
fn a_map_keeps_the_last_value_of_a_key() {
    let mut map: StringMap<String> = StringMap::new();
    assert_eq!(map.len(), 0);
    assert!(map.get("a").is_none());
    map.insert("a".to_string(), "1".to_string());
    map.insert("b".to_string(), "2".to_string());
    map.insert("a".to_string(), "3".to_string());
    assert_eq!(map.len(), 2);
    assert_eq!(map.get("a").unwrap(), "3");
    assert_eq!(map.get("b").unwrap(), "2");
    assert!(map.get("c").is_none());
    assert_eq!(map.key_at(0), "a");
    assert_eq!(map.value_at(0), "3");
    assert_eq!(map.key_at(1), "b");
    assert_eq!(map.value_at(1), "2");

    let copy = map.clone();
    map.insert("b".to_string(), "4".to_string());
    assert_eq!(copy.len(), 2);
    assert_eq!(copy.get("b").unwrap(), "2");
    assert_eq!(map.get("b").unwrap(), "4");
}
