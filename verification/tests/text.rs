use openwave::text::{
    chars_of, comes_before, contains_text, is_blank, numbered, push_decimal, same_text,
    sanitize_token, sanitize_uri, white_space, with_number,
};

#[test]
fn token_filter_keeps_token_characters() {
    assert_eq!(sanitize_token("a b\"c_-.9é"), "abc_-.9");
    assert_eq!(sanitize_token("AZaz09_-."), "AZaz09_-.");
    assert_eq!(sanitize_token("[`{/:@"), "");
    assert_eq!(sanitize_token(""), "");
}

#[test]
fn token_filter_twice_is_token_filter_once() {
    let once = sanitize_token("gain $(x) \u{1F600} 2");
    assert_eq!(sanitize_token(&once), once);
}

#[test]
fn uri_filter_drops_white_space_and_quotes() {
    assert_eq!(
        sanitize_uri("http://x y/\"z\"'\\\u{a0}\u{3000}ü#\t\n"),
        "http://xy/zü#"
    );
    let once = sanitize_uri("urn: a'b");
    assert_eq!(sanitize_uri(&once), once);
}

#[test]
fn white_space_is_that_of_unicode() {
    for n in 0..=0x10ffffu32 {
        if let Some(c) = char::from_u32(n) {
            assert_eq!(white_space(c), c.is_whitespace(), "{n:x}");
        }
    }
}

#[test]
fn blank_texts() {
    assert!(is_blank(""));
    assert!(is_blank(" \t\u{2003}\n"));
    assert!(!is_blank("  x "));
}

#[test]
fn decimal_numbers() {
    assert_eq!(numbered("n", 0), "n0");
    assert_eq!(numbered("", 10), "10");
    assert_eq!(numbered("Channel ", u64::MAX), "Channel 18446744073709551615");
    assert_eq!(with_number("<", 907, ">"), "<907>");
    let mut s = String::from("ä");
    push_decimal(&mut s, 42);
    assert_eq!(s, "ä42");
}

#[test]
fn order_of_texts_is_that_of_strings() {
    let list = ["", "a", "A", "ab", "b", "é", "zz", "\u{ffff}", "\u{10000}", "a\u{0}"];
    for a in list {
        for b in list {
            assert_eq!(comes_before(a, b), a < b, "{a:?} {b:?}");
            assert_eq!(same_text(a, b), a == b);
        }
    }
}

#[test]
fn search_in_texts() {
    let list = ["", "a", "aab", "ab", "No such object", "x: No such object\n", "éa", "aaab"];
    for hay in list {
        for needle in list {
            assert_eq!(contains_text(hay, needle), hay.contains(needle), "{hay:?} {needle:?}");
        }
    }
}

#[test]
fn characters_of_a_text() {
    assert_eq!(chars_of("aé\u{1F600}"), vec!['a', 'é', '\u{1F600}']);
}
