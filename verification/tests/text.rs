use chud::text::{
    chars_of, decode_utf16_lossy, parse_i64, replace_char, replace_first, same_text, to_ascii_lower,
    to_hex_lower, trim, white_space,
};

#[test]
fn chars_come_in_order() {
    assert_eq!(chars_of(""), Vec::<char>::new());
    assert_eq!(chars_of("aé\u{1F600}"), vec!['a', 'é', '\u{1F600}']);
}

#[test]
fn text_is_compared_by_characters() {
    assert!(same_text("", ""));
    assert!(same_text("aé", "aé"));
    assert!(!same_text("a", "ab"));
    assert!(!same_text("a", "A"));
}

#[test]
fn only_the_leftmost_occurrence_is_replaced() {
    let cases = vec![
        ("https://127.0.0.1:1", "https", "wss"),
        ("https://https", "https", "wss"),
        ("httphttps", "https", "wss"),
        ("http://x", "https", "wss"),
        ("", "https", "wss"),
        ("abc", "", "x"),
        ("", "", "x"),
        ("aab", "ab", ""),
        ("ééa", "éa", "ü"),
    ];
    for (s, pat, with) in cases {
        assert_eq!(replace_first(s, pat, with), s.replacen(pat, with, 1));
    }
    assert_eq!(replace_first("httphttps", "https", "wss"), "httpwss");
}

#[test]
fn every_occurrence_of_a_character_is_replaced() {
    assert_eq!(replace_char("a\\b\\c", '\\', '/'), "a/b/c");
    assert_eq!(replace_char("", '\\', '/'), "");
    assert_eq!(replace_char("a/b", '\\', '/'), "a/b");
}

#[test]
fn only_ascii_letters_are_lowered() {
    for s in vec!["ZIP", "Fantome", "", "ÀÉ", "aZ09@[`{"] {
        assert_eq!(to_ascii_lower(s), s.to_ascii_lowercase());
    }
    assert_eq!(to_ascii_lower("FanTome"), "fantome");
    assert_eq!(to_ascii_lower("É"), "É");
}

#[test]
fn decimal_integers_are_read_as_std_reads_them() {
    let cases = vec![
        "", "+", "-", "0", "-0", "+0", "7", "266000", "-12", "+12", "0012", " 1", "1 ", "1_0", "0x1",
        "1.0", "--1", "+-1", "9223372036854775807", "9223372036854775808", "-9223372036854775808",
        "-9223372036854775809", "99999999999999999999999999999999999999999999999999",
        "00000000000000000000000000000000000000000000000001", "12a",
        "99999999999999999999999999999999999999999999999999a", "١",
    ];
    for s in cases {
        assert_eq!(parse_i64(s), s.parse::<i64>().ok(), "{:?}", s);
    }
    assert_eq!(parse_i64("-9223372036854775808"), Some(i64::MIN));
    assert_eq!(parse_i64("9223372036854775808"), None);
}

#[test]
fn bytes_are_written_in_lower_case_hex() {
    assert_eq!(to_hex_lower(&[]), "");
    assert_eq!(to_hex_lower(&[0x00, 0x0f, 0xa0, 0xff, 0x5b]), "000fa0ff5b");
}

#[test]
fn utf16_is_decoded_as_std_decodes_it() {
    let cases: Vec<Vec<u16>> = vec![
        vec![],
        vec![0x41, 0x42],
        vec![0xD83D, 0xDE00],
        vec![0xD83D],
        vec![0xDE00],
        vec![0xD83D, 0x41],
        vec![0xDE00, 0xD83D],
        vec![0xD83D, 0xD83D, 0xDE00],
        vec![0xD800, 0xDC00],
        vec![0xDBFF, 0xDFFF],
        vec![0xD7FF, 0xE000, 0xFFFF, 0],
    ];
    for units in cases {
        assert_eq!(decode_utf16_lossy(&units), String::from_utf16_lossy(&units));
    }
    assert_eq!(decode_utf16_lossy(&[0xD83D, 0xDE00]), "\u{1F600}");
    assert_eq!(decode_utf16_lossy(&[0xDE00, 0x41]), "\u{FFFD}A");
}

#[test]
fn white_space_is_what_std_takes_for_it() {
    for u in 0..0x110000u32 {
        if let Some(c) = char::from_u32(u) {
            assert_eq!(white_space(c), c.is_whitespace(), "{:x}", u);
        }
    }
}

#[test]
fn white_space_is_trimmed_at_both_ends() {
    for s in vec!["", " ", "\t\r\n", " a ", "a b", "\u{3000}a\u{2028}", "a", "  a b\u{a0}"] {
        assert_eq!(trim(s), s.trim());
    }
    assert_eq!(trim(" \tabc\n"), "abc");
}
