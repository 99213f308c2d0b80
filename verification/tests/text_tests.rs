use gladesync::text::{
    chars_of, concat3, contains_char, format_u16, keyword_eq, last_char_is, parse_u16,
    prefix_before, replace_char, split_words, string_from_chars, trim, trim_char,
};

#[test]
fn trim_removes_unicode_whitespace_at_both_ends() {
    assert_eq!(trim("  \t hello world \n"), "hello world");
    assert_eq!(trim("\u{3000}x\u{00A0}"), "x");
    assert_eq!(trim("   "), "");
    assert_eq!(trim(""), "");
}

#[test]
fn split_words_matches_split_whitespace() {
    let samples = ["host 7777", "  join   1.2.3.4:99  extra ", "", "   ", "a\u{2003}b\tc"];
    for s in samples.iter() {
        let expected: Vec<String> = s.split_whitespace().map(|w| w.to_string()).collect();
        assert_eq!(split_words(s), expected);
    }
}

#[test]
fn keyword_match_ignores_ascii_case_only() {
    assert!(keyword_eq("HoSt", "host"));
    assert!(keyword_eq("host", "host"));
    assert!(!keyword_eq("hostx", "host"));
    assert!(!keyword_eq("h\u{00D3}st", "host"));
}

#[test]
fn parse_u16_agrees_with_std() {
    let samples = ["7777", "+80", "0", "00080", "65535", "65536", "-1", "+", "", "12a", " 1", "99999999999"];
    for s in samples.iter() {
        assert_eq!(parse_u16(s), s.parse::<u16>().ok(), "input {:?}", s);
    }
}

#[test]
fn format_u16_is_decimal_and_reads_back() {
    for n in [0u16, 7, 10, 7777, 65535].iter() {
        let text = format_u16(*n);
        assert_eq!(text, n.to_string());
        assert_eq!(parse_u16(&text), Some(*n));
    }
}

#[test]
fn small_string_helpers() {
    assert!(contains_char("1.2.3.4:5", ':'));
    assert!(!contains_char("localhost", ':'));
    assert_eq!(prefix_before("10.0.0.2:51234", ':'), "10.0.0.2");
    assert_eq!(prefix_before("no-port", ':'), "no-port");
    assert_eq!(prefix_before("", ':'), "");
    assert_eq!(replace_char("a\\b\\c", '\\', '/'), "a/b/c");
    assert!(last_char_is("dir/", '/'));
    assert!(!last_char_is("", '/'));
    assert_eq!(trim_char("\0\0abc\0", '\0'), "abc");
    assert_eq!(concat3("a", "b", "c"), "abc");
    assert_eq!(string_from_chars(&chars_of("héllo")), "héllo");
}
