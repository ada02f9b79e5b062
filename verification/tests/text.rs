use fox_tools::text::{
    chars_of, find_text, has_char, has_prefix, has_suffix, remove_char, same_text, split_words,
    to_ascii_lower, trim, trim_end, CharClass,
};

#[test]
fn white_space_is_that_of_char() {
    for code in 0..=0x10ffffu32 {
        if let Some(c) = char::from_u32(code) {
            assert_eq!(CharClass::WhiteSpace.holds(c), c.is_whitespace(), "{code:x}");
        }
    }
}

#[test]
fn characters_come_in_order() {
    assert_eq!(chars_of("aé你"), vec!['a', 'é', '你']);
    assert!(chars_of("").is_empty());
}

#[test]
fn trimming_matches_str() {
    for s in ["", " ", "  a b \t\n", "\u{3000}你好\u{2028}", "ab", "\u{85}x\u{a0}", " \r\n"] {
        assert_eq!(trim(s, CharClass::WhiteSpace), s.trim());
        let ends: [char; 2] = ['\r', '\n'];
        assert_eq!(trim_end(s, CharClass::LineEnd), s.trim_end_matches(ends));
        let once = trim(s, CharClass::WhiteSpace);
        assert_eq!(trim(once, CharClass::WhiteSpace), once);
    }
    assert_eq!(trim("\"'a b'\"", CharClass::Quote), "a b");
    assert_eq!(trim("'''", CharClass::Quote), "");
    assert_eq!(trim_end("line\r\n\n\r", CharClass::LineEnd), "line");
    assert_eq!(trim_end("line\r\n ", CharClass::LineEnd), "line\r\n ");
}

#[test]
fn words_match_split_whitespace() {
    for s in ["", "  ", "a", " a  b ", "Jan  5 2025", "\u{3000}x\u{2003}y\tz\n"] {
        let expected: Vec<&str> = s.split_whitespace().collect();
        assert_eq!(split_words(s), expected);
    }
}

#[test]
fn the_first_place_is_found() {
    assert_eq!(find_text("abcabc", "bc"), Some(1));
    assert_eq!(find_text("你好世界", "世界"), Some(2));
    assert_eq!(find_text("aaab", "aab"), Some(1));
    assert_eq!(find_text("abc", "abcd"), None);
    assert_eq!(find_text("abc", "x"), None);
    assert_eq!(find_text("abc", ""), Some(0));
    assert_eq!(find_text("", ""), Some(0));
    assert_eq!(find_text("abc", "c"), Some(2));
}

#[test]
fn prefixes_and_suffixes() {
    assert!(has_prefix("/dev/tty.usb", "/dev/tty."));
    assert!(!has_prefix("/dev/cu.usb", "/dev/tty."));
    assert!(!has_prefix("/dev", "/dev/tty."));
    assert!(has_suffix("x._http._tcp.local", "_http._tcp.local"));
    assert!(!has_suffix("x._http._tcp.local.", "_http._tcp.local"));
    assert!(has_prefix("a", "") && has_suffix("a", ""));
}

#[test]
fn single_characters() {
    assert!(has_char("12:34", ':'));
    assert!(!has_char("1234", ':'));
    assert_eq!(remove_char("AA:BB:CC", ':'), "AABBCC");
    assert_eq!(remove_char(":::", ':'), "");
    assert_eq!(remove_char("abc", ':'), "abc");
    assert_eq!(to_ascii_lower("YeS ÄÉ Zz@["), "YeS ÄÉ Zz@[".to_ascii_lowercase());
    assert!(same_text("ab", "ab"));
    assert!(!same_text("ab", "aB"));
    assert!(!same_text("ab", "abc"));
}
