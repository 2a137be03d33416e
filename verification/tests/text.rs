use httpreq::text::{
    char_is_whitespace, chars_of, find_byte, find_char, split_on, starts_with, substring, trimmed,
};

#[test]
fn chars_of_gives_the_characters() {
    assert_eq!(chars_of(""), Vec::<char>::new());
    assert_eq!(chars_of("a\u{e9}\u{1F600}"), vec!['a', '\u{e9}', '\u{1F600}']);
}

#[test]
fn find_char_gives_the_first_position_or_the_length() {
    let v = chars_of("a:b:c");
    assert_eq!(find_char(&v, 0, ':'), 1);
    assert_eq!(find_char(&v, 1, ':'), 1);
    assert_eq!(find_char(&v, 2, ':'), 3);
    assert_eq!(find_char(&v, 4, ':'), 5);
    assert_eq!(find_char(&v, 5, ':'), 5);
    assert_eq!(find_char(&v, 0, 'x'), 5);
}

#[test]
fn find_byte_gives_the_first_position_or_the_length() {
    let v = b"ab\ncd\n".to_vec();
    assert_eq!(find_byte(&v, 0, 0x0A), 2);
    assert_eq!(find_byte(&v, 3, 0x0A), 5);
    assert_eq!(find_byte(&v, 6, 0x0A), 6);
    assert_eq!(find_byte(&v, 0, 0x00), 6);
}

#[test]
fn substring_counts_characters() {
    assert_eq!(substring("h\u{e9}llo", 1, 3), "\u{e9}l");
    assert_eq!(substring("abc", 0, 3), "abc");
    assert_eq!(substring("abc", 2, 2), "");
}

#[test]
fn split_gives_one_piece_more_than_separators() {
    assert_eq!(split_on("a b c", ' '), vec!["a", "b", "c"]);
    assert_eq!(split_on("abc", ' '), vec!["abc"]);
    assert_eq!(split_on("", ' '), vec![""]);
    assert_eq!(split_on(" ", ' '), vec!["", ""]);
    assert_eq!(split_on("a  b ", ' '), vec!["a", "", "b", ""]);
}

#[test]
fn split_agrees_with_the_standard_split() {
    for s in ["", " ", "  ", "GET / HTTP/1.1", " lead", "trail ", "a\u{e9} \u{1F600} b", "a\tb c"] {
        let expected: Vec<String> = s.split(' ').map(|p| p.to_string()).collect();
        assert_eq!(split_on(s, ' '), expected);
    }
}

#[test]
fn starts_with_compares_the_leading_characters() {
    assert!(starts_with(&chars_of("http://x"), "http://"));
    assert!(starts_with(&chars_of("http://"), "http://"));
    assert!(starts_with(&chars_of("anything"), ""));
    assert!(!starts_with(&chars_of("http:/"), "http://"));
    assert!(!starts_with(&chars_of("https://x"), "http://"));
    assert!(!starts_with(&chars_of(""), "h"));
}

#[test]
fn whitespace_characters() {
    for c in [' ', '\t', '\n', '\u{b}', '\u{c}', '\r', '\u{85}', '\u{a0}', '\u{1680}', '\u{2000}',
        '\u{200a}', '\u{2028}', '\u{2029}', '\u{202f}', '\u{205f}', '\u{3000}'] {
        assert!(char_is_whitespace(c));
    }
    for c in ['a', '0', '\u{0}', '\u{8}', '\u{e}', '\u{1f}', '\u{200b}', '\u{feff}', '\u{180e}'] {
        assert!(!char_is_whitespace(c));
    }
}

#[test]
fn whitespace_agrees_with_the_standard_library() {
    let mut u: u32 = 0;
    while u <= 0x10FFFF {
        if let Some(c) = char::from_u32(u) {
            assert_eq!(char_is_whitespace(c), c.is_whitespace(), "{:x}", u);
        }
        u += 1;
    }
}

#[test]
fn trimmed_drops_surrounding_whitespace_only() {
    assert_eq!(trimmed("   bar  "), "bar");
    assert_eq!(trimmed("bar"), "bar");
    assert_eq!(trimmed(""), "");
    assert_eq!(trimmed(" \t\r\n"), "");
    assert_eq!(trimmed(" a b "), "a b");
    assert_eq!(trimmed("\u{3000}x\u{a0}"), "x");
}

#[test]
fn trimmed_agrees_with_the_standard_trim() {
    for s in ["", " ", "a", " a", "a ", "  a  b  ", "\t\u{2003}x y\u{85}\n", "\u{200b} z"] {
        assert_eq!(trimmed(s), s.trim());
    }
}
