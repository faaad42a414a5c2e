use systemd_boot_conf::number::{parse_u32, u32_text};
use systemd_boot_conf::text::{
    char_is_blank, chars_of, same_text, split_ascii_whitespace, split_whitespace,
};

fn std_words(s: &str) -> Vec<String> {
    s.split_whitespace().map(String::from).collect()
}

fn std_ascii_words(s: &str) -> Vec<String> {
    s.split_ascii_whitespace().map(String::from).collect()
}

#[test]
fn blank_characters_are_those_of_std() {
    let mut code: u32 = 0;
    while code <= 0x11000 {
        if let Some(c) = char::from_u32(code) {
            assert_eq!(char_is_blank(c, false), c.is_whitespace(), "U+{:04X}", code);
            assert_eq!(char_is_blank(c, true), c.is_ascii_whitespace(), "U+{:04X}", code);
        }
        code += 1;
    }
}

#[test]
fn vertical_tab_is_unicode_space_only() {
    assert!(char_is_blank('\u{b}', false));
    assert!(!char_is_blank('\u{b}', true));
}

#[test]
fn chars_of_lists_every_character() {
    assert_eq!(chars_of(""), Vec::<char>::new());
    assert_eq!(chars_of("aé漢"), vec!['a', 'é', '漢']);
}

#[test]
fn same_text_compares_characters() {
    assert!(same_text("", ""));
    assert!(same_text("title", "title"));
    assert!(!same_text("title", "titles"));
    assert!(!same_text("titles", "title"));
    assert!(!same_text("title", "tjtle"));
    assert!(!same_text("options", "options:"));
    assert!(same_text("initrd=\\é", "initrd=\\é"));
}

#[test]
fn split_whitespace_gives_the_words_in_order() {
    assert_eq!(split_whitespace("title Pop OS"), vec!["title", "Pop", "OS"]);
    assert_eq!(split_whitespace("  linux \t /vmlinuz  "), vec!["linux", "/vmlinuz"]);
    assert_eq!(split_whitespace("word"), vec!["word"]);
}

#[test]
fn split_whitespace_of_blank_text_is_empty() {
    assert_eq!(split_whitespace(""), Vec::<String>::new());
    assert_eq!(split_whitespace(" \t\r\n"), Vec::<String>::new());
    assert_eq!(split_whitespace("\u{3000}\u{a0}"), Vec::<String>::new());
}

#[test]
fn split_whitespace_cuts_at_unicode_spaces() {
    assert_eq!(split_whitespace("a\u{a0}b\u{2003}c\u{3000}d\u{85}e"), vec!["a", "b", "c", "d", "e"]);
    assert_eq!(split_whitespace("a\u{b}b"), vec!["a", "b"]);
    assert_eq!(split_whitespace("a\u{200b}b"), vec!["a\u{200b}b"]);
}

#[test]
fn split_whitespace_agrees_with_std() {
    let samples = [
        "",
        " ",
        "a",
        " a",
        "a ",
        "a b",
        "a  b",
        "\ta\tb\t",
        "title  Some   Title  ",
        "é è\u{a0}ê",
        "x\u{1680}y\u{2000}z\u{200a}w\u{2028}v\u{2029}u\u{202f}t\u{205f}s",
        "options root=UUID=1234 ro quiet splash",
        "a\u{c}b\u{d}c\u{a}d\u{9}e\u{b}f",
    ];
    for s in samples {
        assert_eq!(split_whitespace(s), std_words(s), "{:?}", s);
        assert_eq!(split_ascii_whitespace(s), std_ascii_words(s), "{:?}", s);
    }
}

#[test]
fn split_ascii_whitespace_keeps_other_spaces() {
    assert_eq!(split_ascii_whitespace("a\u{a0}b c"), vec!["a\u{a0}b", "c"]);
    assert_eq!(split_ascii_whitespace("a\u{b}b"), vec!["a\u{b}b"]);
    assert_eq!(split_ascii_whitespace(" a \t b\n"), vec!["a", "b"]);
}

#[test]
fn parse_u32_reads_numerals() {
    assert_eq!(parse_u32("0"), Some(0));
    assert_eq!(parse_u32("5"), Some(5));
    assert_eq!(parse_u32("10"), Some(10));
    assert_eq!(parse_u32("007"), Some(7));
    assert_eq!(parse_u32("+12"), Some(12));
    assert_eq!(parse_u32("4294967295"), Some(4294967295));
    assert_eq!(parse_u32("0000000004294967295"), Some(4294967295));
}

#[test]
fn parse_u32_refuses_what_is_no_numeral() {
    assert_eq!(parse_u32(""), None);
    assert_eq!(parse_u32("+"), None);
    assert_eq!(parse_u32("-"), None);
    assert_eq!(parse_u32("-1"), None);
    assert_eq!(parse_u32("-0"), None);
    assert_eq!(parse_u32("++1"), None);
    assert_eq!(parse_u32("1+"), None);
    assert_eq!(parse_u32("abc"), None);
    assert_eq!(parse_u32("12a"), None);
    assert_eq!(parse_u32("1 2"), None);
    assert_eq!(parse_u32("1.5"), None);
    assert_eq!(parse_u32("٣"), None);
}

#[test]
fn parse_u32_refuses_what_does_not_fit() {
    assert_eq!(parse_u32("4294967296"), None);
    assert_eq!(parse_u32("4294967300"), None);
    assert_eq!(parse_u32("42949672950"), None);
    assert_eq!(parse_u32("99999999999999999999999999"), None);
    assert_eq!(parse_u32("4294967296x"), None);
}

#[test]
fn parse_u32_agrees_with_std() {
    let samples = [
        "", "+", "-", "0", "+0", "-0", "1", "+1", "-1", "09", "4294967295", "4294967296",
        "429496729", "4294967294", "5000000000", "18446744073709551616", "1_000", "0x10", " 1",
        "1 ", "１",
    ];
    for s in samples {
        assert_eq!(parse_u32(s), s.parse::<u32>().ok(), "{:?}", s);
    }
}

#[test]
fn u32_text_writes_numerals() {
    assert_eq!(u32_text(0), "0");
    assert_eq!(u32_text(7), "7");
    assert_eq!(u32_text(10), "10");
    assert_eq!(u32_text(105), "105");
    assert_eq!(u32_text(4294967295), "4294967295");
}

#[test]
fn u32_text_agrees_with_std_and_reads_back() {
    let samples = [0u32, 1, 9, 10, 11, 99, 100, 101, 1000, 65535, 65536, 999999999, 1000000000, u32::MAX - 1, u32::MAX];
    for n in samples {
        assert_eq!(u32_text(n), n.to_string());
        assert_eq!(parse_u32(&u32_text(n)), Some(n));
    }
}
