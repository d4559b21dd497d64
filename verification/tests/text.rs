use anup::text::{
    char_is_whitespace, contains, extension_of, format_two_digits, from_chars, has_suffix,
    parse_u32, replace_all, same_text, slice_to_string, to_chars, trim,
};
use std::path::Path;

#[test]
fn characters_go_back_and_forth() {
    let text = "añ→b";
    let chars = to_chars(text);
    assert_eq!(chars, vec!['a', 'ñ', '→', 'b']);
    assert_eq!(from_chars(&chars), text);
    assert_eq!(slice_to_string(&chars, 1, 3), "ñ→");
    assert_eq!(slice_to_string(&chars, 2, 2), "");
    assert_eq!(to_chars(""), Vec::<char>::new());
}

#[test]
fn white_space_is_what_std_takes_for_it() {
    for code in 0..=0x10FFFFu32 {
        if let Some(c) = char::from_u32(code) {
            assert_eq!(char_is_whitespace(c), c.is_whitespace(), "U+{:04X}", code);
        }
    }
}

#[test]
fn trim_removes_white_space_at_both_ends() {
    assert_eq!(trim("  a b  "), "a b");
    assert_eq!(trim("\t\n a\u{3000}"), "a");
    assert_eq!(trim("a"), "a");
    assert_eq!(trim(""), "");
    assert_eq!(trim(" \u{a0} "), "");
    assert_eq!(trim("_a_"), "_a_");
    for text in ["  x", "x  ", " \r\n", "\u{2003}mid dle\u{205f}", "\u{200b}zero\u{200b}"] {
        assert_eq!(trim(text), text.trim());
    }
}

#[test]
fn contains_finds_a_part_anywhere() {
    assert!(contains("(?P<title>.+)", "(?P<title>"));
    assert!(contains("x(?P<title>", "(?P<title>"));
    assert!(!contains("(?P<titl>", "(?P<title>"));
    assert!(!contains("(?P<title", "(?P<title>"));
    assert!(contains("abc", ""));
    assert!(contains("", ""));
    assert!(!contains("", "a"));
    assert!(contains("aab", "ab"));
}

#[test]
fn suffixes() {
    assert!(has_suffix("episode.mkv.part", ".part"));
    assert!(has_suffix(".part", ".part"));
    assert!(!has_suffix("part", ".part"));
    assert!(!has_suffix("episode.part.mkv", ".part"));
    assert!(has_suffix("abc", ""));
}

#[test]
fn same_text_compares_all_characters() {
    assert!(same_text("abc", "abc"));
    assert!(same_text("", ""));
    assert!(!same_text("abc", "abd"));
    assert!(!same_text("abc", "ab"));
    assert!(!same_text("ab", "abc"));
}

#[test]
fn replace_all_works_from_the_left() {
    assert_eq!(replace_all("a.b.c", ".", " "), "a b c");
    assert_eq!(replace_all("aaa", "aa", "b"), "ba");
    assert_eq!(replace_all("abc", "abcd", "x"), "abc");
    assert_eq!(replace_all("abc", "", "x"), "abc");
    assert_eq!(replace_all("", "a", "x"), "");
    assert_eq!(replace_all("{title}-{title}", "{title}", "T"), "T-T");
    for (text, from, to) in [("a -b - c", " -", ":"), ("xxxx", "xx", "xxx"), ("abab", "ab", "")] {
        assert_eq!(replace_all(text, from, to), text.replace(from, to));
    }
}

#[test]
fn numbers_are_read_as_std_reads_them() {
    assert_eq!(parse_u32("0"), Some(0));
    assert_eq!(parse_u32("01"), Some(1));
    assert_eq!(parse_u32("+7"), Some(7));
    assert_eq!(parse_u32("4294967295"), Some(4294967295));
    assert_eq!(parse_u32("4294967296"), None);
    assert_eq!(parse_u32("99999999999999999999999"), None);
    assert_eq!(parse_u32(""), None);
    assert_eq!(parse_u32("+"), None);
    assert_eq!(parse_u32("-1"), None);
    assert_eq!(parse_u32("1a"), None);
    assert_eq!(parse_u32(" 1"), None);
    assert_eq!(parse_u32("١٢"), None);
    for text in ["000000000000000012", "++1", "+-1", "12+", "0x10", "4294967290", "429496729a"] {
        assert_eq!(parse_u32(text), text.parse::<u32>().ok(), "{}", text);
    }
}

#[test]
fn two_digits_at_least() {
    assert_eq!(format_two_digits(0), "00");
    assert_eq!(format_two_digits(1), "01");
    assert_eq!(format_two_digits(9), "09");
    assert_eq!(format_two_digits(10), "10");
    assert_eq!(format_two_digits(99), "99");
    assert_eq!(format_two_digits(100), "100");
    assert_eq!(format_two_digits(4294967295), "4294967295");
    for n in [5u32, 42, 1000, 65536] {
        assert_eq!(format_two_digits(n), format!("{:02}", n));
    }
}

#[test]
fn extensions_keep_their_dot() {
    assert_eq!(extension_of("ep13.mkv"), ".mkv");
    assert_eq!(extension_of("a.b.c"), ".c");
    assert_eq!(extension_of("noext"), "");
    assert_eq!(extension_of(".hidden"), "");
    assert_eq!(extension_of(".hidden.txt"), ".txt");
    assert_eq!(extension_of("name."), ".");
    assert_eq!(extension_of(".."), "");
    assert_eq!(extension_of("."), "");
    assert_eq!(extension_of(""), "");
    assert_eq!(extension_of("..."), ".");
    assert_eq!(extension_of("..a"), ".a");
}

#[test]
fn extensions_are_those_of_std_for_file_names() {
    let names = [
        "ep13.mkv", "a.b.c", "noext", ".hidden", ".hidden.txt", "name.", "..", ".", "", "...",
        "..a", "[Group] Series - 01 [tag].mkv", "a b.mp4",
    ];
    for name in names {
        let expected = Path::new(name)
            .extension()
            .map_or(String::new(), |e| format!(".{}", e.to_string_lossy()));
        assert_eq!(extension_of(name), expected, "{:?}", name);
    }
}
