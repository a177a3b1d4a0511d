use gd_server::numbers::{decimal, hex, parse_u32, signed_decimal};
use gd_server::text::{
    chars_of, find_from, has_prefix, is_white_space, lower_char, lowercase_is, opt_is, same_text,
    split_lines, starts_with_at, strip_suffix, text_of, to_lower, trim,
};
use gd_server::text_map::TextMap;
use gd_server::text_order::{comes_before, insert_sorted, sorted_union};

#[test]
fn numbers_are_written_in_base_ten_and_sixteen() {
    assert_eq!(decimal(0), "0");
    assert_eq!(decimal(u64::MAX), "18446744073709551615");
    assert_eq!(signed_decimal(-12), "-12");
    assert_eq!(signed_decimal(i64::MIN), "-9223372036854775808");
    assert_eq!(hex(255, 16), "00000000000000ff");
    assert_eq!(hex(u64::MAX, 16), "ffffffffffffffff");
}

#[test]
fn numbers_are_read_back() {
    assert_eq!(parse_u32(&decimal(4294967295)), Some(u32::MAX));
    assert_eq!(parse_u32("4294967296"), None);
    assert_eq!(parse_u32("+7"), Some(7));
    assert_eq!(parse_u32("007"), Some(7));
    for text in ["", "+", "-1", "1x", " 1"] {
        assert_eq!(parse_u32(text), None, "{text:?}");
    }
}

#[test]
fn text_is_cut_by_characters() {
    let chars = chars_of("a\u{e9}\u{1f600}");
    assert_eq!(chars, ['a', '\u{e9}', '\u{1f600}']);
    assert_eq!(text_of(&chars, 1, 3), "\u{e9}\u{1f600}");
    assert_eq!(find_from(&chars, 0, '\u{e9}'), 1);
    assert_eq!(find_from(&chars, 2, 'a'), 3);
    assert!(starts_with_at(&chars, 1, &chars_of("\u{e9}")));
    assert!(!starts_with_at(&chars, 2, &chars_of("\u{e9}")));
}

#[test]
fn only_ascii_letters_are_lowered() {
    assert_eq!(to_lower("AbZ\u{c9}9"), "abz\u{c9}9");
    assert_eq!(lower_char('Q'), 'q');
    assert!(lowercase_is("Doc_CLASSES", "doc_classes"));
    assert!(!lowercase_is("doc", "doc_classes"));
}

#[test]
fn texts_are_compared_and_trimmed() {
    assert!(same_text("ab", "ab") && !same_text("ab", "ac"));
    assert!(opt_is(&Some("x".to_string()), "x") && !opt_is(&None, "x"));
    assert_eq!(trim("\t a b\u{3000}\n"), "a b");
    assert_eq!(trim("  "), "");
    assert!(is_white_space('\u{a0}') && !is_white_space('\u{200b}'));
    assert!(has_prefix("uid://a", "uid://") && !has_prefix("uid", "uid://"));
    assert_eq!(strip_suffix("a.gd.uid", ".uid"), Some("a.gd".to_string()));
    assert_eq!(strip_suffix("a.gd", ".uid"), None);
}

#[test]
fn white_space_is_that_of_unicode() {
    for n in 0..0x11_0000u32 {
        if let Some(c) = char::from_u32(n) {
            assert_eq!(is_white_space(c), c.is_whitespace(), "{n:x}");
        }
    }
}

#[test]
fn lines_end_at_line_feeds() {
    for text in ["", "a", "a\n", "a\nb", "a\r\nb\r\n", "\n\n", "a\rb", "a\r"] {
        let expected: Vec<&str> = text.lines().collect();
        assert_eq!(split_lines(text), expected, "{text:?}");
    }
}

#[test]
fn a_map_keeps_the_last_value_of_a_key() {
    let mut map: TextMap<u32> = TextMap::new();
    assert_eq!(map.insert("a".to_string(), 1), None);
    assert_eq!(map.insert("a".to_string(), 2), Some(1));
    assert_eq!(map.insert("b".to_string(), 3), None);
    assert_eq!(map.get("a"), Some(&2));
    assert!(map.contains_key("b") && !map.contains_key("c"));
    let mut keys = map.keys();
    keys.sort();
    assert_eq!(keys, ["a", "b"]);
    assert_eq!(map.remove("a"), Some(2));
    assert_eq!(map.remove("a"), None);
    map.remove_all(&vec!["b".to_string(), "z".to_string()]);
    assert!(map.keys().is_empty());
}

#[test]
fn texts_are_ordered_by_their_characters() {
    let mut sample = vec!["b", "a", "ab", "", "\u{e9}", "\u{1f600}", "\u{ffff}"];
    for a in &sample {
        for b in &sample {
            assert_eq!(comes_before(a, b), a < b, "{a:?} {b:?}");
        }
    }
    let mut list: Vec<String> = Vec::new();
    for text in &sample {
        insert_sorted(&mut list, text);
        insert_sorted(&mut list, text);
    }
    sample.sort();
    assert_eq!(list, sample);
    let union = sorted_union(&vec!["b".to_string()], &vec!["a".to_string(), "b".to_string()]);
    assert_eq!(union, ["a", "b"]);
}

#[test]
fn spellings_of_a_path_have_one_form() {
    for path in ["c:\\a\\b.gd", "C:/a/b.gd", "c:/a/b.gd", "C:\\a/b.gd"] {
        assert_eq!(gd_server::path::normalize_path(path), "C:/a/b.gd");
    }
    for path in ["/a/b.gd", "", "1:/a", "a"] {
        assert_eq!(gd_server::path::normalize_path(path), path);
    }
}
