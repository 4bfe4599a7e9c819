use thicket::text::{
    chars_of, comes_before, find_from, find_last, has_text, joined, same_text, text_between, trim,
};

#[test]
fn white_space_is_the_unicode_property() {
    let ranges: [(u32, u32); 10] = [
        (0x9, 0xd),
        (0x20, 0x20),
        (0x85, 0x85),
        (0xa0, 0xa0),
        (0x1680, 0x1680),
        (0x2000, 0x200a),
        (0x2028, 0x2029),
        (0x202f, 0x202f),
        (0x205f, 0x205f),
        (0x3000, 0x3000),
    ];
    for code in 0..=0x10ffffu32 {
        if let Some(c) = char::from_u32(code) {
            let listed = ranges.iter().any(|(from, to)| *from <= code && code <= *to);
            assert_eq!(c.is_whitespace(), listed, "{:x}", code);
        }
    }
}

#[test]
fn trim_drops_white_space_at_both_ends() {
    assert_eq!(trim(" \t\u{3000}a b\u{a0}\r\n"), "a b");
    assert_eq!(trim(""), "");
    assert_eq!(trim(" \n "), "");
    assert_eq!(trim("a"), "a");
    assert_eq!(trim("\u{200b}a"), "\u{200b}a");
}

#[test]
fn characters_are_cut_by_position() {
    let chars = chars_of("a\u{e9}\u{1f600}z");
    assert_eq!(chars, vec!['a', '\u{e9}', '\u{1f600}', 'z']);
    assert_eq!(text_between(&chars, 1, 3), "\u{e9}\u{1f600}");
    assert_eq!(text_between(&chars, 4, 4), "");
}

#[test]
fn texts_are_compared() {
    assert!(same_text("", ""));
    assert!(same_text("ab", "ab"));
    assert!(!same_text("ab", "abc"));
    assert!(!same_text("ab", "ac"));
}

#[test]
fn order_of_texts_is_that_of_strings() {
    let words = ["", "a", "aa", "ab", "b", "Z", "\u{e9}", "\u{ffff}", "\u{10000}"];
    for a in words {
        for b in words {
            assert_eq!(comes_before(a, b), a < b, "{:?} {:?}", a, b);
        }
    }
}

#[test]
fn needles_are_found() {
    let text = chars_of("abcabc");
    assert_eq!(find_from(&text, &chars_of("bc"), 0), Some(1));
    assert_eq!(find_from(&text, &chars_of("bc"), 2), Some(4));
    assert_eq!(find_from(&text, &chars_of("bc"), 5), None);
    assert_eq!(find_from(&text, &chars_of("bd"), 0), None);
    assert_eq!(find_from(&text, &chars_of(""), 6), Some(6));
    assert_eq!(find_from(&text, &chars_of(""), 7), None);
    assert_eq!(find_from(&text, &chars_of("abcabcd"), 0), None);
    assert_eq!(find_last(&text, 'c', 1), Some(4));
    assert_eq!(find_last(&text, 'a', 4), None);
    assert!(has_text("xyz", "yz"));
    assert!(!has_text("xyz", "zy"));
}

#[test]
fn texts_are_joined() {
    assert_eq!(joined("ab", "cd"), "abcd");
    assert_eq!(joined("", ""), "");
}
