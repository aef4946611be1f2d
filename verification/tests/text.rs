use layout_optimizer::text::{
    chars_of, decimal_of, is_blank, is_whitespace, lines_of, remove_char, remove_pair, spells,
    split_at_char, words_of,
};

fn chars(s: &str) -> Vec<char> {
    s.chars().collect()
}

fn strings(v: Vec<Vec<char>>) -> Vec<String> {
    v.into_iter().map(|p| p.into_iter().collect()).collect()
}

#[test]
fn white_space_is_what_the_standard_library_says() {
    for n in 0u32..0x11000 {
        if let Some(c) = char::from_u32(n) {
            assert_eq!(is_whitespace(c), c.is_whitespace(), "U+{:04X}", n);
        }
    }
}

#[test]
fn characters_come_in_order() {
    assert_eq!(chars_of("a\u{e9}\u{1f600}z"), vec!['a', '\u{e9}', '\u{1f600}', 'z']);
    assert_eq!(chars_of(""), Vec::<char>::new());
}

#[test]
fn splitting_keeps_empty_pieces() {
    assert_eq!(strings(split_at_char(&chars("a_b__c_"), '_')), vec!["a", "b", "", "c", ""]);
    assert_eq!(strings(split_at_char(&chars(""), '_')), vec![""]);
    assert_eq!(strings(split_at_char(&chars("_"), '_')), vec!["", ""]);
    assert_eq!(strings(split_at_char(&chars("abc"), '_')), vec!["abc"]);
}

#[test]
fn lines_end_at_line_feeds() {
    for text in ["", "\n", "a", "a\n", "a\nb", "a\r\nb\r\n", "a\r", "a\r\r\n", "\r\n\n\nx\r", "a\n\n"] {
        let expected: Vec<String> = text.lines().map(String::from).collect();
        assert_eq!(strings(lines_of(&chars(text))), expected, "{:?}", text);
    }
}

#[test]
fn words_are_stretches_without_white_space() {
    for text in ["", "  ", "a", " a b ", "ab\tcd\n ef", "\u{a0}x\u{3000}y", "one"] {
        let expected: Vec<String> = text.split_whitespace().map(String::from).collect();
        assert_eq!(strings(words_of(&chars(text))), expected, "{:?}", text);
    }
}

#[test]
fn blank_lines_hold_white_space_only() {
    assert!(is_blank(&chars("")));
    assert!(is_blank(&chars(" \t\r\u{a0}")));
    assert!(!is_blank(&chars("  .  ")));
}

#[test]
fn removal_of_characters_and_pairs() {
    assert_eq!(remove_char(&chars("\ta\t\tb\t"), '\t'), chars("ab"));
    assert_eq!(remove_pair(&chars("a\\tb\\\\tt\\"), '\\', 't'), chars("ab\\t\\"));
    assert_eq!(remove_pair(&chars("aab"), 'a', 'b'), chars("a"));
    assert_eq!(remove_pair(&chars("abab"), 'a', 'b'), chars(""));
    assert_eq!(remove_pair(&chars("aabb"), 'a', 'b'), chars("ab"));
}

#[test]
fn numbers_in_decimal() {
    assert_eq!(decimal_of(0), chars("0"));
    assert_eq!(decimal_of(7), chars("7"));
    assert_eq!(decimal_of(10), chars("10"));
    assert_eq!(decimal_of(40960), chars("40960"));
    assert_eq!(decimal_of(usize::MAX), chars(&usize::MAX.to_string()));
}

#[test]
fn spelling_compares_all_characters() {
    assert!(spells(&chars("SFT"), "SFT"));
    assert!(!spells(&chars("SFT"), "SF"));
    assert!(!spells(&chars("SFT"), "SFX"));
    assert!(spells(&chars(""), ""));
}
