use corpus_stats::text::{
    chars_of, fold_text, is_space_char, replace, same_text, stands_at, text_between, trim,
    trim_bounds,
};

#[test]
fn trim_cuts_white_space_at_both_ends() {
    assert_eq!(trim("  a b \n"), "a b");
    assert_eq!(trim("a"), "a");
    assert_eq!(trim(""), "");
    assert_eq!(trim(" \t\r\n"), "");
    assert_eq!(trim("\u{a0}x\u{3000}"), "x");
    assert_eq!(trim("\u{200b}x"), "\u{200b}x");
}

#[test]
fn trim_agrees_with_the_standard_trim() {
    for s in ["", " ", "a", " a", "a ", "  a  b  ", "\n\ta\u{2003}", "\u{85}\u{1680}z\u{2028}\u{2029}", "é ", " 漢字 "] {
        assert_eq!(trim(s), s.trim());
    }
}

#[test]
fn white_space_is_the_unicode_property() {
    for n in 0u32..0x3100 {
        if let Some(c) = char::from_u32(n) {
            assert_eq!(is_space_char(c), c.is_whitespace(), "U+{n:04X}");
        }
    }
    assert!(!is_space_char('\u{feff}'));
    assert!(!is_space_char('\u{10ffff}'));
}

#[test]
fn trim_bounds_frame_the_kept_characters() {
    let chars: Vec<char> = "  ab c ".chars().collect();
    assert_eq!(trim_bounds(&chars), (2, 6));
    assert_eq!(text_between(&chars, 2, 6), "ab c");
    let blank: Vec<char> = "   ".chars().collect();
    let (from, to) = trim_bounds(&blank);
    assert_eq!(from, to);
    assert_eq!(trim_bounds(&Vec::new()), (0, 0));
}

#[test]
fn replace_finds_matches_left_to_right_without_overlap() {
    assert_eq!(replace("aaa", "aa", "b"), "ba");
    assert_eq!(replace("abcabc", "bc", "-"), "a-a-");
    assert_eq!(replace("abc", "x", "y"), "abc");
    assert_eq!(replace("abc", "abcd", "y"), "abc");
    assert_eq!(replace("abc", "abc", ""), "");
    assert_eq!(replace("", "a", "b"), "");
    assert_eq!(replace("aXbXc", "X", "XX"), "aXXbXXc");
    assert_eq!(replace("ééé", "é", "e"), "eee");
}

#[test]
fn replace_leaves_the_text_alone_for_an_empty_pattern() {
    assert_eq!(replace("abc", "", "-"), "abc");
    assert_eq!(replace("", "", "-"), "");
}

#[test]
fn replace_agrees_with_the_standard_replace() {
    for (text, from, to) in [
        ("hello world", "o", "0"),
        ("aaaa", "aa", "a"),
        ("abababab", "aba", "x"),
        ("{\"confidence:\"0.5}", "confidence:\"", "confidence\":"),
        ("no match", "zz", "y"),
        ("tail match xx", "xx", ""),
    ] {
        assert_eq!(replace(text, from, to), text.replace(from, to));
    }
}

#[test]
fn stands_at_compares_a_window() {
    let chars: Vec<char> = "abcabc".chars().collect();
    let pattern: Vec<char> = "bc".chars().collect();
    assert!(stands_at(&chars, 1, &pattern));
    assert!(stands_at(&chars, 4, &pattern));
    assert!(!stands_at(&chars, 0, &pattern));
    assert!(!stands_at(&chars, 2, &pattern));
    assert!(stands_at(&chars, 6, &Vec::new()));
}

#[test]
fn characters_are_copied_and_folded() {
    assert_eq!(chars_of("aé漢"), vec!['a', 'é', '漢']);
    assert!(chars_of("").is_empty());
    assert_eq!(fold_text("Hello, World! É9"), "hello  world    ");
    assert_eq!(fold_text("AZaz@[`{"), "azaz    ");
}

#[test]
fn texts_are_compared_character_by_character() {
    assert!(same_text("", ""));
    assert!(same_text("www", "www"));
    assert!(same_text("é漢", "é漢"));
    assert!(!same_text("www", "wwww"));
    assert!(!same_text("www", "ww"));
    assert!(!same_text("www", "wwW"));
    assert!(!same_text("e\u{301}", "é"));
    assert!(!same_text("", " "));
}
