use corpus_stats::sentence::{normalize, split_words, squeeze, trigrams};

#[test]
fn normal_form_is_lower_case_letters_and_single_spaces() {
    assert_eq!(normalize("Hello,  World!"), "hello world ");
    assert_eq!(normalize("Molo"), "molo");
    assert_eq!(normalize("  a\t\tb  "), " a b ");
    assert_eq!(normalize("e-mail 2 u"), "e mail u");
    assert_eq!(normalize("ÀB ç d"), " b d");
    assert_eq!(normalize(""), "");
    assert_eq!(normalize("1234"), " ");
}

#[test]
fn normal_form_is_stable() {
    for s in ["Hello,  World!", "  a\t\tb  ", "x", "", "A.B.C"] {
        let once = normalize(s);
        assert_eq!(normalize(&once), once);
    }
}

#[test]
fn words_are_runs_without_white_space() {
    assert_eq!(split_words("hello world "), vec!["hello", "world"]);
    assert_eq!(split_words(" a b "), vec!["a", "b"]);
    assert_eq!(split_words("one"), vec!["one"]);
    assert_eq!(split_words("a\u{a0}b\tc\nd"), vec!["a", "b", "c", "d"]);
    assert!(split_words("").is_empty());
    assert!(split_words("   ").is_empty());
}

#[test]
fn trigrams_are_windows_between_markers() {
    assert_eq!(trigrams("ab"), vec!["$ab", "ab."]);
    assert_eq!(trigrams("a"), vec!["$a."]);
    assert_eq!(trigrams("a b"), vec!["$a ", "a b", " b."]);
    assert_eq!(trigrams("molo"), vec!["$mo", "mol", "olo", "lo."]);
    assert!(trigrams("").is_empty());
}

#[test]
fn a_text_has_as_many_trigrams_as_characters() {
    for s in ["", "a", "ab", "hello world ", "ndiyabulela kakhulu"] {
        assert_eq!(trigrams(s).len(), s.chars().count());
    }
}

#[test]
fn runs_of_white_space_are_squeezed_into_one_space() {
    assert_eq!(squeeze("a \t\n b\u{a0}\u{a0}c"), "a b c");
    assert_eq!(squeeze("  lead and trail \r\n"), " lead and trail ");
    assert_eq!(squeeze("\u{2003}\u{3000}"), " ");
    assert_eq!(squeeze("no-runs"), "no-runs");
    assert_eq!(squeeze("a\u{200b}b"), "a\u{200b}b");
    assert_eq!(squeeze("$1 \\s+"), "$1 \\s+");
    assert_eq!(squeeze(""), "");
}
