use corpus_stats::aggregate::{AggregationState, Progress, PROGRESS_STEP};
use corpus_stats::domain::Domain;
use corpus_stats::langid::{IsIsiXhosa, Verdict};
use corpus_stats::table::FrequencyTable;

#[test]
fn table_counts_and_keeps_first_seen_order() {
    let mut t = FrequencyTable::new();
    assert_eq!(t.len(), 0);
    assert_eq!(t.total(), 0);
    assert_eq!(t.get("a"), 0);
    t.bump("b");
    t.bump("a");
    t.bump("b");
    assert_eq!(t.get("a"), 1);
    assert_eq!(t.get("b"), 2);
    assert_eq!(t.get("c"), 0);
    assert_eq!(t.len(), 2);
    assert_eq!(t.total(), 3);
    assert_eq!(t.entries(), vec![("b".to_string(), 2), ("a".to_string(), 1)]);
    t.bump_each(&vec!["c".to_string(), "a".to_string(), "c".to_string()]);
    assert_eq!(
        t.entries(),
        vec![("b".to_string(), 2), ("a".to_string(), 2), ("c".to_string(), 2)]
    );
    assert_eq!(t.total(), 6);
}

#[test]
fn a_new_state_is_empty() {
    let state = AggregationState::new();
    assert_eq!(state.total_words(), 0);
    assert_eq!(state.deduped_words(), 0);
    assert_eq!(state.sentence_summary(), (0, 0));
    assert!(state.word_rows().is_empty());
    assert!(state.site_rows().is_empty());
    assert!(state.has_room(1000));
}

#[test]
fn a_sentence_counts_its_words_and_trigrams() {
    let mut state = AggregationState::new();
    assert_eq!(state.record_sentence("Molo, molo mhlaba!"), None);
    assert_eq!(state.total_words(), 3);
    assert_eq!(state.deduped_words(), 3);
    assert_eq!(state.word_count("molo"), 2);
    assert_eq!(state.word_count("mhlaba"), 1);
    assert_eq!(state.word_count("Molo"), 0);
    assert_eq!(state.deduped_word_count("molo"), 2);
    assert_eq!(state.trigram_count("$mo"), 1);
    assert_eq!(state.trigram_count("mol"), 2);
    assert_eq!(state.trigram_count("a ."), 1);
    assert_eq!(state.trigram_count("xyz"), 0);
    assert_eq!(state.sentence_summary(), (1, 1));
    assert_eq!(
        state.sentence_rows(),
        vec![("molo molo mhlaba ".to_string(), 1)]
    );
    let grams: usize = state.trigram_rows().iter().map(|row| row.1).sum();
    assert_eq!(grams, "molo molo mhlaba ".len());
}

#[test]
fn a_repeated_sentence_advances_only_the_tables_with_duplicates() {
    let mut state = AggregationState::new();
    state.record_sentence("Molo mhlaba");
    state.record_sentence("molo   MHLABA");
    state.record_sentence("molo");
    assert_eq!(state.sentence_summary(), (3, 2));
    assert_eq!(state.total_words(), 5);
    assert_eq!(state.deduped_words(), 3);
    assert_eq!(state.word_count("molo"), 3);
    assert_eq!(state.deduped_word_count("molo"), 2);
    assert_eq!(state.word_count("mhlaba"), 2);
    assert_eq!(state.deduped_word_count("mhlaba"), 1);
    assert_eq!(state.trigram_count("$mo"), 3);
    assert_eq!(state.deduped_trigram_count("$mo"), 2);
    assert_eq!(state.trigram_count("ba."), 2);
    assert_eq!(state.deduped_trigram_count("ba."), 1);
}

#[test]
fn deduplicated_counts_never_exceed_counts_with_duplicates() {
    let mut state = AggregationState::new();
    for s in ["a b c", "a b c", "c d", "a", "c d", "a b c", "e"] {
        state.record_sentence(s);
    }
    for (word, count) in state.deduped_word_rows() {
        assert!(count <= state.word_count(&word));
    }
    for (gram, count) in state.deduped_trigram_rows() {
        assert!(count <= state.trigram_count(&gram));
    }
    assert!(state.deduped_words() <= state.total_words());
    assert_eq!(state.word_count("a"), 4);
    assert_eq!(state.deduped_word_count("a"), 2);
}

#[test]
fn a_rejected_sentence_leaves_the_tables_unchanged() {
    let mut state = AggregationState::new();
    state.take_classified("molo mhlaba", IsIsiXhosa::Yes);
    let words = state.word_rows();
    let grams = state.trigram_rows();
    let sentences = state.sentence_rows();
    assert_eq!(state.take_classified("hello world", IsIsiXhosa::No), None);
    assert_eq!(state.take_classified("molo mhlaba", IsIsiXhosa::No), None);
    assert_eq!(state.word_rows(), words);
    assert_eq!(state.trigram_rows(), grams);
    assert_eq!(state.sentence_rows(), sentences);
    assert_eq!(state.deduped_word_rows(), words);
    assert_eq!(state.total_words(), 2);
    assert_eq!(state.word_count("hello"), 0);
    state.take_classified("hello world", IsIsiXhosa::Yes);
    assert_eq!(state.word_count("hello"), 1);
    assert_eq!(state.total_words(), 4);
}

#[test]
fn progress_is_due_when_a_multiple_of_the_step_is_passed() {
    let mut state = AggregationState::new();
    let half = "ab ".repeat(PROGRESS_STEP / 2);
    let almost = "ab ".repeat(PROGRESS_STEP / 2 - 1);
    assert_eq!(state.record_sentence(&almost), None);
    assert_eq!(state.record_sentence(&half), None);
    assert_eq!(state.total_words(), PROGRESS_STEP - 1);
    let row = state.record_sentence("cd").unwrap();
    assert_eq!(
        row,
        Progress {
            total_words: PROGRESS_STEP,
            deduped_words: PROGRESS_STEP,
            distinct_words: 2,
            distinct_trigrams: 7,
        }
    );
    assert_eq!(state.record_sentence("cd"), None);
    assert_eq!(state.record_sentence(&half), None);
    let row = state.record_sentence(&half).unwrap();
    assert_eq!(row.total_words, 2 * PROGRESS_STEP + 1);
    assert_eq!(row.deduped_words, PROGRESS_STEP);
}

#[test]
fn visits_are_counted_per_domain() {
    let mut state = AggregationState::new();
    let a = Domain::new("http://www.a.com/x").unwrap();
    let b = Domain::new("http://b.org").unwrap();
    state.record_visit(&a);
    state.record_visit(&b);
    state.record_visit(&a);
    assert_eq!(state.visits("a.com"), 2);
    assert_eq!(state.visits("b.org"), 1);
    assert_eq!(state.visits("www.a.com"), 0);
    assert_eq!(state.site_total(), 3);
    assert_eq!(state.site_rows(), vec![("a.com".to_string(), 2), ("b.org".to_string(), 1)]);
}

#[test]
fn a_verdict_below_the_threshold_or_in_another_language_counts_nothing() {
    let verdict = |language: &str, confidence: f64| Verdict {
        language: language.to_string(),
        confidence: confidence.to_bits(),
    };
    let mut state = AggregationState::new();
    assert_eq!(state.take_verdict("molo mhlaba", &verdict("isiXhosa", 0.49)), None);
    assert_eq!(state.take_verdict("molo mhlaba", &verdict("isiZulu", 0.99)), None);
    assert_eq!(state.take_verdict("molo mhlaba", &verdict("English", 0.1)), None);
    assert_eq!(state.total_words(), 0);
    assert!(state.word_rows().is_empty());
    assert!(state.trigram_rows().is_empty());
    assert!(state.sentence_rows().is_empty());
    state.take_verdict("molo mhlaba", &verdict("isiXhosa", 0.5));
    assert_eq!(state.total_words(), 2);
    assert_eq!(state.word_count("molo"), 1);
    assert_eq!(state.trigram_count("$mo"), 1);
    assert_eq!(state.sentence_summary(), (1, 1));
}
