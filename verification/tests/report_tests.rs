use corpus_stats::aggregate::AggregationState;
use corpus_stats::links::LinkGraph;
use corpus_stats::report::{rank, ranking, report, top, TOP_ROWS};

fn rows(pairs: &[(&str, usize)]) -> Vec<(String, usize)> {
    pairs.iter().map(|(k, n)| (k.to_string(), *n)).collect()
}

#[test]
fn rows_are_ranked_by_falling_count() {
    assert_eq!(
        rank(rows(&[("a", 1), ("b", 3), ("c", 2)])),
        rows(&[("b", 3), ("c", 2), ("a", 1)])
    );
    assert!(rank(Vec::new()).is_empty());
}

#[test]
fn ties_are_broken_by_name() {
    assert_eq!(
        rank(rows(&[("pear", 2), ("apple", 2), ("fig", 5), ("app", 2), ("Zebra", 2), ("\u{e9}t\u{e9}", 2)])),
        rows(&[("fig", 5), ("Zebra", 2), ("app", 2), ("apple", 2), ("pear", 2), ("\u{e9}t\u{e9}", 2)])
    );
}

#[test]
fn ranking_does_not_depend_on_the_order_of_the_rows() {
    let a = rank(rows(&[("x", 1), ("y", 1), ("z", 4), ("w", 4)]));
    let b = rank(rows(&[("w", 4), ("z", 4), ("y", 1), ("x", 1)]));
    assert_eq!(a, b);
    assert_eq!(a, rows(&[("w", 4), ("z", 4), ("x", 1), ("y", 1)]));
}

#[test]
fn top_cuts_after_the_limit() {
    let all = rows(&[("a", 3), ("b", 2), ("c", 1)]);
    assert_eq!(top(all.clone(), 2), rows(&[("a", 3), ("b", 2)]));
    assert_eq!(top(all.clone(), 3), all);
    assert_eq!(top(all.clone(), 10), all);
    assert!(top(all, 0).is_empty());
    assert_eq!(ranking(rows(&[("a", 1), ("b", 3), ("c", 2)]), 2), rows(&[("b", 3), ("c", 2)]));
}

#[test]
fn word_tables_hold_the_most_frequent_rows() {
    let mut state = AggregationState::new();
    let mut text = String::new();
    for i in 0..(TOP_ROWS + 50) {
        let mut word = String::new();
        let mut n = i;
        loop {
            word.push((b'a' + (n % 26) as u8) as char);
            n /= 26;
            if n == 0 {
                break;
            }
        }
        text.push_str(&word);
        text.push(' ');
    }
    state.record_sentence(&text);
    state.record_sentence("zzzz zzzz a");
    let r = report(&state, &LinkGraph::new());
    assert_eq!(r.words.len(), TOP_ROWS);
    assert_eq!(r.words_deduped.len(), TOP_ROWS);
    assert_eq!(r.words[0], ("a".to_string(), 2));
    assert_eq!(r.words[1], ("zzzz".to_string(), 2));
    assert_eq!(r.words[2], ("aab".to_string(), 1));
    assert_eq!(r.trigrams.len(), TOP_ROWS.min(state.trigram_rows().len()));
    assert_eq!(r.sentences_total, 2);
    assert_eq!(r.sentences_unique, 2);
    assert!(r.words.windows(2).all(|w| w[0].1 > w[1].1 || (w[0].1 == w[1].1 && w[0].0 < w[1].0)));
}

#[test]
fn report_sums_sentences() {
    let mut state = AggregationState::new();
    for s in ["a b", "a b", "c", "a b"] {
        state.record_sentence(s);
    }
    let r = report(&state, &LinkGraph::new());
    assert_eq!(r.sentences_total, 4);
    assert_eq!(r.sentences_unique, 2);
    assert_eq!(r.words, rows(&[("a", 3), ("b", 3), ("c", 1)]));
    assert_eq!(r.words_deduped, rows(&[("a", 1), ("b", 1), ("c", 1)]));
    assert_eq!(r.trigrams, rows(&[(" b.", 3), ("$a ", 3), ("a b", 3), ("$c.", 1)]));
    assert_eq!(r.trigrams_deduped, rows(&[(" b.", 1), ("$a ", 1), ("$c.", 1), ("a b", 1)]));
    assert_eq!(r.total_links, 0);
    assert_eq!(r.outlink_sum, 0);
    assert!(r.sites.is_empty());
    assert!(r.outlinks.is_empty());
}
