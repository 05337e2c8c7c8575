use corpus_stats::extract::{extract_text, hides, visible_text, Markup, PAGE_LIMIT};
use corpus_stats::segment::{candidate_sentences, keep_non_empty, WRAP_WIDTH};

#[test]
fn visible_text_leaves_out_scripts_and_styles() {
    let html = "<html><head><title>T</title><style>p { color: red; }</style></head>\
                <body><p> Hello </p><script>var x = 1;</script><noscript>no js</noscript>\
                <div>big <b>world</b></div></body></html>";
    assert_eq!(extract_text(html), "T Hello big world ");
}

#[test]
fn pages_without_text_give_nothing() {
    assert_eq!(extract_text(""), "");
    assert_eq!(extract_text("<p>   </p><script>x</script>"), "");
    assert_eq!(extract_text("plain"), "plain ");
}

#[test]
fn text_nodes_are_trimmed_and_followed_by_a_space() {
    assert_eq!(extract_text("<p>\n  one\ttwo \n</p><p>three</p>"), "one\ttwo three ");
}

#[test]
fn hidden_elements_are_told_by_name() {
    assert!(hides("script"));
    assert!(hides("style"));
    assert!(hides("noscript"));
    assert!(!hides("p"));
    assert!(!hides("Script"));
    assert!(!hides(""));
}

#[test]
fn a_walk_is_read_at_the_depth_of_hidden_elements() {
    let walk = vec![
        Markup::Other,
        Markup::Open("p".to_string()),
        Markup::Text(" a ".to_string()),
        Markup::Close,
        Markup::Close,
        Markup::Open("script".to_string()),
        Markup::Text("b".to_string()),
        Markup::Close,
        Markup::Open("p".to_string()),
        Markup::Text("c".to_string()),
        Markup::Close,
        Markup::Close,
        Markup::Close,
        Markup::Text("d".to_string()),
        Markup::Close,
        Markup::Text("  ".to_string()),
        Markup::Close,
        Markup::Close,
    ];
    assert_eq!(visible_text(&walk), "a d ");
    assert_eq!(visible_text(&Vec::new()), "");
}

#[test]
fn short_spans_are_candidates_as_they_are() {
    let spans = vec!["Molo mhlaba.".to_string(), "".to_string(), "Unjani?".to_string()];
    assert_eq!(candidate_sentences(&spans), vec!["Molo mhlaba.", "Unjani?"]);
    assert!(candidate_sentences(&Vec::new()).is_empty());
}

#[test]
fn long_spans_are_wrapped() {
    let word = "abcdefghi ";
    let span = word.repeat(70);
    let sentences = candidate_sentences(&vec![span.clone()]);
    assert!(sentences.len() >= 3);
    assert!(sentences.iter().all(|s| !s.is_empty() && s.chars().count() <= WRAP_WIDTH));
    assert_eq!(sentences.join(" "), span.trim_end());
}

#[test]
fn empty_lines_are_dropped() {
    let mut kept = vec!["x".to_string()];
    keep_non_empty(&mut kept, vec!["".to_string(), "a".to_string(), "".to_string(), " ".to_string()]);
    assert_eq!(kept, vec!["x", "a", " "]);
}

#[test]
fn the_page_limit_is_the_largest_length_of_the_parser_buffer() {
    assert_eq!(PAGE_LIMIT as u64, u32::MAX as u64);
}
