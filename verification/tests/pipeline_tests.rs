use corpus_stats::domain::Resolver;
use corpus_stats::pipeline::{Aggregator, Ingested, RunError};
use corpus_stats::record::Record;
use corpus_stats::report::report;

fn lines(texts: &[&str]) -> Vec<String> {
    texts.iter().map(|t| t.to_string()).collect()
}

const SITE_A: &str = r#"{"url":"http://a.com","content":""}"#;
const LINK_A_B: &str = r#"{"from":"http://a.com/p","to":"http://b.com/q"}"#;
const LINK_A_A: &str = r#"{"from":"http://a.com/p","to":"http://a.com/r"}"#;

#[test]
fn end_to_end_counts_sites_and_outlinks() {
    let mut run = Aggregator::new();
    let done = run.run(&Resolver::new(), &lines(&[SITE_A, LINK_A_B, LINK_A_A]), 0).unwrap();
    assert_eq!(done.checkpoint, 3);
    assert_eq!(done.outcomes.len(), 3);
    let r = report(&run.state, &run.links);
    assert_eq!(r.sites, vec![("a.com".to_string(), 1)]);
    assert_eq!(r.outlinks, vec![("b.com".to_string(), 1)]);
    assert_eq!(r.total_links, 2);
    assert_eq!(r.outlink_sum, 1);
    assert_eq!(run.links.outlinks_to("a.com"), 0);
}

#[test]
fn outcomes_fit_their_records() {
    let mut run = Aggregator::new();
    let done = run
        .run(
            &Resolver::new(),
            &lines(&[
                SITE_A,
                LINK_A_B,
                r#"{"url":"http://c.com","g_translate":true}"#,
                r#"{"from":"http://","to":"http://b.com/q"}"#,
            ]),
            0,
        )
        .unwrap();
    match &done.outcomes[0] {
        Ingested::Site { url, domain, content } => {
            assert_eq!(url, "http://a.com");
            assert_eq!(domain.as_str(), "a.com");
            assert_eq!(content, "");
        }
        _ => panic!("expected a site"),
    }
    match &done.outcomes[1] {
        Ingested::Link { from, to } => {
            assert_eq!(from.as_str(), "a.com");
            assert_eq!(to.as_str(), "b.com");
        }
        _ => panic!("expected a link"),
    }
    assert!(matches!(done.outcomes[2], Ingested::Skipped));
    assert!(matches!(done.outcomes[3], Ingested::DroppedLink));
    assert_eq!(run.links.total_links(), 1);
    assert_eq!(run.state.visits("c.com"), 0);
}

#[test]
fn a_link_with_an_unresolvable_end_is_dropped() {
    let mut run = Aggregator::new();
    let outcome = run.ingest(&Resolver::new(), Record::Link { from: "http://a.com".to_string(), to: "http://".to_string() });
    assert!(matches!(outcome, Ok(Ingested::DroppedLink)));
    let outcome = run.ingest(&Resolver::new(), Record::Link { from: "".to_string(), to: "http://a.com".to_string() });
    assert!(matches!(outcome, Ok(Ingested::DroppedLink)));
    assert_eq!(run.links.total_links(), 0);
    assert_eq!(run.links.outlink_sum(), 0);
}

#[test]
fn a_site_with_an_unresolvable_url_is_an_error() {
    let mut run = Aggregator::new();
    let outcome = run.ingest(&Resolver::new(), Record::Site { url: "http://".to_string(), content: "x".to_string() });
    assert!(outcome.is_err());
    assert!(matches!(
        run.ingest_line(&Resolver::new(), r#"{"url":"http://","content":"x"}"#),
        Err(RunError::InvalidUrl)
    ));
    assert!(run.state.site_rows().is_empty());
}

#[test]
fn a_line_that_is_no_record_is_an_error() {
    let mut run = Aggregator::new();
    assert!(matches!(run.ingest_line(&Resolver::new(), "garbage"), Err(RunError::Decode)));
    assert!(matches!(run.ingest_line(&Resolver::new(), r#"{"url":"http://a.com"}"#), Err(RunError::Decode)));
    assert!(run.state.site_rows().is_empty());
    assert_eq!(run.links.total_links(), 0);
}

#[test]
fn a_run_stops_at_the_first_error() {
    let mut run = Aggregator::new();
    let failure = run.run(&Resolver::new(), &lines(&[SITE_A, "garbage", LINK_A_B]), 0).unwrap_err();
    assert_eq!(failure.line, 1);
    assert_eq!(failure.error, RunError::Decode);
    let mut run = Aggregator::new();
    let failure = run
        .run(&Resolver::new(), &lines(&[LINK_A_B, LINK_A_A, r#"{"url":"http://","content":""}"#]), 1)
        .unwrap_err();
    assert_eq!(failure.line, 2);
    assert_eq!(failure.error, RunError::InvalidUrl);
}

#[test]
fn a_resumed_run_processes_the_lines_after_the_checkpoint() {
    let all = lines(&[SITE_A, LINK_A_B, LINK_A_A, r#"{"url":"http://b.com/x","content":"<p>x</p>"}"#, LINK_A_B]);
    for n in 0..=all.len() {
        let mut resumed = Aggregator::new();
        let done = resumed.run(&Resolver::new(), &all, n).unwrap();
        let mut fresh = Aggregator::new();
        let slice: Vec<String> = all[n..].to_vec();
        let again = fresh.run(&Resolver::new(), &slice, 0).unwrap();
        assert_eq!(done.outcomes.len(), all.len() - n);
        assert_eq!(done.checkpoint, all.len());
        assert_eq!(again.checkpoint, slice.len());
        let a = report(&resumed.state, &resumed.links);
        let b = report(&fresh.state, &fresh.links);
        assert_eq!(a.sites, b.sites);
        assert_eq!(a.outlinks, b.outlinks);
        assert_eq!(a.total_links, b.total_links);
        assert_eq!(a.outlink_sum, b.outlink_sum);
    }
}

#[test]
fn a_checkpoint_beyond_the_file_processes_nothing() {
    let mut run = Aggregator::new();
    let done = run.run(&Resolver::new(), &lines(&[SITE_A, "garbage"]), 5).unwrap();
    assert!(done.outcomes.is_empty());
    assert_eq!(done.checkpoint, 5);
    assert!(run.state.site_rows().is_empty());
}

#[test]
fn deltas_of_a_later_run_add_to_earlier_counts() {
    let mut run = Aggregator::new();
    run.run(&Resolver::new(), &lines(&[SITE_A, LINK_A_B]), 0).unwrap();
    run.run(&Resolver::new(), &lines(&[SITE_A, LINK_A_B, LINK_A_A]), 0).unwrap();
    assert_eq!(run.state.visits("a.com"), 2);
    assert_eq!(run.links.outlinks_to("b.com"), 2);
    assert_eq!(run.links.total_links(), 3);
    assert_eq!(run.links.outlink_sum(), 2);
    assert!(run.has_room(10));
}
