use corpus_stats::domain::Domain;
use corpus_stats::links::LinkGraph;

fn domain(url: &str) -> Domain {
    Domain::new(url).unwrap()
}

#[test]
fn a_new_graph_is_empty() {
    let graph = LinkGraph::new();
    assert_eq!(graph.total_links(), 0);
    assert_eq!(graph.outlink_sum(), 0);
    assert!(graph.outlink_rows().is_empty());
    assert_eq!(graph.outlinks_to("a.com"), 0);
}

#[test]
fn links_count_towards_their_target() {
    let mut graph = LinkGraph::new();
    graph.record_link(&domain("http://a.com/p"), &domain("http://b.com/q"));
    graph.record_link(&domain("http://c.com"), &domain("http://www.b.com"));
    graph.record_link(&domain("http://b.com"), &domain("http://a.com"));
    assert_eq!(graph.total_links(), 3);
    assert_eq!(graph.outlinks_to("b.com"), 2);
    assert_eq!(graph.outlinks_to("a.com"), 1);
    assert_eq!(graph.outlinks_to("c.com"), 0);
    assert_eq!(graph.outlink_sum(), 3);
    let mut rows = graph.outlink_rows();
    rows.sort();
    assert_eq!(rows, vec![("a.com".to_string(), 1), ("b.com".to_string(), 2)]);
}

#[test]
fn self_links_count_towards_the_total_only() {
    let mut graph = LinkGraph::new();
    graph.record_link(&domain("http://a.com/p"), &domain("http://a.com/r"));
    assert_eq!(graph.total_links(), 1);
    assert_eq!(graph.outlink_sum(), 0);
    assert_eq!(graph.outlinks_to("a.com"), 0);
    assert!(graph.outlink_rows().is_empty());
    graph.record_link(&domain("http://a.com/p"), &domain("http://b.com/q"));
    graph.record_link(&domain("http://www.b.com"), &domain("http://b.com/z"));
    assert_eq!(graph.total_links(), 3);
    assert_eq!(graph.outlink_sum(), 1);
    assert!(graph.total_links() > graph.outlink_sum());
}

#[test]
fn total_equals_sum_without_self_links() {
    let mut graph = LinkGraph::new();
    for (from, to) in [("a.com", "b.com"), ("b.com", "a.com"), ("c.com", "a.com"), ("a.com", "d.co.uk")] {
        graph.record_link(&domain(from), &domain(to));
        assert_eq!(graph.total_links(), graph.outlink_sum());
    }
    assert_eq!(graph.total_links(), 4);
}
