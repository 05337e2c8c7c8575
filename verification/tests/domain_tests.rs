// The tests that resolve URLs expect the extractor's bundled suffix list: they are to run in a
// directory that holds no `.tld_cache` file, which the extractor would read instead.

use corpus_stats::domain::{Domain, DomainParts, Resolver};

fn parts(subdomain: Option<&str>, domain: Option<&str>, suffix: Option<&str>) -> DomainParts {
    DomainParts {
        subdomain: subdomain.map(|s| s.to_string()),
        domain: domain.map(|s| s.to_string()),
        suffix: suffix.map(|s| s.to_string()),
    }
}

#[test]
fn canonical_name_drops_leading_www() {
    let with_www = Domain::new("http://www.example.co.uk/x").unwrap();
    let without = Domain::new("http://example.co.uk/x").unwrap();
    assert_eq!(with_www.as_str(), "example.co.uk");
    assert_eq!(without.as_str(), "example.co.uk");
    assert!(with_www.same_as(&without));
}

#[test]
fn canonical_name_is_a_fixed_point() {
    let resolver = Resolver::new();
    for url in ["http://www.example.co.uk/x", "https://m.facebook.com", "http://a.com", "forums.bbc.co.uk"] {
        let once = resolver.resolve(url).unwrap();
        let twice = resolver.resolve(once.as_str()).unwrap();
        assert_eq!(once.as_str(), twice.as_str());
    }
}

#[test]
fn other_subdomains_are_kept() {
    assert_eq!(Domain::new("https://m.facebook.com").unwrap().as_str(), "m.facebook.com");
    assert_eq!(Domain::new("http://forums.bbc.co.uk/a/b").unwrap().as_str(), "forums.bbc.co.uk");
    assert_eq!(Domain::new("http://www.shop.example.com").unwrap().as_str(), "www.shop.example.com");
}

#[test]
fn from_parts_joins_labels_with_dots() {
    let d = Domain::from_parts(&parts(Some("m"), Some("example"), Some("co.uk"))).unwrap();
    assert_eq!(d.as_str(), "m.example.co.uk");
    let d = Domain::from_parts(&parts(Some("www"), Some("example"), Some("com"))).unwrap();
    assert_eq!(d.as_str(), "example.com");
    let d = Domain::from_parts(&parts(None, Some("localhost"), None)).unwrap();
    assert_eq!(d.as_str(), "localhost");
    let d = Domain::from_parts(&parts(None, None, Some("co.uk"))).unwrap();
    assert_eq!(d.as_str(), "co.uk");
    let d = Domain::from_parts(&parts(Some("wwww"), Some("a"), Some("b"))).unwrap();
    assert_eq!(d.as_str(), "wwww.a.b");
}

#[test]
fn parts_without_a_name_are_rejected() {
    assert!(Domain::from_parts(&parts(None, None, None)).is_err());
    assert!(Domain::from_parts(&parts(Some("www"), None, None)).is_err());
    assert!(Domain::from_parts(&parts(Some("m"), None, None)).is_err());
}

#[test]
fn urls_without_a_host_are_rejected() {
    assert!(Domain::new("http://").is_err());
    assert!(Domain::new("mailto:someone@example.com").is_err());
    assert!(Domain::new("").is_err());
}

#[test]
fn same_as_tells_domains_apart() {
    let a = Domain::new("http://a.com/p").unwrap();
    let b = Domain::new("http://b.com/q").unwrap();
    let a2 = Domain::new("http://a.com/r").unwrap();
    assert!(!a.same_as(&b));
    assert!(a.same_as(&a2));
}

#[test]
fn a_new_resolver_guesses_no_suffix() {
    let resolver = Resolver::new();
    assert_eq!(resolver.resolve("http://a.b.localhost/x").unwrap().as_str(), "b.a.localhost");
    assert_eq!(resolver.resolve("http://intranet/x").unwrap().as_str(), "intranet");
}
