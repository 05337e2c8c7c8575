//! Canonical domain names: the registrable part of a URL's host, without a
//! leading `www` label.

use vstd::prelude::*;
use itertools::Itertools;
use crate::text::same_text;
use tldextract::{TldExtractError, TldExtractor, TldOption};

verus! {

/// The extractor of the `tldextract` crate; what is in it is not looked at.
#[verifier::external_type_specification]
#[verifier::external_body]
pub struct ExTldExtractor(TldExtractor);

/// The error of the `tldextract` crate; it is only told apart from success.
#[verifier::external_type_specification]
#[verifier::external_body]
pub struct ExTldExtractError(TldExtractError);

/// `parts` joined into one text, with `sep` between neighbours.
pub open spec fn joined(parts: Seq<Seq<char>>, sep: Seq<char>) -> Seq<char>
    decreases parts.len(),
{
    if parts.len() == 0 {
        Seq::empty()
    } else if parts.len() == 1 {
        parts[0]
    } else {
        joined(parts.drop_last(), sep) + sep + parts.last()
    }
}

/// The three parts into which a host name is split.
#[derive(Debug)]
pub struct DomainParts {
    /// Everything left of the registrable name, such as `www` or `m.shop`.
    pub subdomain: Option<String>,
    /// The registrable name, such as `example`.
    pub domain: Option<String>,
    /// The public suffix, such as `co.uk`.
    pub suffix: Option<String>,
}

/// The model of [`DomainParts`].
pub struct PartsView {
    pub subdomain: Option<Seq<char>>,
    pub domain: Option<Seq<char>>,
    pub suffix: Option<Seq<char>>,
}

/// The label `www`, which is dropped where it is the whole subdomain.
pub open spec fn www_label() -> Seq<char> {
    seq!['w', 'w', 'w']
}

/// One label if there is one, none otherwise.
pub open spec fn label(part: Option<Seq<char>>) -> Seq<Seq<char>> {
    match part {
        Some(p) => seq![p],
        None => Seq::empty(),
    }
}

impl PartsView {
    /// The subdomain, unless it is exactly `www`.
    pub open spec fn kept_subdomain(self) -> Option<Seq<char>> {
        match self.subdomain {
            Some(s) => if s == www_label() { None } else { Some(s) },
            None => None,
        }
    }

    /// The labels of the canonical name, left to right.
    pub open spec fn labels(self) -> Seq<Seq<char>> {
        label(self.kept_subdomain()) + label(self.domain) + label(self.suffix)
    }

    /// Whether a registrable name or a public suffix was found.
    pub open spec fn has_name(self) -> bool {
        self.domain is Some || self.suffix is Some
    }

    /// The canonical name: the labels joined by dots.
    pub open spec fn canonical(self) -> Seq<char> {
        joined(self.labels(), seq!['.'])
    }

    /// The canonical name where there is one: parts with neither a
    /// registrable name nor a suffix name no domain.
    pub open spec fn resolved(self) -> Option<Seq<char>> {
        if self.has_name() {
            Some(self.canonical())
        } else {
            None
        }
    }
}

impl View for DomainParts {
    type V = PartsView;

    open spec fn view(&self) -> PartsView {
        PartsView {
            subdomain: match self.subdomain { Some(s) => Some(s@), None => None },
            domain: match self.domain { Some(s) => Some(s@), None => None },
            suffix: match self.suffix { Some(s) => Some(s@), None => None },
        }
    }
}

/// A URL from which no domain can be taken.
#[derive(Debug, Clone, Copy, PartialEq, Eq)]
pub struct InvalidUrlError;

/// A canonical domain name.
#[derive(Debug, Clone, PartialEq, Eq, Hash)]
pub struct Domain {
    name: String,
}

impl View for Domain {
    type V = Seq<char>;

    closed spec fn view(&self) -> Seq<char> {
        self.name@
    }
}

/// Calls `Itertools::join` on the labels: the labels in order, with `sep`
/// between neighbours, and the empty text for no label.
#[verifier::external_body]
fn join_labels(labels: &Vec<String>, sep: &str) -> (r: String)
    ensures
        r@ == joined(labels.deep_view(), sep@),
{
    labels.iter().join(sep)
}

/// Calls `TldExtractor::new` with the default options: the extractor then
/// works from the suffix list it finds in its cache file, or else from the
/// list that it carries, and it does not take the last label of a host for
/// a suffix where it knows none. Of the list nothing is said.
#[verifier::external_body]
fn new_extractor() -> (fresh: TldExtractor)
    ensures
        !guesses_suffix(fresh),
{
    TldExtractor::new(TldOption::default())
}

/// The public suffixes that an extractor works from.
pub uninterp spec fn suffix_list(extractor: TldExtractor) -> Set<Seq<char>>;

/// Whether an extractor that finds no known suffix in a host takes the
/// last label for the suffix.
pub uninterp spec fn guesses_suffix(extractor: TldExtractor) -> bool;

/// The parts into which an extractor with these suffixes splits the host
/// of `url`; nothing for a URL that it cannot read.
pub uninterp spec fn split_host(suffixes: Set<Seq<char>>, guesses: bool, url: Seq<char>) -> Option<PartsView>;

/// The model of what extraction gives: the parts, or nothing.
pub open spec fn parts_found(found: Result<DomainParts, TldExtractError>) -> Option<PartsView> {
    match found {
        Ok(parts) => Some(parts@),
        Err(_) => None,
    }
}

/// Calls `TldExtractor::extract` and hands over the three parts it found.
/// The extractor reads the URL, looks the labels of its host up in its
/// suffix list and nothing else: the parts are a function of that list, of
/// the extractor's mode and of the URL.
#[verifier::external_body]
fn extract_parts(extractor: &TldExtractor, url: &str) -> (found: Result<DomainParts, TldExtractError>)
    ensures
        parts_found(found) == split_host(suffix_list(*extractor), guesses_suffix(*extractor), url@),
{
    extractor.extract(url).map(|found| DomainParts {
        subdomain: found.subdomain,
        domain: found.domain,
        suffix: found.suffix,
    })
}

impl Domain {
    /// The name as text.
    pub fn as_str(&self) -> (s: &str)
        ensures
            s@ == self@,
    {
        self.name.as_str()
    }

    /// Whether two domains have the same name.
    pub fn same_as(&self, other: &Domain) -> (r: bool)
        ensures
            r == (self@ == other@),
    {
        self.name == other.name
    }

    /// The canonical domain of `parts`: the subdomain unless it is `www`,
    /// the registrable name and the suffix, joined by dots. Parts with
    /// neither a registrable name nor a suffix give no domain.
    pub fn from_parts(parts: &DomainParts) -> (r: Result<Domain, InvalidUrlError>)
        ensures
            match r {
                Ok(d) => parts@.resolved() == Some(d@),
                Err(_) => parts@.resolved() is None,
            },
    {
        if parts.domain.is_none() && parts.suffix.is_none() {
            return Err(InvalidUrlError);
        }
        let mut labels: Vec<String> = Vec::new();
        let www = "www";
        proof {
            reveal_strlit("www");
            assert(www@ =~= www_label());
        }
        match &parts.subdomain {
            Some(s) => {
                if !same_text(s.as_str(), www) {
                    labels.push(s.clone());
                }
            },
            None => {},
        }
        proof {
            assert(labels.deep_view() =~= label(parts@.kept_subdomain()));
        }
        match &parts.domain {
            Some(s) => {
                labels.push(s.clone());
            },
            None => {},
        }
        proof {
            assert(labels.deep_view() =~= label(parts@.kept_subdomain()) + label(parts@.domain));
        }
        match &parts.suffix {
            Some(s) => {
                labels.push(s.clone());
            },
            None => {},
        }
        proof {
            assert(labels.deep_view() =~= parts@.labels());
            reveal_strlit(".");
            assert("."@ =~= seq!['.']);
        }
        Ok(Domain { name: join_labels(&labels, ".") })
    }

    /// Turns what the extractor found into a domain: its failure, and parts
    /// without a name, give [`InvalidUrlError`].
    pub fn from_extraction(found: Result<DomainParts, TldExtractError>) -> (r: Result<Domain, InvalidUrlError>)
        ensures
            match (parts_found(found), r) {
                (Some(parts), Ok(d)) => parts.resolved() == Some(d@),
                (Some(parts), Err(_)) => parts.resolved() is None,
                (None, Ok(_)) => false,
                (None, Err(_)) => true,
            },
    {
        match found {
            Ok(parts) => Domain::from_parts(&parts),
            Err(_) => Err(InvalidUrlError),
        }
    }
}

/// Resolves URLs to canonical domains against one suffix list.
pub struct Resolver {
    extractor: TldExtractor,
}

impl Resolver {
    /// The public suffixes that the resolver works from.
    pub closed spec fn suffixes(&self) -> Set<Seq<char>> {
        suffix_list(self.extractor)
    }

    /// Whether the resolver takes the last label of a host for its suffix
    /// where it knows none.
    pub closed spec fn guesses(&self) -> bool {
        guesses_suffix(self.extractor)
    }

    /// The canonical domain of `url`: that of the parts into which the
    /// host is split, if the URL can be read and the parts have a name.
    pub open spec fn canonical_of(&self, url: Seq<char>) -> Option<Seq<char>> {
        match split_host(self.suffixes(), self.guesses(), url) {
            Some(parts) => parts.resolved(),
            None => None,
        }
    }

    /// A resolver in the extractor's default mode: it splits a host by the
    /// suffixes it knows and guesses none. Which suffixes it knows depends
    /// on the extractor's cache file, so that is not said.
    pub fn new() -> (fresh: Resolver)
        ensures
            !fresh.guesses(),
    {
        Resolver { extractor: new_extractor() }
    }

    /// The canonical domain of `url`.
    pub fn resolve(&self, url: &str) -> (r: Result<Domain, InvalidUrlError>)
        ensures
            match r {
                Ok(d) => self.canonical_of(url@) == Some(d@),
                Err(_) => self.canonical_of(url@) is None,
            },
    {
        Domain::from_extraction(extract_parts(&self.extractor, url))
    }
}

impl Domain {
    /// The canonical domain of `url`, by a resolver made for this one call:
    /// one that guesses no suffix. Each call makes its own resolver, so
    /// nothing ties two calls together: use one [`Resolver`] where answers
    /// have to agree.
    pub fn new(url: &str) -> (r: Result<Domain, InvalidUrlError>)
        ensures
            exists|resolver: Resolver| !resolver.guesses() && #[trigger] resolver.canonical_of(url@) == match r {
                Ok(d) => Some(d@),
                Err(_) => None,
            },
    {
        let resolver = Resolver::new();
        let r = resolver.resolve(url);
        proof {
            assert(!resolver.guesses() && resolver.canonical_of(url@) == match r {
                Ok(d) => Some(d@),
                Err(_) => None::<Seq<char>>,
            });
        }
        r
    }
}

/// A leading `www` label is dropped: parts whose subdomain is exactly `www`
/// have the canonical name of the same parts without a subdomain.
pub proof fn lemma_leading_www_dropped(domain: Option<Seq<char>>, suffix: Option<Seq<char>>)
    ensures
        (PartsView { subdomain: Some(www_label()), domain, suffix }).canonical()
            == (PartsView { subdomain: None, domain, suffix }).canonical(),
        (PartsView { subdomain: Some(www_label()), domain, suffix }).resolved()
            == (PartsView { subdomain: None, domain, suffix }).resolved(),
{
}

/// A subdomain other than `www` is kept as the first label.
pub proof fn lemma_other_subdomain_kept(subdomain: Seq<char>, domain: Seq<char>, suffix: Seq<char>)
    requires
        subdomain != www_label(),
    ensures
        (PartsView { subdomain: Some(subdomain), domain: Some(domain), suffix: Some(suffix) }).canonical()
            == subdomain + seq!['.'] + domain + seq!['.'] + suffix,
{
    let parts = PartsView { subdomain: Some(subdomain), domain: Some(domain), suffix: Some(suffix) };
    let all = seq![subdomain, domain, suffix];
    assert(parts.labels() =~= all);
    assert(all.drop_last() =~= seq![subdomain, domain]);
    assert(seq![subdomain, domain].drop_last() =~= seq![subdomain]);
    reveal_with_fuel(joined, 4);
}

} // verus!
