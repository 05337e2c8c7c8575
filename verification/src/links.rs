//! The outlink graph: how many links were seen in all, and how many of them
//! point at each domain from another domain.

use vstd::prelude::*;
use dashmap::DashMap;
use crate::counts::{Counts, count_of, bumped, positive, total_of, lemma_bumped_positive, enumerates, rows_total, lemma_rows_total, lemma_rows_total_prefix, lemma_total_of_empty, lemma_total_of_bumped, lemma_count_at_most_total};
use crate::domain::Domain;

verus! {

/// The concurrent map of the `dashmap` crate; what it holds is known only
/// through [`held`].
#[verifier::external_type_specification]
#[verifier::external_body]
#[verifier::reject_recursive_types(K)]
#[verifier::reject_recursive_types(V)]
#[verifier::reject_recursive_types(S)]
pub struct ExDashMap<K, V, S>(DashMap<K, V, S>);

/// What a concurrent map of counts holds: its keys with their values.
pub uninterp spec fn held(m: DashMap<String, usize>) -> Counts;

/// Calls `DashMap::new`: a map that holds nothing.
#[verifier::external_body]
fn new_map() -> (fresh: DashMap<String, usize>)
    ensures
        held(fresh) == (Map::<Seq<char>, usize>::empty()),
{
    DashMap::new()
}

/// Calls `DashMap::get` and copies the value out: the value stored under
/// `key`, if there is one.
#[verifier::external_body]
fn stored(m: &DashMap<String, usize>, key: &str) -> (found: Option<usize>)
    ensures
        found == (if held(*m).contains_key(key@) { Some(held(*m)[key@]) } else { None }),
{
    m.get(key).map(|entry| *entry.value())
}

/// Calls `DashMap::insert`: afterwards `key` holds `count`, and every other
/// key what it held before.
#[verifier::external_body]
fn store(m: &mut DashMap<String, usize>, key: String, count: usize)
    ensures
        held(*final(m)) == held(*old(m)).insert(key@, count),
{
    m.insert(key, count);
}

/// Calls `DashMap::iter` and copies each entry out: every entry once, in an
/// order that is the map's own and may differ from one call to the next.
#[verifier::external_body]
fn listed(m: &DashMap<String, usize>) -> (rows: Vec<(String, usize)>)
    ensures
        enumerates(rows.deep_view(), held(*m)),
{
    m.iter().map(|entry| (entry.key().clone(), *entry.value())).collect()
}

/// The model of the outlink graph.
pub struct LinkView {
    /// Links seen between two resolvable endpoints, self-links included.
    pub total: nat,
    /// Links per target domain that came from another domain.
    pub outlinks: Counts,
    /// Links whose two endpoints have the same domain.
    pub self_links: nat,
}

impl LinkView {
    /// The graph before any link was recorded.
    pub open spec fn empty() -> LinkView {
        LinkView { total: 0, outlinks: Map::empty(), self_links: 0 }
    }

    /// What holds of every graph: every target that is listed was linked
    /// to at least once from another domain, and the total is made of the
    /// links counted per domain and the self-links.
    pub open spec fn consistent(self) -> bool {
        &&& positive(self.outlinks)
        &&& self.outlinks.dom().finite()
        &&& self.total == total_of(self.outlinks) + self.self_links
    }

    /// The graph after a link from `from` to `to`: it counts towards the
    /// total always, and towards its target only if it leaves the domain.
    pub open spec fn after_link(self, from: Seq<char>, to: Seq<char>) -> LinkView {
        if from == to {
            LinkView { total: self.total + 1, self_links: self.self_links + 1, ..self }
        } else {
            LinkView { total: self.total + 1, outlinks: bumped(self.outlinks, to), ..self }
        }
    }
}

/// Recording a link keeps the graph consistent.
pub proof fn lemma_after_link_consistent(v: LinkView, from: Seq<char>, to: Seq<char>)
    requires
        v.consistent(),
        v.total < usize::MAX,
    ensures
        v.after_link(from, to).consistent(),
{
    lemma_count_at_most_total(v.outlinks, to);
    lemma_total_of_bumped(v.outlinks, to);
    lemma_bumped_positive(v.outlinks, to);
}

/// The outlink graph of one run.
pub struct LinkGraph {
    total: usize,
    outlinks: DashMap<String, usize>,
    self_links: Ghost<nat>,
}

impl View for LinkGraph {
    type V = LinkView;

    closed spec fn view(&self) -> LinkView {
        LinkView { total: self.total as nat, outlinks: held(self.outlinks), self_links: self.self_links@ }
    }
}

impl LinkGraph {
    /// Validity of the graph.
    pub open spec fn wf(&self) -> bool {
        self@.consistent()
    }

    /// The graph before any link was recorded.
    pub fn new() -> (graph: Self)
        ensures
            graph.wf(),
            graph@ == LinkView::empty(),
    {
        proof {
            lemma_total_of_empty();
        }
        LinkGraph { total: 0, outlinks: new_map(), self_links: Ghost(0) }
    }

    /// Records a link between two domains.
    pub fn record_link(&mut self, from: &Domain, to: &Domain)
        requires
            old(self).wf(),
            old(self)@.total < usize::MAX,
        ensures
            final(self).wf(),
            final(self)@ == old(self)@.after_link(from@, to@),
    {
        proof {
            lemma_after_link_consistent(self@, from@, to@);
            lemma_count_at_most_total(self@.outlinks, to@);
        }
        self.total = self.total + 1;
        if from.same_as(to) {
            self.self_links = Ghost(self.self_links@ + 1);
        } else {
            let count = match stored(&self.outlinks, to.as_str()) {
                Some(n) => n,
                None => 0,
            };
            store(&mut self.outlinks, to.as_str().to_owned(), count + 1);
        }
    }

    /// All links seen, self-links included.
    pub fn total_links(&self) -> (n: usize)
        ensures
            n == self@.total,
    {
        self.total
    }

    /// The links into `domain` from other domains.
    pub fn outlinks_to(&self, domain: &str) -> (n: usize)
        ensures
            n == count_of(self@.outlinks, domain@),
    {
        match stored(&self.outlinks, domain) {
            Some(n) => n,
            None => 0,
        }
    }

    /// The target domains with their counts, in no particular order.
    pub fn outlink_rows(&self) -> (rows: Vec<(String, usize)>)
        ensures
            enumerates(rows.deep_view(), self@.outlinks),
    {
        listed(&self.outlinks)
    }

    /// The sum of the per-domain counts. It falls short of the total by the
    /// number of self-links, and equals it exactly when there were none.
    pub fn outlink_sum(&self) -> (sum: usize)
        requires
            self.wf(),
        ensures
            sum == total_of(self@.outlinks),
            sum + self@.self_links == self@.total,
            sum <= self@.total,
            sum == self@.total <==> self@.self_links == 0,
    {
        let rows = listed(&self.outlinks);
        proof {
            lemma_rows_total(rows.deep_view(), self@.outlinks);
        }
        let mut sum: usize = 0;
        let mut i: usize = 0;
        while i < rows.len()
            invariant
                i <= rows@.len(),
                rows.deep_view().len() == rows@.len(),
                sum == rows_total(rows.deep_view().take(i as int)),
                rows_total(rows.deep_view()) <= usize::MAX,
            decreases rows@.len() - i,
        {
            proof {
                lemma_rows_total_prefix(rows.deep_view(), i + 1);
                assert(rows.deep_view().take(i + 1).drop_last() =~= rows.deep_view().take(i as int));
                assert(rows.deep_view().take(i + 1).last().1 == rows@[i as int].1);
            }
            sum = sum + rows[i].1;
            i = i + 1;
        }
        proof {
            assert(rows.deep_view().take(rows@.len() as int) =~= rows.deep_view());
        }
        sum
    }
}

} // verus!
