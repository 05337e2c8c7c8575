//! What holds of every run, stated over the models of the counters.

use vstd::prelude::*;
use crate::aggregate::{AggregationView, lemma_after_sentence_consistent};
use crate::counts::{Counts, bumped, count_of, total_of, lemma_count_at_most_total, lemma_total_of_bumped, lemma_total_of_empty};
use crate::links::LinkView;
use crate::sentence::{trigrams_of, words_of};
use crate::domain::Resolver;
use crate::pipeline::{IngestedView, RunView, all_taken, line_outcome, outcomes_of, lemma_after_consistent};

verus! {

/// The number of links from a domain to itself among `outcomes`.
pub open spec fn self_links_in(outcomes: Seq<IngestedView>) -> nat
    decreases outcomes.len(),
{
    if outcomes.len() == 0 {
        0
    } else {
        self_links_in(outcomes.drop_last()) + if outcomes.last().is_self_link() { 1nat } else { 0nat }
    }
}

/// The state after a list of accepted sentences, each in its normal form.
pub open spec fn after_sentences(v: AggregationView, sentences: Seq<Seq<char>>) -> AggregationView
    decreases sentences.len(),
{
    if sentences.len() == 0 {
        v
    } else {
        after_sentences(v, sentences.drop_last()).after_sentence(sentences.last())
    }
}

/// The characters of a list of sentences, all together.
pub open spec fn chars_in(sentences: Seq<Seq<char>>) -> nat
    decreases sentences.len(),
{
    if sentences.len() == 0 {
        0
    } else {
        chars_in(sentences.drop_last()) + sentences.last().len()
    }
}

/// There are no self-links among outcomes exactly if their count is zero.
pub proof fn lemma_no_self_links(outcomes: Seq<IngestedView>)
    ensures
        self_links_in(outcomes) == 0 <==> forall|i: int| 0 <= i < outcomes.len() ==> !(#[trigger] outcomes[i]).is_self_link(),
    decreases outcomes.len(),
{
    if outcomes.len() > 0 {
        let front = outcomes.drop_last();
        lemma_no_self_links(front);
        if self_links_in(outcomes) == 0 {
            assert forall|i: int| 0 <= i < outcomes.len() implies !(#[trigger] outcomes[i]).is_self_link() by {
                if i < front.len() {
                    assert(front[i] == outcomes[i]);
                }
            }
        } else if !outcomes.last().is_self_link() {
            let i = choose|i: int| 0 <= i < front.len() && (#[trigger] front[i]).is_self_link();
            assert(outcomes[i].is_self_link());
        }
    }
}

/// Every run keeps its counters consistent and within the room it was
/// given, and its self-links are those of its outcomes.
pub proof fn lemma_run_consistent(start: RunView, outcomes: Seq<IngestedView>, spare: nat)
    requires
        start.consistent(),
        start.has_room(outcomes.len() + spare),
    ensures
        start.after_all(outcomes).consistent(),
        start.after_all(outcomes).has_room(spare),
        start.after_all(outcomes).links.self_links == start.links.self_links + self_links_in(outcomes),
    decreases outcomes.len(),
{
    if outcomes.len() > 0 {
        let front = outcomes.drop_last();
        lemma_run_consistent(start, front, spare + 1);
        let before = start.after_all(front);
        lemma_after_consistent(before, outcomes.last(), spare + 1);
    }
}

/// In every run the total of links is at least the sum of the per-domain
/// outlink counts. The two differ by the number of self-links, so they are
/// equal exactly if no link led from a domain to itself.
pub proof fn lemma_total_covers_outlinks(outcomes: Seq<IngestedView>)
    requires
        outcomes.len() <= usize::MAX,
    ensures
        ({
            let links = RunView::empty().after_all(outcomes).links;
            &&& links.total >= total_of(links.outlinks)
            &&& links.total == total_of(links.outlinks) + self_links_in(outcomes)
            &&& links.total == total_of(links.outlinks) <==> forall|i: int|
                0 <= i < outcomes.len() ==> !(#[trigger] outcomes[i]).is_self_link()
        }),
{
    lemma_total_of_empty();
    lemma_run_consistent(RunView::empty(), outcomes, 0);
    lemma_no_self_links(outcomes);
}

/// A self-link counts towards the total and towards no domain.
pub proof fn lemma_self_link_counts_once(v: LinkView, domain: Seq<char>)
    ensures
        v.after_link(domain, domain).total == v.total + 1,
        v.after_link(domain, domain).outlinks == v.outlinks,
{
}

/// In every state that accepted sentences lead to, no deduplicated word or
/// trigram count exceeds the count with duplicates.
pub proof fn lemma_deduped_never_exceeds(sentences: Seq<Seq<char>>)
    requires
        sentences.len() + chars_in(sentences) <= usize::MAX,
    ensures
        ({
            let v = after_sentences(AggregationView::empty(), sentences);
            &&& v.consistent()
            &&& forall|word: Seq<char>| count_of(v.words_deduped, word) <= count_of(v.words, word)
            &&& forall|gram: Seq<char>| count_of(v.trigrams_deduped, gram) <= count_of(v.trigrams, gram)
        }),
{
    lemma_total_of_empty();
    lemma_sentences_consistent(sentences);
}

/// The induction behind [`lemma_deduped_never_exceeds`].
proof fn lemma_sentences_consistent(sentences: Seq<Seq<char>>)
    requires
        sentences.len() + chars_in(sentences) <= usize::MAX,
    ensures
        after_sentences(AggregationView::empty(), sentences).consistent(),
        total_of(after_sentences(AggregationView::empty(), sentences).sentences) == sentences.len(),
        total_of(after_sentences(AggregationView::empty(), sentences).words) <= chars_in(sentences),
        total_of(after_sentences(AggregationView::empty(), sentences).trigrams) <= chars_in(sentences),
    decreases sentences.len(),
{
    lemma_total_of_empty();
    if sentences.len() > 0 {
        let front = sentences.drop_last();
        lemma_sentences_consistent(front);
        let before = after_sentences(AggregationView::empty(), front);
        let s = sentences.last();
        lemma_after_sentence_consistent(before, s);
        crate::sentence::lemma_words_at_most_chars(s);
        crate::counts::lemma_bump_all(before.words, crate::sentence::words_of(s));
        crate::counts::lemma_bump_all(before.trigrams, crate::sentence::trigrams_of(s));
        lemma_count_at_most_total(before.sentences, s);
        lemma_total_of_bumped(before.sentences, s);
    }
}

/// A run that resumes at line `n` of a file is a run from the start over
/// the lines from `n` on: the same lines are processed, with the same
/// outcomes, and from counters at zero the two end in the same counters.
pub proof fn lemma_resume_is_run_over_slice(resolver: Resolver, lines: Seq<Seq<char>>, n: int)
    requires
        0 <= n <= lines.len(),
    ensures
        ({
            let slice = lines.subrange(n, lines.len() as int);
            &&& all_taken(resolver, lines, n, lines.len() as int) <==> all_taken(resolver, slice, 0, slice.len() as int)
            &&& outcomes_of(resolver, lines, n, lines.len() as int) == outcomes_of(resolver, slice, 0, slice.len() as int)
            &&& RunView::empty().after_all(outcomes_of(resolver, lines, n, lines.len() as int))
                == RunView::empty().after_all(outcomes_of(resolver, slice, 0, slice.len() as int))
        }),
{
    let slice = lines.subrange(n, lines.len() as int);
    if all_taken(resolver, lines, n, lines.len() as int) {
        assert forall|i: int| 0 <= i < slice.len() implies (#[trigger] line_outcome(resolver, slice[i])) is Ok by {
            assert(slice[i] == lines[n + i]);
            assert(line_outcome(resolver, lines[n + i]) is Ok);
        }
    }
    if all_taken(resolver, slice, 0, slice.len() as int) {
        assert forall|i: int| n <= i < lines.len() implies (#[trigger] line_outcome(resolver, lines[i])) is Ok by {
            assert(slice[i - n] == lines[i]);
            assert(line_outcome(resolver, slice[i - n]) is Ok);
        }
    }
    assert forall|i: int| 0 <= i < slice.len() implies #[trigger] slice[i] == lines[n + i] by {}
    assert(outcomes_of(resolver, lines, n, lines.len() as int) =~= outcomes_of(resolver, slice, 0, slice.len() as int));
}

/// What a run adds to counters that earlier work has filled is what the
/// same outcomes give from counters at zero: visits per domain, outlinks
/// per domain, the total of links and the self-links.
pub proof fn lemma_deltas_match_fresh_run(prior: RunView, outcomes: Seq<IngestedView>)
    requires
        prior.consistent(),
        prior.has_room(outcomes.len()),
    ensures
        ({
            let resumed = prior.after_all(outcomes);
            let fresh = RunView::empty().after_all(outcomes);
            &&& forall|d: Seq<char>| count_of(resumed.state.sites, d) == count_of(prior.state.sites, d) + count_of(fresh.state.sites, d)
            &&& forall|d: Seq<char>| count_of(resumed.links.outlinks, d) == count_of(prior.links.outlinks, d) + count_of(fresh.links.outlinks, d)
            &&& resumed.links.total == prior.links.total + fresh.links.total
            &&& resumed.links.self_links == prior.links.self_links + fresh.links.self_links
            &&& resumed.state.sentences == prior.state.sentences
            &&& resumed.state.words == prior.state.words
            &&& resumed.state.trigrams == prior.state.trigrams
        }),
    decreases outcomes.len(),
{
    lemma_total_of_empty();
    if outcomes.len() > 0 {
        let front = outcomes.drop_last();
        lemma_deltas_match_fresh_run(prior, front);
        lemma_run_consistent(prior, front, 1);
        lemma_run_consistent(RunView::empty(), front, 1);
        let resumed = prior.after_all(front);
        let fresh = RunView::empty().after_all(front);
        let last = outcomes.last();
        assert(prior.after_all(outcomes) == resumed.after(last));
        assert(RunView::empty().after_all(outcomes) == fresh.after(last));
        match last {
            IngestedView::Site { url, domain, content } => {
                lemma_count_at_most_total(resumed.state.sites, domain);
                lemma_total_of_bumped(resumed.state.sites, domain);
                lemma_count_at_most_total(fresh.state.sites, domain);
                lemma_total_of_bumped(fresh.state.sites, domain);
                assert forall|d: Seq<char>| count_of(resumed.after(last).state.sites, d)
                    == count_of(prior.state.sites, d) + count_of(fresh.after(last).state.sites, d) by {
                    assert(count_of(resumed.state.sites, d) == count_of(prior.state.sites, d) + count_of(fresh.state.sites, d));
                }
            },
            IngestedView::Link { from, to } => {
                lemma_count_at_most_total(resumed.links.outlinks, to);
                lemma_total_of_bumped(resumed.links.outlinks, to);
                lemma_count_at_most_total(fresh.links.outlinks, to);
                lemma_total_of_bumped(fresh.links.outlinks, to);
                assert forall|d: Seq<char>| count_of(resumed.after(last).links.outlinks, d)
                    == count_of(prior.links.outlinks, d) + count_of(fresh.after(last).links.outlinks, d) by {
                    assert(count_of(resumed.links.outlinks, d) == count_of(prior.links.outlinks, d) + count_of(fresh.links.outlinks, d));
                }
            },
            _ => {},
        }
    }
}

/// Counting two keys gives the same table in either order.
pub proof fn lemma_bumps_commute(m: Counts, a: Seq<char>, b: Seq<char>)
    ensures
        bumped(bumped(m, a), b) == bumped(bumped(m, b), a),
{
    assert(bumped(bumped(m, a), b) =~= bumped(bumped(m, b), a));
}

/// The counters do not depend on the order in which two records are taken
/// in: visits and links are plain sums. This is what allows the lines of a
/// file to be processed in any order.
pub proof fn lemma_outcomes_commute(v: RunView, a: IngestedView, b: IngestedView)
    ensures
        v.after(a).after(b) == v.after(b).after(a),
{
    match (a, b) {
        (IngestedView::Site { url: u1, domain: d1, content: c1 }, IngestedView::Site { url: u2, domain: d2, content: c2 }) => {
            lemma_bumps_commute(v.state.sites, d1, d2);
        },
        (IngestedView::Link { from: f1, to: t1 }, IngestedView::Link { from: f2, to: t2 }) => {
            lemma_bumps_commute(v.links.outlinks, t1, t2);
        },
        _ => {},
    }
}

/// The tables do not depend on the order in which two sentences are
/// accepted. What depends on it is only which of two equal sentences is
/// the first, and the two are counted alike.
pub proof fn lemma_sentences_commute(v: AggregationView, a: Seq<char>, b: Seq<char>)
    requires
        v.consistent(),
        total_of(v.sentences) + 2 <= usize::MAX,
        total_of(v.words) + a.len() + b.len() <= usize::MAX,
        total_of(v.trigrams) + a.len() + b.len() <= usize::MAX,
    ensures
        v.after_sentence(a).after_sentence(b) == v.after_sentence(b).after_sentence(a),
{
    if a != b {
        crate::sentence::lemma_words_at_most_chars(a);
        crate::sentence::lemma_words_at_most_chars(b);
        lemma_bumps_commute(v.sentences, a, b);
        crate::counts::lemma_bump_alls_commute(v.words, words_of(a), words_of(b));
        crate::counts::lemma_bump_alls_commute(v.words_deduped, words_of(a), words_of(b));
        crate::counts::lemma_bump_alls_commute(v.trigrams, trigrams_of(a), trigrams_of(b));
        crate::counts::lemma_bump_alls_commute(v.trigrams_deduped, trigrams_of(a), trigrams_of(b));
        let ab = v.after_sentence(a).after_sentence(b);
        let ba = v.after_sentence(b).after_sentence(a);
        assert(ab.sentences == ba.sentences);
        assert(ab.words == ba.words);
        assert(ab.words_deduped == ba.words_deduped);
        assert(ab.trigrams == ba.trigrams);
        assert(ab.trigrams_deduped == ba.trigrams_deduped);
        assert(ab.total_words == ba.total_words);
        assert(ab.deduped_words == ba.deduped_words);
    }
}

} // verus!
