//! Ranked views of the final state: rows by falling count, ties broken by
//! name, cut to the first rows where a table is long.

use vstd::prelude::*;
use itertools::Itertools;
use crate::aggregate::AggregationState;
use crate::counts::{Counts, Rows, enumerates, names_of, total_of, lemma_enumerated_finite};
use crate::links::LinkGraph;

verus! {

/// The number of rows in a table of words or of trigrams.
pub const TOP_ROWS: usize = 2000;

/// Whether `a` comes before `b` in the order of texts: character by
/// character, by code point, a proper prefix before its extensions.
pub open spec fn text_before(a: Seq<char>, b: Seq<char>) -> bool
    decreases a.len(),
{
    if b.len() == 0 {
        false
    } else if a.len() == 0 {
        true
    } else if a[0] != b[0] {
        a[0] < b[0]
    } else {
        text_before(a.drop_first(), b.drop_first())
    }
}

/// Whether row `a` ranks before row `b`: by the higher count, and among
/// equal counts by the earlier name.
pub open spec fn ranks_before(a: (Seq<char>, usize), b: (Seq<char>, usize)) -> bool {
    a.1 > b.1 || (a.1 == b.1 && text_before(a.0, b.0))
}

/// Whether no row ranks before a row that precedes it.
pub open spec fn ranked(rows: Rows) -> bool {
    forall|i: int, j: int| 0 <= i < j < rows.len() ==> !ranks_before(#[trigger] rows[j], #[trigger] rows[i])
}

/// Whether `sorted` holds the rows of `rows`, each as often, in rank order.
pub open spec fn is_ranking_of(sorted: Rows, rows: Rows) -> bool {
    &&& sorted.to_multiset() == rows.to_multiset()
    &&& ranked(sorted)
}

/// Sort keys: a number and a text each.
pub type Pairs = Seq<(usize, Seq<char>)>;

/// Whether pair `a` comes before pair `b`: by the smaller number, and
/// among equal numbers by the earlier text.
pub open spec fn pair_before(a: (usize, Seq<char>), b: (usize, Seq<char>)) -> bool {
    a.0 < b.0 || (a.0 == b.0 && text_before(a.1, b.1))
}

/// Whether no pair comes before a pair that precedes it.
pub open spec fn ascending(pairs: Pairs) -> bool {
    forall|i: int, j: int| 0 <= i < j < pairs.len() ==> !pair_before(#[trigger] pairs[j], #[trigger] pairs[i])
}

/// Whether `sorted` holds the pairs of `pairs`, each as often, in
/// ascending order.
pub open spec fn is_sorting_of(sorted: Pairs, pairs: Pairs) -> bool {
    &&& sorted.to_multiset() == pairs.to_multiset()
    &&& ascending(sorted)
}

/// The sort key of a row: its count counted down from the largest number,
/// so that keys rise where counts fall, and its name.
pub open spec fn key_of(row: (Seq<char>, usize)) -> (usize, Seq<char>) {
    ((usize::MAX - row.1) as usize, row.0)
}

/// The row of a sort key.
pub open spec fn row_of(pair: (usize, Seq<char>)) -> (Seq<char>, usize) {
    (pair.1, (usize::MAX - pair.0) as usize)
}

/// Whether `rows` lists the entries of table `m` in rank order.
pub open spec fn is_ranking(rows: Rows, m: Counts) -> bool {
    enumerates(rows, m) && ranked(rows)
}

/// The ranking of a finite table: its entries in rank order. There is
/// exactly one such list, see [`lemma_ranking_unique`].
pub open spec fn ranking_of(m: Counts) -> Rows {
    choose|rows: Rows| is_ranking(rows, m)
}

/// The first `limit` rows of the ranking of `m`, or all of them if there
/// are fewer.
pub open spec fn top_of(m: Counts, limit: nat) -> Rows {
    let all = ranking_of(m);
    all.take(if limit <= all.len() { limit as int } else { all.len() as int })
}

/// No text comes before itself.
pub proof fn lemma_text_before_irreflexive(a: Seq<char>)
    ensures
        !text_before(a, a),
    decreases a.len(),
{
    if a.len() > 0 {
        lemma_text_before_irreflexive(a.drop_first());
    }
}

/// Of two different texts one comes before the other.
pub proof fn lemma_text_before_total(a: Seq<char>, b: Seq<char>)
    requires
        a != b,
    ensures
        text_before(a, b) || text_before(b, a),
    decreases a.len(),
{
    if a.len() > 0 && b.len() > 0 && a[0] == b[0] {
        assert(a.drop_first() != b.drop_first()) by {
            if a.drop_first() == b.drop_first() {
                assert(a =~= seq![a[0]] + a.drop_first());
                assert(b =~= seq![b[0]] + b.drop_first());
            }
        }
        lemma_text_before_total(a.drop_first(), b.drop_first());
    } else if a.len() == 0 && b.len() == 0 {
        assert(a =~= b);
    }
}

/// The order of texts is transitive.
pub proof fn lemma_text_before_transitive(a: Seq<char>, b: Seq<char>, c: Seq<char>)
    requires
        text_before(a, b),
        text_before(b, c),
    ensures
        text_before(a, c),
    decreases a.len(),
{
    if a.len() > 0 && a[0] == b[0] && b[0] == c[0] {
        lemma_text_before_transitive(a.drop_first(), b.drop_first(), c.drop_first());
    }
}

/// Of two rows with different names one ranks before the other, and not
/// both do.
pub proof fn lemma_ranks_before_total(a: (Seq<char>, usize), b: (Seq<char>, usize))
    requires
        a.0 != b.0,
    ensures
        ranks_before(a, b) != ranks_before(b, a),
{
    lemma_text_before_total(a.0, b.0);
    if text_before(a.0, b.0) && text_before(b.0, a.0) {
        lemma_text_before_transitive(a.0, b.0, a.0);
        lemma_text_before_irreflexive(a.0);
    }
}

/// A listing has as many rows as the table has keys.
pub proof fn lemma_listing_len(rows: Rows, m: Counts)
    requires
        enumerates(rows, m),
    ensures
        m.dom().finite(),
        rows.len() == m.dom().len(),
{
    lemma_enumerated_finite(rows, m);
    let keys = names_of(rows);
    assert forall|i: int, j: int| 0 <= i < keys.len() && 0 <= j < keys.len() && i != j implies keys[i] != keys[j] by {
        if i < j {
            assert(rows[i].0 != rows[j].0);
        } else {
            assert(rows[j].0 != rows[i].0);
        }
    }
    keys.unique_seq_to_set();
}

/// A finite table has one ranking only: the order of its rows is fixed by
/// their counts and names.
pub proof fn lemma_ranking_unique(a: Rows, b: Rows, m: Counts)
    requires
        is_ranking(a, m),
        is_ranking(b, m),
    ensures
        a == b,
    decreases a.len(),
{
    lemma_listing_len(a, m);
    lemma_listing_len(b, m);
    if a.len() == 0 {
        assert(a =~= b);
    } else {
        assert(m.contains_pair(a[0].0, a[0].1));
        assert(m.contains_pair(b[0].0, b[0].1));
        let j = choose|j: int| 0 <= j < b.len() && (#[trigger] b[j]).0 == a[0].0;
        let i = choose|i: int| 0 <= i < a.len() && (#[trigger] a[i]).0 == b[0].0;
        assert(m.contains_pair(b[j].0, b[j].1));
        assert(m.contains_pair(a[i].0, a[i].1));
        assert(b[j] == a[0]);
        assert(a[i] == b[0]);
        if a[0].0 != b[0].0 {
            assert(0 < j);
            assert(0 < i);
            assert(!ranks_before(b[j], b[0]));
            assert(!ranks_before(a[i], a[0]));
            lemma_ranks_before_total(a[0], b[0]);
        }
        assert(a[0] == b[0]);
        let rest = m.remove(a[0].0);
        let at = a.drop_first();
        let bt = b.drop_first();
        assert(is_ranking(at, rest)) by {
            lemma_tail_ranking(a, m);
        }
        assert(is_ranking(bt, rest)) by {
            lemma_tail_ranking(b, m);
        }
        lemma_ranking_unique(at, bt, rest);
        assert(a =~= seq![a[0]] + at);
        assert(b =~= seq![b[0]] + bt);
    }
}

/// Without its first row, a ranking is the ranking of the table without
/// that row's key.
proof fn lemma_tail_ranking(a: Rows, m: Counts)
    requires
        is_ranking(a, m),
        a.len() > 0,
    ensures
        is_ranking(a.drop_first(), m.remove(a[0].0)),
{
    let rest = m.remove(a[0].0);
    let at = a.drop_first();
    assert forall|i: int, j: int| 0 <= i < j < at.len() implies (#[trigger] at[i]).0 != (#[trigger] at[j]).0 by {
        assert(a[i + 1].0 != a[j + 1].0);
    }
    assert forall|i: int| 0 <= i < at.len() implies rest.contains_pair((#[trigger] at[i]).0, at[i].1) by {
        assert(m.contains_pair(a[i + 1].0, a[i + 1].1));
        assert(a[0].0 != a[i + 1].0);
    }
    assert forall|key: Seq<char>| rest.contains_key(key) implies
        exists|i: int| 0 <= i < at.len() && (#[trigger] at[i]).0 == key by {
        let k = choose|k: int| 0 <= k < a.len() && (#[trigger] a[k]).0 == key;
        assert(at[k - 1].0 == key);
    }
    assert forall|i: int, j: int| 0 <= i < j < at.len() implies !ranks_before(#[trigger] at[j], #[trigger] at[i]) by {
        assert(!ranks_before(a[j + 1], a[i + 1]));
    }
}

/// A row that occurs at two places of a list occurs at least twice in its
/// multiset.
proof fn lemma_twice(rows: Rows, i: int, j: int)
    requires
        0 <= i < j < rows.len(),
        rows[i] == rows[j],
    ensures
        rows.to_multiset().count(rows[i]) >= 2,
{
    broadcast use vstd::seq_lib::group_to_multiset_ensures;
    let rest = rows.remove(i);
    assert(rest[j - 1] == rows[j]);
    assert(rest.contains(rows[i]));
    assert(rest.to_multiset().count(rows[i]) > 0);
    assert(rest.to_multiset() =~= rows.to_multiset().remove(rows[i]));
}

/// In a list whose names are distinct, no row occurs twice.
proof fn lemma_once(rows: Rows, i: int)
    requires
        0 <= i < rows.len(),
        forall|a: int, b: int| 0 <= a < b < rows.len() ==> (#[trigger] rows[a]).0 != (#[trigger] rows[b]).0,
    ensures
        rows.to_multiset().count(rows[i]) == 1,
{
    broadcast use vstd::seq_lib::group_to_multiset_ensures;
    let rest = rows.remove(i);
    assert(rows.contains(rows[i]));
    assert(rest.to_multiset() =~= rows.to_multiset().remove(rows[i]));
    if rest.to_multiset().count(rows[i]) > 0 {
        assert(rest.contains(rows[i]));
        let k = choose|k: int| 0 <= k < rest.len() && rest[k] == rows[i];
        if k < i {
            assert(rows[k].0 == rows[i].0);
        } else {
            assert(rows[k + 1].0 == rows[i].0);
        }
    }
}

/// A ranking of a listing of a table is itself a listing of that table.
pub proof fn lemma_ranking_lists(sorted: Rows, rows: Rows, m: Counts)
    requires
        is_ranking_of(sorted, rows),
        enumerates(rows, m),
    ensures
        enumerates(sorted, m),
{
    broadcast use vstd::seq_lib::group_to_multiset_ensures;
    assert forall|i: int| 0 <= i < sorted.len() implies m.contains_pair((#[trigger] sorted[i]).0, sorted[i].1) by {
        assert(sorted.contains(sorted[i]));
        assert(rows.to_multiset().count(sorted[i]) > 0);
        assert(rows.contains(sorted[i]));
        let k = choose|k: int| 0 <= k < rows.len() && rows[k] == sorted[i];
        assert(m.contains_pair(rows[k].0, rows[k].1));
    }
    assert forall|key: Seq<char>| m.contains_key(key) implies
        exists|i: int| 0 <= i < sorted.len() && (#[trigger] sorted[i]).0 == key by {
        let k = choose|k: int| 0 <= k < rows.len() && (#[trigger] rows[k]).0 == key;
        assert(rows.contains(rows[k]));
        assert(sorted.to_multiset().count(rows[k]) > 0);
        assert(sorted.contains(rows[k]));
        let i = choose|i: int| 0 <= i < sorted.len() && sorted[i] == rows[k];
        assert(sorted[i].0 == key);
    }
    assert forall|i: int, j: int| 0 <= i < j < sorted.len() implies (#[trigger] sorted[i]).0 != (#[trigger] sorted[j]).0 by {
        if sorted[i].0 == sorted[j].0 {
            assert(m.contains_pair(sorted[i].0, sorted[i].1));
            assert(m.contains_pair(sorted[j].0, sorted[j].1));
            assert(sorted[i] == sorted[j]);
            lemma_twice(sorted, i, j);
            assert(rows.contains(sorted[i]));
            let k = choose|k: int| 0 <= k < rows.len() && rows[k] == sorted[i];
            lemma_once(rows, k);
        }
    }
}

/// Two lists that hold the same items as often still do so after each
/// item was put through `f`.
proof fn lemma_map_keeps_multiset<A, B>(s: Seq<A>, t: Seq<A>, f: spec_fn(A) -> B)
    requires
        s.to_multiset() == t.to_multiset(),
    ensures
        s.map_values(f).to_multiset() == t.map_values(f).to_multiset(),
    decreases s.len(),
{
    broadcast use vstd::seq_lib::group_to_multiset_ensures;
    s.to_multiset_ensures();
    t.to_multiset_ensures();
    assert(s.len() == t.len());
    if s.len() == 0 {
        assert(s.map_values(f) =~= t.map_values(f));
    } else {
        let x = s.last();
        let front = s.drop_last();
        assert(s[s.len() - 1] == x);
        assert(s.contains(x));
        assert(t.to_multiset().count(x) > 0);
        assert(t.contains(x));
        let j = choose|j: int| 0 <= j < t.len() && t[j] == x;
        let rest = t.remove(j);
        assert(front =~= s.remove(s.len() - 1));
        assert(front.to_multiset() =~= s.to_multiset().remove(x));
        assert(rest.to_multiset() =~= t.to_multiset().remove(x));
        lemma_map_keeps_multiset(front, rest, f);
        let sm = s.map_values(f);
        let tm = t.map_values(f);
        assert(sm =~= front.map_values(f).push(f(x)));
        assert(tm.remove(j) =~= rest.map_values(f));
        assert(tm[j] == f(x));
        assert(tm.contains(f(x)));
        assert(sm.to_multiset() =~= front.map_values(f).to_multiset().insert(f(x)));
        assert(tm.remove(j).to_multiset() =~= tm.to_multiset().remove(f(x)));
        assert(tm.to_multiset() =~= tm.to_multiset().remove(f(x)).insert(f(x)));
    }
}

/// Calls `Itertools::sorted`: the pairs in ascending order, by number first
/// and among equal numbers by text, in the order of `String`.
#[verifier::external_body]
fn sort_pairs(pairs: Vec<(usize, String)>) -> (sorted: Vec<(usize, String)>)
    ensures
        is_sorting_of(sorted.deep_view(), pairs.deep_view()),
{
    pairs.into_iter().sorted().collect()
}

/// The sort keys of the rows, in the order of the rows.
fn keys_of(rows: &Vec<(String, usize)>) -> (pairs: Vec<(usize, String)>)
    ensures
        pairs.deep_view() == rows.deep_view().map_values(|row: (Seq<char>, usize)| key_of(row)),
{
    let mut pairs: Vec<(usize, String)> = Vec::new();
    let mut i: usize = 0;
    while i < rows.len()
        invariant
            i <= rows@.len(),
            pairs@.len() == i,
            forall|k: int| 0 <= k < i ==> (#[trigger] pairs@[k]).0 == usize::MAX - rows@[k].1 && pairs@[k].1@ == rows@[k].0@,
        decreases rows@.len() - i,
    {
        pairs.push((usize::MAX - rows[i].1, rows[i].0.clone()));
        i = i + 1;
    }
    proof {
        let wanted = rows.deep_view().map_values(|row: (Seq<char>, usize)| key_of(row));
        assert(pairs.deep_view().len() == wanted.len());
        assert forall|k: int| 0 <= k < wanted.len() implies pairs.deep_view()[k] == wanted[k] by {
            assert(pairs.deep_view()[k] == pairs@[k].deep_view());
            assert(rows.deep_view()[k] == rows@[k].deep_view());
        }
        assert(pairs.deep_view() =~= wanted);
    }
    pairs
}

/// The rows of the sort keys, in the order of the keys.
fn rows_of(pairs: &Vec<(usize, String)>) -> (rows: Vec<(String, usize)>)
    ensures
        rows.deep_view() == pairs.deep_view().map_values(|pair: (usize, Seq<char>)| row_of(pair)),
{
    let mut rows: Vec<(String, usize)> = Vec::new();
    let mut i: usize = 0;
    while i < pairs.len()
        invariant
            i <= pairs@.len(),
            rows@.len() == i,
            forall|k: int| 0 <= k < i ==> (#[trigger] rows@[k]).1 == usize::MAX - pairs@[k].0 && rows@[k].0@ == pairs@[k].1@,
        decreases pairs@.len() - i,
    {
        rows.push((pairs[i].1.clone(), usize::MAX - pairs[i].0));
        i = i + 1;
    }
    proof {
        let wanted = pairs.deep_view().map_values(|pair: (usize, Seq<char>)| row_of(pair));
        assert(rows.deep_view().len() == wanted.len());
        assert forall|k: int| 0 <= k < wanted.len() implies rows.deep_view()[k] == wanted[k] by {
            assert(rows.deep_view()[k] == rows@[k].deep_view());
            assert(pairs.deep_view()[k] == pairs@[k].deep_view());
        }
        assert(rows.deep_view() =~= wanted);
    }
    rows
}

/// The rows in rank order: by falling count, and among equal counts by
/// name. Rows that list a table come back as the ranking of that table.
pub fn rank(rows: Vec<(String, usize)>) -> (sorted: Vec<(String, usize)>)
    ensures
        is_ranking_of(sorted.deep_view(), rows.deep_view()),
        forall|m: Counts| enumerates(rows.deep_view(), m) ==> sorted.deep_view() == #[trigger] ranking_of(m),
{
    let ghost before = rows.deep_view();
    let pairs = keys_of(&rows);
    let ghost keys = pairs.deep_view();
    let ordered = sort_pairs(pairs);
    let sorted = rows_of(&ordered);
    proof {
        let to_key = |row: (Seq<char>, usize)| key_of(row);
        let to_row = |pair: (usize, Seq<char>)| row_of(pair);
        let after = sorted.deep_view();
        lemma_map_keeps_multiset(ordered.deep_view(), keys, to_row);
        assert(keys.map_values(to_row) =~= before);
        assert forall|i: int, j: int| 0 <= i < j < after.len() implies !ranks_before(#[trigger] after[j], #[trigger] after[i]) by {
            assert(!pair_before(ordered.deep_view()[j], ordered.deep_view()[i]));
        }
        assert forall|m: Counts| enumerates(before, m) implies after == #[trigger] ranking_of(m) by {
            lemma_ranking_lists(after, before, m);
            assert(is_ranking(after, m));
            lemma_ranking_unique(after, ranking_of(m), m);
        }
    }
    sorted
}

/// The first `limit` rows, or all of them if there are fewer.
pub fn top(rows: Vec<(String, usize)>, limit: usize) -> (first: Vec<(String, usize)>)
    ensures
        first.deep_view() == rows.deep_view().take(if limit <= rows@.len() { limit as int } else { rows@.len() as int }),
{
    let mut first = rows;
    first.truncate(limit);
    proof {
        let n = if limit <= rows@.len() { limit as int } else { rows@.len() as int };
        assert(first@ =~= rows@.take(n));
        assert(first.deep_view() =~= rows.deep_view().take(n));
    }
    first
}

/// The ranking of a listed table, cut after `limit` rows.
pub fn ranking(rows: Vec<(String, usize)>, limit: usize) -> (first: Vec<(String, usize)>)
    ensures
        forall|m: Counts| enumerates(rows.deep_view(), m) ==> first.deep_view() == #[trigger] top_of(m, limit as nat),
{
    top(rank(rows), limit)
}

/// The tables of the final report.
#[derive(Debug)]
pub struct Report {
    /// The most frequent words over all sentences.
    pub words: Vec<(String, usize)>,
    /// The most frequent words over first occurrences of sentences.
    pub words_deduped: Vec<(String, usize)>,
    /// The most frequent trigrams over all sentences.
    pub trigrams: Vec<(String, usize)>,
    /// The most frequent trigrams over first occurrences of sentences.
    pub trigrams_deduped: Vec<(String, usize)>,
    /// Sentences counted.
    pub sentences_total: usize,
    /// Distinct sentences.
    pub sentences_unique: usize,
    /// All visited domains, most visited first.
    pub sites: Vec<(String, usize)>,
    /// All link targets, most linked first.
    pub outlinks: Vec<(String, usize)>,
    /// Links seen, self-links included.
    pub total_links: usize,
    /// The sum of the per-domain outlink counts.
    pub outlink_sum: usize,
}

/// The report on the final state of a run.
pub fn report(state: &AggregationState, links: &LinkGraph) -> (r: Report)
    requires
        state.wf(),
        links.wf(),
    ensures
        r.words.deep_view() == top_of(state@.words, TOP_ROWS as nat),
        r.words_deduped.deep_view() == top_of(state@.words_deduped, TOP_ROWS as nat),
        r.trigrams.deep_view() == top_of(state@.trigrams, TOP_ROWS as nat),
        r.trigrams_deduped.deep_view() == top_of(state@.trigrams_deduped, TOP_ROWS as nat),
        r.sentences_total == total_of(state@.sentences),
        r.sentences_unique == state@.sentences.dom().len(),
        r.sites.deep_view() == ranking_of(state@.sites),
        r.outlinks.deep_view() == ranking_of(links@.outlinks),
        r.total_links == links@.total,
        r.outlink_sum == total_of(links@.outlinks),
        r.outlink_sum <= r.total_links,
        r.outlink_sum == r.total_links <==> links@.self_links == 0,
{
    let summary = state.sentence_summary();
    Report {
        words: ranking(state.word_rows(), TOP_ROWS),
        words_deduped: ranking(state.deduped_word_rows(), TOP_ROWS),
        trigrams: ranking(state.trigram_rows(), TOP_ROWS),
        trigrams_deduped: ranking(state.deduped_trigram_rows(), TOP_ROWS),
        sentences_total: summary.0,
        sentences_unique: summary.1,
        sites: rank(state.site_rows()),
        outlinks: rank(links.outlink_rows()),
        total_links: links.total_links(),
        outlink_sum: links.outlink_sum(),
    }
}

} // verus!
