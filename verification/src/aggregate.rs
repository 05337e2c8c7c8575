//! The aggregation state of a run: site visits, sentence counts, and the
//! word and trigram tables, each of the two with and without the sentences
//! that were seen before.

use vstd::prelude::*;
use crate::counts::{
    Counts, count_of, bumped, bump_all, enumerates, occurrences, positive, total_of, lemma_bump_all,
    lemma_bump_all_positive, lemma_bumped_positive, lemma_count_at_most_total, lemma_total_of_bumped,
    lemma_total_of_empty,
};
use crate::domain::Domain;
use crate::langid::{IsIsiXhosa, Verdict, decide};
use crate::sentence::{normalized, words_of, trigrams_of, normalize, split_words, trigrams, lemma_normalized_at_most, lemma_words_at_most_chars};
use crate::table::FrequencyTable;

verus! {

/// A progress row is due whenever the word total passes a multiple of this.
pub const PROGRESS_STEP: usize = 100_000;

/// The model of the aggregation state.
pub struct AggregationView {
    /// Words counted over all accepted sentences.
    pub total_words: nat,
    /// Words counted over first occurrences of sentences only.
    pub deduped_words: nat,
    /// Occurrences per normalised sentence.
    pub sentences: Counts,
    /// Occurrences per word, over all sentences.
    pub words: Counts,
    /// Occurrences per word, over first occurrences of sentences.
    pub words_deduped: Counts,
    /// Occurrences per trigram, over all sentences.
    pub trigrams: Counts,
    /// Occurrences per trigram, over first occurrences of sentences.
    pub trigrams_deduped: Counts,
    /// Visits per domain.
    pub sites: Counts,
}

impl AggregationView {
    /// The state before anything was recorded.
    pub open spec fn empty() -> AggregationView {
        AggregationView {
            total_words: 0,
            deduped_words: 0,
            sentences: Map::empty(),
            words: Map::empty(),
            words_deduped: Map::empty(),
            trigrams: Map::empty(),
            trigrams_deduped: Map::empty(),
            sites: Map::empty(),
        }
    }

    /// What holds of every state: every key of a table was counted at
    /// least once, the totals are the sums of their tables, and no
    /// deduplicated count exceeds the count with duplicates.
    pub open spec fn consistent(self) -> bool {
        &&& positive(self.sentences)
        &&& positive(self.words)
        &&& positive(self.words_deduped)
        &&& positive(self.trigrams)
        &&& positive(self.trigrams_deduped)
        &&& positive(self.sites)
        &&& self.sentences.dom().finite()
        &&& self.words.dom().finite()
        &&& self.words_deduped.dom().finite()
        &&& self.trigrams.dom().finite()
        &&& self.trigrams_deduped.dom().finite()
        &&& self.sites.dom().finite()
        &&& self.total_words == total_of(self.words)
        &&& self.deduped_words == total_of(self.words_deduped)
        &&& self.deduped_words <= self.total_words
        &&& total_of(self.trigrams_deduped) <= total_of(self.trigrams)
        &&& forall|word: Seq<char>| count_of(self.words_deduped, word) <= count_of(self.words, word)
        &&& forall|gram: Seq<char>| count_of(self.trigrams_deduped, gram) <= count_of(self.trigrams, gram)
    }

    /// Whether one more sentence of `chars` characters can be counted
    /// without a counter leaving the machine's range.
    pub open spec fn has_room(self, chars: nat) -> bool {
        &&& total_of(self.sentences) < usize::MAX
        &&& total_of(self.words) + chars <= usize::MAX
        &&& total_of(self.trigrams) + chars <= usize::MAX
    }

    /// The state after one more visit to `domain`.
    pub open spec fn after_visit(self, domain: Seq<char>) -> AggregationView {
        AggregationView { sites: bumped(self.sites, domain), ..self }
    }

    /// The state after the normalised sentence `s` was accepted. The tables
    /// without duplicates advance only if `s` was not seen before.
    pub open spec fn after_sentence(self, s: Seq<char>) -> AggregationView {
        let fresh = !self.sentences.contains_key(s);
        AggregationView {
            total_words: self.total_words + words_of(s).len(),
            deduped_words: if fresh { self.deduped_words + words_of(s).len() } else { self.deduped_words },
            sentences: bumped(self.sentences, s),
            words: bump_all(self.words, words_of(s)),
            words_deduped: if fresh { bump_all(self.words_deduped, words_of(s)) } else { self.words_deduped },
            trigrams: bump_all(self.trigrams, trigrams_of(s)),
            trigrams_deduped: if fresh { bump_all(self.trigrams_deduped, trigrams_of(s)) } else { self.trigrams_deduped },
            sites: self.sites,
        }
    }
}

/// Whether a step of the word total from `before` to `after` passes a
/// multiple of [`PROGRESS_STEP`].
pub open spec fn progress_due(before: nat, after: nat) -> bool {
    before / (PROGRESS_STEP as nat) < after / (PROGRESS_STEP as nat)
}

/// Accepting a sentence keeps the state consistent: in particular, no
/// deduplicated word or trigram count comes to exceed its count with
/// duplicates.
pub proof fn lemma_after_sentence_consistent(v: AggregationView, s: Seq<char>)
    requires
        v.consistent(),
        v.has_room(s.len()),
    ensures
        v.after_sentence(s).consistent(),
{
    lemma_words_at_most_chars(s);
    lemma_bump_all(v.words, words_of(s));
    lemma_bump_all(v.words_deduped, words_of(s));
    lemma_bump_all(v.trigrams, trigrams_of(s));
    lemma_bump_all(v.trigrams_deduped, trigrams_of(s));
    lemma_count_at_most_total(v.sentences, s);
    lemma_total_of_bumped(v.sentences, s);
    lemma_bumped_positive(v.sentences, s);
    lemma_bump_all_positive(v.words, words_of(s));
    lemma_bump_all_positive(v.words_deduped, words_of(s));
    lemma_bump_all_positive(v.trigrams, trigrams_of(s));
    lemma_bump_all_positive(v.trigrams_deduped, trigrams_of(s));
    let after = v.after_sentence(s);
    assert forall|word: Seq<char>| count_of(after.words_deduped, word) <= count_of(after.words, word) by {
        assert(count_of(v.words_deduped, word) <= count_of(v.words, word));
        assert(count_of(bump_all(v.words, words_of(s)), word) >= count_of(v.words, word));
        assert(count_of(bump_all(v.words_deduped, words_of(s)), word) == count_of(v.words_deduped, word)
            + occurrences(words_of(s), word));
    }
    assert forall|gram: Seq<char>| count_of(after.trigrams_deduped, gram) <= count_of(after.trigrams, gram) by {
        assert(count_of(v.trigrams_deduped, gram) <= count_of(v.trigrams, gram));
        assert(count_of(bump_all(v.trigrams, trigrams_of(s)), gram) >= count_of(v.trigrams, gram));
        assert(count_of(bump_all(v.trigrams_deduped, trigrams_of(s)), gram) == count_of(v.trigrams_deduped, gram)
            + occurrences(trigrams_of(s), gram));
    }
}

/// In a consistent state every key of a deduplicated table is a key of
/// the table with duplicates: what was counted on a first occurrence was
/// counted.
pub proof fn lemma_deduped_keys_are_counted(v: AggregationView)
    requires
        v.consistent(),
    ensures
        forall|word: Seq<char>| #[trigger] v.words_deduped.contains_key(word) ==> v.words.contains_key(word),
        forall|gram: Seq<char>| #[trigger] v.trigrams_deduped.contains_key(gram) ==> v.trigrams.contains_key(gram),
{
    assert forall|word: Seq<char>| #[trigger] v.words_deduped.contains_key(word) implies v.words.contains_key(word) by {
        assert(count_of(v.words_deduped, word) <= count_of(v.words, word));
    }
    assert forall|gram: Seq<char>| #[trigger] v.trigrams_deduped.contains_key(gram) implies v.trigrams.contains_key(gram) by {
        assert(count_of(v.trigrams_deduped, gram) <= count_of(v.trigrams, gram));
    }
}

/// One row of the periodic progress report.
#[derive(Debug, Clone, Copy, PartialEq, Eq)]
pub struct Progress {
    /// Words counted so far.
    pub total_words: usize,
    /// Words counted over first occurrences of sentences.
    pub deduped_words: usize,
    /// Distinct words seen.
    pub distinct_words: usize,
    /// Distinct trigrams seen.
    pub distinct_trigrams: usize,
}

/// The aggregation state of one run.
pub struct AggregationState {
    total_words: usize,
    deduped_words: usize,
    sentences: FrequencyTable,
    words: FrequencyTable,
    words_deduped: FrequencyTable,
    trigrams: FrequencyTable,
    trigrams_deduped: FrequencyTable,
    sites: FrequencyTable,
}

impl View for AggregationState {
    type V = AggregationView;

    closed spec fn view(&self) -> AggregationView {
        AggregationView {
            total_words: self.total_words as nat,
            deduped_words: self.deduped_words as nat,
            sentences: self.sentences@,
            words: self.words@,
            words_deduped: self.words_deduped@,
            trigrams: self.trigrams@,
            trigrams_deduped: self.trigrams_deduped@,
            sites: self.sites@,
        }
    }
}

impl AggregationState {
    /// Whether each table is valid in itself.
    pub closed spec fn tables_wf(&self) -> bool {
        &&& self.sentences.wf()
        &&& self.words.wf()
        &&& self.words_deduped.wf()
        &&& self.trigrams.wf()
        &&& self.trigrams_deduped.wf()
        &&& self.sites.wf()
    }

    /// Validity of the state.
    pub open spec fn wf(&self) -> bool {
        &&& self.tables_wf()
        &&& self@.consistent()
    }

    /// The state before anything was recorded.
    pub fn new() -> (state: Self)
        ensures
            state.wf(),
            state@ == AggregationView::empty(),
    {
        proof {
            lemma_total_of_empty();
        }
        AggregationState {
            total_words: 0,
            deduped_words: 0,
            sentences: FrequencyTable::new(),
            words: FrequencyTable::new(),
            words_deduped: FrequencyTable::new(),
            trigrams: FrequencyTable::new(),
            trigrams_deduped: FrequencyTable::new(),
            sites: FrequencyTable::new(),
        }
    }

    /// The distinct sentences with their counts, each sentence once.
    pub fn sentence_rows(&self) -> (rows: Vec<(String, usize)>)
        requires
            self.wf(),
        ensures
            enumerates(rows.deep_view(), self@.sentences),
    {
        self.sentences.entries()
    }

    /// The words with their counts over all sentences, each word once.
    pub fn word_rows(&self) -> (rows: Vec<(String, usize)>)
        requires
            self.wf(),
        ensures
            enumerates(rows.deep_view(), self@.words),
    {
        self.words.entries()
    }

    /// The words with their counts over first occurrences of sentences.
    pub fn deduped_word_rows(&self) -> (rows: Vec<(String, usize)>)
        requires
            self.wf(),
        ensures
            enumerates(rows.deep_view(), self@.words_deduped),
    {
        self.words_deduped.entries()
    }

    /// The trigrams with their counts over all sentences.
    pub fn trigram_rows(&self) -> (rows: Vec<(String, usize)>)
        requires
            self.wf(),
        ensures
            enumerates(rows.deep_view(), self@.trigrams),
    {
        self.trigrams.entries()
    }

    /// The trigrams with their counts over first occurrences of sentences.
    pub fn deduped_trigram_rows(&self) -> (rows: Vec<(String, usize)>)
        requires
            self.wf(),
        ensures
            enumerates(rows.deep_view(), self@.trigrams_deduped),
    {
        self.trigrams_deduped.entries()
    }

    /// The visited domains with their visit counts.
    pub fn site_rows(&self) -> (rows: Vec<(String, usize)>)
        requires
            self.wf(),
        ensures
            enumerates(rows.deep_view(), self@.sites),
    {
        self.sites.entries()
    }

    /// All visits counted.
    pub fn site_total(&self) -> (n: usize)
        requires
            self.wf(),
        ensures
            n == total_of(self@.sites),
    {
        self.sites.total()
    }

    /// The number of sentences counted, and the number of distinct ones.
    pub fn sentence_summary(&self) -> (summary: (usize, usize))
        requires
            self.wf(),
        ensures
            summary.0 == total_of(self@.sentences),
            summary.1 == self@.sentences.dom().len(),
    {
        (self.sentences.total(), self.sentences.len())
    }

    /// The words counted over all sentences.
    pub fn total_words(&self) -> (n: usize)
        ensures
            n == self@.total_words,
    {
        self.total_words
    }

    /// The words counted over first occurrences of sentences.
    pub fn deduped_words(&self) -> (n: usize)
        ensures
            n == self@.deduped_words,
    {
        self.deduped_words
    }

    /// The visits counted for `domain`.
    pub fn visits(&self, domain: &str) -> (n: usize)
        ensures
            n == count_of(self@.sites, domain@),
    {
        self.sites.get(domain)
    }

    /// The count of `word` over all sentences.
    pub fn word_count(&self, word: &str) -> (n: usize)
        ensures
            n == count_of(self@.words, word@),
    {
        self.words.get(word)
    }

    /// The count of `word` over first occurrences of sentences. It never
    /// exceeds [`Self::word_count`].
    pub fn deduped_word_count(&self, word: &str) -> (n: usize)
        requires
            self.wf(),
        ensures
            n == count_of(self@.words_deduped, word@),
            n <= count_of(self@.words, word@),
    {
        self.words_deduped.get(word)
    }

    /// The count of `gram` over all sentences.
    pub fn trigram_count(&self, gram: &str) -> (n: usize)
        ensures
            n == count_of(self@.trigrams, gram@),
    {
        self.trigrams.get(gram)
    }

    /// The count of `gram` over first occurrences of sentences. It never
    /// exceeds [`Self::trigram_count`].
    pub fn deduped_trigram_count(&self, gram: &str) -> (n: usize)
        requires
            self.wf(),
        ensures
            n == count_of(self@.trigrams_deduped, gram@),
            n <= count_of(self@.trigrams, gram@),
    {
        self.trigrams_deduped.get(gram)
    }

    /// Whether a sentence of `chars` characters can still be counted.
    pub fn has_room(&self, chars: usize) -> (r: bool)
        requires
            self.wf(),
        ensures
            r == self@.has_room(chars as nat),
    {
        self.sentences.total() < usize::MAX && self.words.total() <= usize::MAX - chars
            && self.trigrams.total() <= usize::MAX - chars
    }

    /// Takes a classified sentence in: one that the classifier accepted is
    /// counted as by [`Self::record_sentence`], any other leaves every table
    /// as it was.
    pub fn take_classified(&mut self, sentence: &str, decision: IsIsiXhosa) -> (progress: Option<Progress>)
        requires
            old(self).wf(),
            decision == IsIsiXhosa::Yes ==> old(self)@.has_room(sentence@.len()),
        ensures
            final(self).wf(),
            decision == IsIsiXhosa::No ==> final(self)@ == old(self)@ && progress is None,
            decision == IsIsiXhosa::Yes ==> final(self)@ == old(self)@.after_sentence(normalized(sentence@)),
            progress is Some <==> progress_due(old(self)@.total_words, final(self)@.total_words),
            progress matches Some(row) ==> {
                &&& row.total_words == final(self)@.total_words
                &&& row.deduped_words == final(self)@.deduped_words
                &&& row.distinct_words == final(self)@.words.dom().len()
                &&& row.distinct_trigrams == final(self)@.trigrams.dom().len()
            },
    {
        match decision {
            IsIsiXhosa::Yes => self.record_sentence(sentence),
            IsIsiXhosa::No => None,
        }
    }

    /// Takes a sentence in with the classifier's verdict on it. The sentence
    /// is counted only if the confidence reaches the threshold and the
    /// language is the target language; a verdict that fails either leaves
    /// every table as it was.
    pub fn take_verdict(&mut self, sentence: &str, verdict: &Verdict) -> (progress: Option<Progress>)
        requires
            old(self).wf(),
            verdict@.accepts() ==> old(self)@.has_room(sentence@.len()),
        ensures
            final(self).wf(),
            !verdict@.accepts() ==> final(self)@ == old(self)@ && progress is None,
            verdict@.accepts() ==> final(self)@ == old(self)@.after_sentence(normalized(sentence@)),
            progress is Some <==> progress_due(old(self)@.total_words, final(self)@.total_words),
            progress matches Some(row) ==> {
                &&& row.total_words == final(self)@.total_words
                &&& row.deduped_words == final(self)@.deduped_words
                &&& row.distinct_words == final(self)@.words.dom().len()
                &&& row.distinct_trigrams == final(self)@.trigrams.dom().len()
            },
    {
        self.take_classified(sentence, decide(verdict))
    }

    /// Counts one visit to `domain`.
    pub fn record_visit(&mut self, domain: &Domain)
        requires
            old(self).wf(),
            total_of(old(self)@.sites) < usize::MAX,
        ensures
            final(self).wf(),
            final(self)@ == old(self)@.after_visit(domain@),
    {
        self.sites.bump(domain.as_str());
    }

    /// Counts the sentence: normalises it, counts it, its words and its
    /// trigrams, and lets the tables without duplicates advance only on the
    /// first occurrence of its normal form. A progress row comes back when
    /// the word total passed a multiple of [`PROGRESS_STEP`].
    pub fn record_sentence(&mut self, sentence: &str) -> (progress: Option<Progress>)
        requires
            old(self).wf(),
            old(self)@.has_room(sentence@.len()),
        ensures
            final(self).wf(),
            final(self)@ == old(self)@.after_sentence(normalized(sentence@)),
            progress is Some <==> progress_due(old(self)@.total_words, final(self)@.total_words),
            progress matches Some(row) ==> {
                &&& row.total_words == final(self)@.total_words
                &&& row.deduped_words == final(self)@.deduped_words
                &&& row.distinct_words == final(self)@.words.dom().len()
                &&& row.distinct_trigrams == final(self)@.trigrams.dom().len()
            },
    {
        let text = normalize(sentence);
        let words = split_words(text.as_str());
        let grams = trigrams(text.as_str());
        proof {
            lemma_normalized_at_most(sentence@);
            lemma_words_at_most_chars(text@);
            lemma_after_sentence_consistent(self@, text@);
            lemma_count_at_most_total(self@.sentences, text@);
        }
        let fresh = self.sentences.get(text.as_str()) == 0;
        let start = self.total_words;
        self.sentences.bump(text.as_str());
        self.words.bump_each(&words);
        self.trigrams.bump_each(&grams);
        self.total_words = self.total_words + words.len();
        if fresh {
            self.words_deduped.bump_each(&words);
            self.trigrams_deduped.bump_each(&grams);
            self.deduped_words = self.deduped_words + words.len();
        }
        if start / PROGRESS_STEP < self.total_words / PROGRESS_STEP {
            Some(Progress {
                total_words: self.total_words,
                deduped_words: self.deduped_words,
                distinct_words: self.words.len(),
                distinct_trigrams: self.trigrams.len(),
            })
        } else {
            None
        }
    }
}

} // verus!
