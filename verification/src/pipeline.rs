//! The run over the input lines: each line is decoded, its URLs are
//! resolved, and the visit and link counters advance.

use vstd::prelude::*;
use crate::aggregate::{AggregationState, AggregationView};
use crate::checkpoint::next_checkpoint;
use crate::counts::{total_of, lemma_bumped_positive, lemma_count_at_most_total, lemma_total_of_bumped};
use crate::domain::{Domain, InvalidUrlError, Resolver};
use crate::links::{LinkGraph, LinkView, lemma_after_link_consistent};
use crate::record::{Record, RecordView, decoded, decode};

verus! {

/// What became of one record.
#[derive(Debug)]
pub enum Ingested {
    /// The page at `url` was counted as a visit to `domain`; `content` is
    /// its HTML.
    Site { url: String, domain: Domain, content: String },
    /// A link between two domains was counted.
    Link { from: Domain, to: Domain },
    /// A link was dropped because one of its ends names no domain.
    DroppedLink,
    /// A skipped page was passed over.
    Skipped,
}

/// The model of [`Ingested`].
pub enum IngestedView {
    Site { url: Seq<char>, domain: Seq<char>, content: Seq<char> },
    Link { from: Seq<char>, to: Seq<char> },
    DroppedLink,
    Skipped,
}

impl View for Ingested {
    type V = IngestedView;

    open spec fn view(&self) -> IngestedView {
        match self {
            Ingested::Site { url, domain, content } => IngestedView::Site { url: url@, domain: domain@, content: content@ },
            Ingested::Link { from, to } => IngestedView::Link { from: from@, to: to@ },
            Ingested::DroppedLink => IngestedView::DroppedLink,
            Ingested::Skipped => IngestedView::Skipped,
        }
    }
}

/// The models of a list of outcomes.
pub open spec fn outcomes_view(outcomes: Seq<Ingested>) -> Seq<IngestedView> {
    outcomes.map_values(|e: Ingested| e@)
}

impl IngestedView {
    /// Whether this is a link from a domain to itself.
    pub open spec fn is_self_link(self) -> bool {
        self matches IngestedView::Link { from, to } && from == to
    }
}

/// Why a run stopped.
#[derive(Debug, Clone, Copy, PartialEq, Eq, Structural)]
pub enum RunError {
    /// A line is no record.
    Decode,
    /// The URL of a page names no domain.
    InvalidUrl,
}

/// What becomes of `record` under `resolver`: a page is counted for the
/// domain of its URL and fails if there is none; a link is counted between
/// the domains of its ends and dropped if either has none; a skipped page
/// is passed over.
pub open spec fn outcome_of(resolver: Resolver, record: RecordView) -> Result<IngestedView, RunError> {
    match record {
        RecordView::Site { url, content } => match resolver.canonical_of(url) {
            Some(domain) => Ok(IngestedView::Site { url, domain, content }),
            None => Err(RunError::InvalidUrl),
        },
        RecordView::Link { from, to } => match (resolver.canonical_of(from), resolver.canonical_of(to)) {
            (Some(a), Some(b)) => Ok(IngestedView::Link { from: a, to: b }),
            _ => Ok(IngestedView::DroppedLink),
        },
        RecordView::SkippedSite { url, translated } => Ok(IngestedView::Skipped),
    }
}

/// What becomes of an input line under `resolver`.
pub open spec fn line_outcome(resolver: Resolver, line: Seq<char>) -> Result<IngestedView, RunError> {
    match decoded(line) {
        Some(record) => outcome_of(resolver, record),
        None => Err(RunError::Decode),
    }
}

/// Whether each of the lines `from..to` has an outcome.
pub open spec fn all_taken(resolver: Resolver, lines: Seq<Seq<char>>, from: int, to: int) -> bool {
    forall|i: int| from <= i < to ==> (#[trigger] line_outcome(resolver, lines[i])) is Ok
}

/// The outcomes of the lines `from..to`, in order.
pub open spec fn outcomes_of(resolver: Resolver, lines: Seq<Seq<char>>, from: int, to: int) -> Seq<IngestedView> {
    Seq::new(
        if from <= to { (to - from) as nat } else { 0nat },
        |i: int| match line_outcome(resolver, lines[from + i]) {
            Ok(outcome) => outcome,
            Err(_) => IngestedView::Skipped,
        },
    )
}

/// The model of the counters of a run.
pub struct RunView {
    pub state: AggregationView,
    pub links: LinkView,
}

impl RunView {
    /// The counters before the first line.
    pub open spec fn empty() -> RunView {
        RunView { state: AggregationView::empty(), links: LinkView::empty() }
    }

    /// What holds of the counters at all times.
    pub open spec fn consistent(self) -> bool {
        self.state.consistent() && self.links.consistent()
    }

    /// Whether `n` more records can be counted without a counter leaving
    /// the machine's range.
    pub open spec fn has_room(self, n: nat) -> bool {
        total_of(self.state.sites) + n <= usize::MAX && self.links.total + n <= usize::MAX
    }

    /// The counters after one outcome.
    pub open spec fn after(self, outcome: IngestedView) -> RunView {
        match outcome {
            IngestedView::Site { url, domain, content } => RunView { state: self.state.after_visit(domain), ..self },
            IngestedView::Link { from, to } => RunView { links: self.links.after_link(from, to), ..self },
            IngestedView::DroppedLink => self,
            IngestedView::Skipped => self,
        }
    }

    /// The counters after a list of outcomes, in order.
    pub open spec fn after_all(self, outcomes: Seq<IngestedView>) -> RunView
        decreases outcomes.len(),
    {
        if outcomes.len() == 0 {
            self
        } else {
            self.after_all(outcomes.drop_last()).after(outcomes.last())
        }
    }
}

/// One outcome keeps the counters consistent and takes at most one unit of
/// room.
pub proof fn lemma_after_consistent(v: RunView, outcome: IngestedView, n: nat)
    requires
        v.consistent(),
        v.has_room(n),
        n >= 1,
    ensures
        v.after(outcome).consistent(),
        v.after(outcome).has_room((n - 1) as nat),
{
    match outcome {
        IngestedView::Site { url, domain, content } => {
            lemma_count_at_most_total(v.state.sites, domain);
            lemma_total_of_bumped(v.state.sites, domain);
            lemma_bumped_positive(v.state.sites, domain);
        },
        IngestedView::Link { from, to } => {
            lemma_after_link_consistent(v.links, from, to);
        },
        _ => {},
    }
}

/// The model of what taking a record in gives.
pub open spec fn taken_view(taken: Result<Ingested, RunError>) -> Result<IngestedView, RunError> {
    match taken {
        Ok(outcome) => Ok(outcome@),
        Err(error) => Err(error),
    }
}

/// What one run did.
#[derive(Debug)]
pub struct Run {
    /// The outcome of each line that was processed, in order.
    pub outcomes: Vec<Ingested>,
    /// The checkpoint to store: the lines consumed so far.
    pub checkpoint: usize,
}

/// Where and why a run stopped.
#[derive(Debug, Clone, Copy, PartialEq, Eq)]
pub struct RunFailure {
    /// The index of the line, counted from zero.
    pub line: usize,
    pub error: RunError,
}

/// The counters of a run.
pub struct Aggregator {
    pub state: AggregationState,
    pub links: LinkGraph,
}

impl View for Aggregator {
    type V = RunView;

    open spec fn view(&self) -> RunView {
        RunView { state: self.state@, links: self.links@ }
    }
}

impl Aggregator {
    /// Validity of the counters.
    pub open spec fn wf(&self) -> bool {
        self.state.wf() && self.links.wf()
    }

    /// Counters at zero.
    pub fn new() -> (fresh: Self)
        ensures
            fresh.wf(),
            fresh@ == RunView::empty(),
    {
        Aggregator { state: AggregationState::new(), links: LinkGraph::new() }
    }

    /// Whether `n` more records can be counted.
    pub fn has_room(&self, n: usize) -> (r: bool)
        requires
            self.wf(),
        ensures
            r == self@.has_room(n as nat),
    {
        self.state.site_total() <= usize::MAX - n && self.links.total_links() <= usize::MAX - n
    }

    /// Counts the page at `url`, which was resolved to `resolved`. A page
    /// without a domain is an error and counts nowhere.
    pub fn apply_site(&mut self, url: String, resolved: Result<Domain, InvalidUrlError>, content: String) -> (r: Result<Ingested, InvalidUrlError>)
        requires
            old(self).wf(),
            old(self)@.has_room(1),
        ensures
            final(self).wf(),
            match (resolved, r) {
                (Ok(domain), Ok(outcome)) => outcome@ == (IngestedView::Site { url: url@, domain: domain@, content: content@ })
                    && final(self)@ == old(self)@.after(outcome@),
                (Err(_), Err(_)) => final(self)@ == old(self)@,
                _ => false,
            },
    {
        match resolved {
            Ok(domain) => {
                self.state.record_visit(&domain);
                Ok(Ingested::Site { url, domain, content })
            },
            Err(e) => Err(e),
        }
    }

    /// Counts a link whose ends were resolved to `from` and `to`. A link
    /// with an end that names no domain is dropped and counts nowhere.
    pub fn apply_link(&mut self, from: Result<Domain, InvalidUrlError>, to: Result<Domain, InvalidUrlError>) -> (outcome: Ingested)
        requires
            old(self).wf(),
            old(self)@.has_room(1),
        ensures
            final(self).wf(),
            final(self)@ == old(self)@.after(outcome@),
            match (from, to) {
                (Ok(a), Ok(b)) => outcome@ == (IngestedView::Link { from: a@, to: b@ }),
                _ => outcome@ == IngestedView::DroppedLink,
            },
    {
        match (from, to) {
            (Ok(a), Ok(b)) => {
                self.links.record_link(&a, &b);
                Ingested::Link { from: a, to: b }
            },
            _ => Ingested::DroppedLink,
        }
    }

    /// Takes one record in: it is counted as [`outcome_of`] says. Only a page
    /// can fail, and then nothing is counted.
    pub fn ingest(&mut self, resolver: &Resolver, record: Record) -> (r: Result<Ingested, RunError>)
        requires
            old(self).wf(),
            old(self)@.has_room(1),
        ensures
            final(self).wf(),
            taken_view(r) == outcome_of(*resolver, record@),
            final(self)@ == match r {
                Ok(outcome) => old(self)@.after(outcome@),
                Err(_) => old(self)@,
            },
    {
        match record {
            Record::Site { url, content } => {
                let resolved = resolver.resolve(url.as_str());
                match self.apply_site(url, resolved, content) {
                    Ok(outcome) => Ok(outcome),
                    Err(_) => Err(RunError::InvalidUrl),
                }
            },
            Record::Link { from, to } => {
                let a = resolver.resolve(from.as_str());
                let b = resolver.resolve(to.as_str());
                Ok(self.apply_link(a, b))
            },
            Record::SkippedSite { url, translated } => Ok(Ingested::Skipped),
        }
    }

    /// Takes one input line in: decodes it and ingests the record. A line
    /// that is no record, and a page whose URL names no domain, are errors
    /// and count nowhere.
    pub fn ingest_line(&mut self, resolver: &Resolver, line: &str) -> (r: Result<Ingested, RunError>)
        requires
            old(self).wf(),
            old(self)@.has_room(1),
        ensures
            final(self).wf(),
            taken_view(r) == line_outcome(*resolver, line@),
            final(self)@ == match r {
                Ok(outcome) => old(self)@.after(outcome@),
                Err(_) => old(self)@,
            },
    {
        match decode(line) {
            Ok(record) => self.ingest(resolver, record),
            Err(_) => Err(RunError::Decode),
        }
    }

    /// Runs over the lines of a file from line `skip` on: exactly the lines
    /// `skip..` are processed, in order, and the counters advance by their
    /// outcomes. The run stops at the first line that is an error; the
    /// lines before it stay counted.
    pub fn run(&mut self, resolver: &Resolver, lines: &Vec<String>, skip: usize) -> (r: Result<Run, RunFailure>)
        requires
            old(self).wf(),
            old(self)@.has_room(lines@.len()),
        ensures
            final(self).wf(),
            match r {
                Ok(done) => {
                    &&& all_taken(*resolver, lines.deep_view(), skip as int, lines@.len() as int)
                    &&& outcomes_view(done.outcomes@)
                        == outcomes_of(*resolver, lines.deep_view(), skip as int, lines@.len() as int)
                    &&& done.checkpoint == if skip <= lines@.len() { lines@.len() } else { skip as nat }
                    &&& final(self)@ == old(self)@.after_all(outcomes_view(done.outcomes@))
                },
                Err(failure) => {
                    &&& skip <= failure.line < lines@.len()
                    &&& all_taken(*resolver, lines.deep_view(), skip as int, failure.line as int)
                    &&& line_outcome(*resolver, lines@[failure.line as int]@)
                        == Err::<IngestedView, RunError>(failure.error)
                    &&& final(self)@ == old(self)@.after_all(
                        outcomes_of(*resolver, lines.deep_view(), skip as int, failure.line as int),
                    )
                },
            },
    {
        let mut outcomes: Vec<Ingested> = Vec::new();
        let mut i: usize = skip;
        let ghost texts = lines.deep_view();
        proof {
            assert(outcomes_view(outcomes@) =~= outcomes_of(*resolver, texts, skip as int, skip as int));
        }
        while i < lines.len()
            invariant
                skip <= i,
                i <= lines@.len() || i == skip,
                texts == lines.deep_view(),
                self.wf(),
                self@.consistent(),
                i <= lines@.len() ==> self@.has_room((lines@.len() - i) as nat),
                all_taken(*resolver, texts, skip as int, i as int),
                outcomes_view(outcomes@) == outcomes_of(*resolver, texts, skip as int, i as int),
                self@ == old(self)@.after_all(outcomes_view(outcomes@)),
            decreases lines@.len() - i,
        {
            let ghost before = self@;
            let ghost seen = outcomes_view(outcomes@);
            proof {
                assert(texts[i as int] == lines@[i as int]@);
            }
            match self.ingest_line(resolver, lines[i].as_str()) {
                Ok(outcome) => {
                    proof {
                        lemma_after_consistent(before, outcome@, (lines@.len() - i) as nat);
                    }
                    outcomes.push(outcome);
                    proof {
                        let now = outcomes_view(outcomes@);
                        let next = outcomes_of(*resolver, texts, skip as int, i + 1);
                        assert(now.drop_last() =~= seen);
                        assert(now.last() == outcome@);
                        assert(line_outcome(*resolver, texts[i as int]) == Ok::<IngestedView, RunError>(outcome@));
                        assert forall|k: int| 0 <= k < next.len() implies now[k] == next[k] by {
                            if k < i - skip {
                                assert(now[k] == seen[k]);
                            }
                        }
                        assert(now =~= next);
                    }
                },
                Err(error) => {
                    return Err(RunFailure { line: i, error });
                },
            }
            i = i + 1;
        }
        proof {
            assert(outcomes_of(*resolver, texts, skip as int, i as int)
                =~= outcomes_of(*resolver, texts, skip as int, lines@.len() as int));
        }
        Ok(Run { outcomes, checkpoint: next_checkpoint(skip, lines.len()) })
    }
}

} // verus!
