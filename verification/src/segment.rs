//! From sentence spans to the sentences that are put to the classifier: long
//! spans are wrapped, and empty lines are dropped.

use vstd::prelude::*;

verus! {

/// The width in columns beyond which a span is wrapped.
pub const WRAP_WIDTH: usize = 300;

/// The lines into which the text wrapper breaks `text` at `width` columns.
pub uninterp spec fn wrapped(text: Seq<char>, width: nat) -> Seq<Seq<char>>;

/// The lines that hold at least one character, in order.
pub open spec fn non_empty(lines: Seq<Seq<char>>) -> Seq<Seq<char>>
    decreases lines.len(),
{
    if lines.len() == 0 {
        lines
    } else if lines.last().len() == 0 {
        non_empty(lines.drop_last())
    } else {
        non_empty(lines.drop_last()).push(lines.last())
    }
}

/// The candidate sentences of a list of spans: the non-empty lines of each
/// span wrapped at [`WRAP_WIDTH`], span after span.
pub open spec fn candidates(spans: Seq<Seq<char>>) -> Seq<Seq<char>>
    decreases spans.len(),
{
    if spans.len() == 0 {
        spans
    } else {
        candidates(spans.drop_last()) + non_empty(wrapped(spans.last(), WRAP_WIDTH as nat))
    }
}

/// Calls `textwrap::wrap` with a plain width and copies the lines out. The
/// lines are a function of the text and the width alone.
#[verifier::external_body]
fn wrap(text: &str, width: usize) -> (lines: Vec<String>)
    ensures
        lines.deep_view() == wrapped(text@, width as nat),
{
    textwrap::wrap(text, width).into_iter().map(|line| line.into_owned()).collect()
}

/// Appends to `kept` the lines that hold at least one character.
pub fn keep_non_empty(kept: &mut Vec<String>, lines: Vec<String>)
    ensures
        final(kept).deep_view() == old(kept).deep_view() + non_empty(lines.deep_view()),
{
    let mut i: usize = 0;
    proof {
        assert(lines.deep_view().take(0) =~= Seq::<Seq<char>>::empty());
        assert(kept.deep_view() + Seq::<Seq<char>>::empty() =~= kept.deep_view());
    }
    while i < lines.len()
        invariant
            i <= lines@.len(),
            kept.deep_view() == old(kept).deep_view() + non_empty(lines.deep_view().take(i as int)),
        decreases lines@.len() - i,
    {
        let ghost before = kept.deep_view();
        proof {
            let upto = lines.deep_view().take(i + 1);
            assert(upto.drop_last() =~= lines.deep_view().take(i as int));
            assert(upto.last() == lines@[i as int]@);
        }
        if !lines[i].as_str().is_empty() {
            kept.push(lines[i].clone());
            proof {
                let front = non_empty(lines.deep_view().take(i as int));
                assert(kept.deep_view() =~= before.push(lines@[i as int]@));
                assert(before.push(lines@[i as int]@) =~= old(kept).deep_view() + front.push(lines@[i as int]@));
            }
        }
        i = i + 1;
    }
    proof {
        assert(lines.deep_view().take(lines@.len() as int) =~= lines.deep_view());
    }
}

/// The sentences to put to the classifier, from the spans that sentence
/// segmentation found: each span is wrapped at [`WRAP_WIDTH`] columns and
/// its empty lines are dropped.
pub fn candidate_sentences(spans: &Vec<String>) -> (sentences: Vec<String>)
    ensures
        sentences.deep_view() == candidates(spans.deep_view()),
{
    let mut sentences: Vec<String> = Vec::new();
    let mut i: usize = 0;
    proof {
        assert(sentences.deep_view() =~= Seq::<Seq<char>>::empty());
        assert(spans.deep_view().take(0) =~= Seq::<Seq<char>>::empty());
    }
    while i < spans.len()
        invariant
            i <= spans@.len(),
            sentences.deep_view() == candidates(spans.deep_view().take(i as int)),
        decreases spans@.len() - i,
    {
        proof {
            let upto = spans.deep_view().take(i + 1);
            assert(upto.drop_last() =~= spans.deep_view().take(i as int));
            assert(upto.last() == spans@[i as int]@);
        }
        let lines = wrap(spans[i].as_str(), WRAP_WIDTH);
        keep_non_empty(&mut sentences, lines);
        i = i + 1;
    }
    proof {
        assert(spans.deep_view().take(spans@.len() as int) =~= spans.deep_view());
    }
    sentences
}

} // verus!
