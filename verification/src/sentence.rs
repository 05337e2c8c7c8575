//! Sentence normalisation and the keys that a sentence contributes to the
//! frequency tables: its words and its character trigrams.

use vstd::prelude::*;
use crate::text::{is_space, is_space_char, letter_or_space, fold_text};

verus! {

/// `s` with every maximal run of white space replaced by one space.
pub open spec fn squeezed(s: Seq<char>) -> Seq<char>
    decreases s.len(),
{
    if s.len() == 0 {
        s
    } else if !is_space(s.last()) {
        squeezed(s.drop_last()).push(s.last())
    } else if s.len() >= 2 && is_space(s[s.len() - 2]) {
        squeezed(s.drop_last())
    } else {
        squeezed(s.drop_last()).push(' ')
    }
}

/// The normal form of a sentence: ASCII letters in lower case, every other
/// character turned into a space, and runs of spaces squeezed into one.
pub open spec fn normalized(s: Seq<char>) -> Seq<char> {
    squeezed(s.map_values(|c: char| letter_or_space(c)))
}

/// The maximal runs of characters other than white space, in order.
pub open spec fn words_of(s: Seq<char>) -> Seq<Seq<char>>
    decreases s.len(),
{
    if s.len() == 0 {
        Seq::empty()
    } else {
        let before = words_of(s.drop_last());
        if is_space(s.last()) {
            before
        } else if s.len() >= 2 && !is_space(s[s.len() - 2]) {
            before.drop_last().push(before.last().push(s.last()))
        } else {
            before.push(seq![s.last()])
        }
    }
}

/// `s` between the start marker `$` and the end marker `.`.
pub open spec fn padded(s: Seq<char>) -> Seq<char> {
    seq!['$'] + s + seq!['.']
}

/// Every window of three characters over the padded text, left to right.
pub open spec fn trigrams_of(s: Seq<char>) -> Seq<Seq<char>> {
    Seq::new(s.len(), |i: int| padded(s).subrange(i, i + 3))
}

/// A text has at most as many words as characters.
pub proof fn lemma_words_at_most_chars(s: Seq<char>)
    ensures
        words_of(s).len() <= s.len(),
        s.len() > 0 && !is_space(s.last()) ==> words_of(s).len() >= 1,
    decreases s.len(),
{
    if s.len() > 0 {
        lemma_words_at_most_chars(s.drop_last());
    }
}

/// Squeezing never lengthens a text.
pub proof fn lemma_squeezed_at_most(s: Seq<char>)
    ensures
        squeezed(s).len() <= s.len(),
    decreases s.len(),
{
    if s.len() > 0 {
        lemma_squeezed_at_most(s.drop_last());
    }
}

/// The normal form of a sentence is no longer than the sentence.
pub proof fn lemma_normalized_at_most(s: Seq<char>)
    ensures
        normalized(s).len() <= s.len(),
{
    lemma_squeezed_at_most(s.map_values(|c: char| letter_or_space(c)));
}

/// Whether `c` may stand in a normal form: a lower-case ASCII letter or a
/// space.
pub open spec fn is_plain(c: char) -> bool {
    c == ' ' || 'a' <= c <= 'z'
}

/// Whether `s` is in normal form: lower-case ASCII letters and single
/// spaces only.
pub open spec fn is_normal(s: Seq<char>) -> bool {
    &&& forall|i: int| 0 <= i < s.len() ==> is_plain(#[trigger] s[i])
    &&& forall|i: int| 0 <= i < s.len() - 1 ==> !(#[trigger] s[i] == ' ' && s[i + 1] == ' ')
}

/// Squeezing a text of letters and spaces gives a normal form, which ends
/// in a space exactly if the text does.
pub proof fn lemma_squeezed_plain(s: Seq<char>)
    requires
        forall|i: int| 0 <= i < s.len() ==> is_plain(#[trigger] s[i]),
    ensures
        is_normal(squeezed(s)),
        s.len() > 0 ==> squeezed(s).len() > 0 && (squeezed(s).last() == ' ' <==> s.last() == ' '),
    decreases s.len(),
{
    if s.len() > 0 {
        let front = s.drop_last();
        assert forall|i: int| 0 <= i < front.len() implies is_plain(#[trigger] front[i]) by {
            assert(front[i] == s[i]);
        }
        lemma_squeezed_plain(front);
        assert(is_plain(s.last()));
        if front.len() > 0 {
            assert(front.last() == s[s.len() - 2]);
        }
        let out = squeezed(s);
        let before = squeezed(front);
        if out != before {
            assert(out == before.push(out.last()));
            assert forall|i: int| 0 <= i < out.len() implies is_plain(#[trigger] out[i]) by {
                if i < before.len() {
                    assert(out[i] == before[i]);
                }
            }
            assert forall|i: int| 0 <= i < out.len() - 1 implies !(#[trigger] out[i] == ' ' && out[i + 1] == ' ') by {
                if i < before.len() - 1 {
                    assert(out[i] == before[i] && out[i + 1] == before[i + 1]);
                } else {
                    assert(out[i] == before.last());
                }
            }
        }
    }
}

/// The normal form of any sentence is in normal form.
pub proof fn lemma_normalized_is_normal(s: Seq<char>)
    ensures
        is_normal(normalized(s)),
{
    lemma_squeezed_plain(s.map_values(|c: char| letter_or_space(c)));
}

/// A text in normal form is its own normal form.
pub proof fn lemma_normal_is_fixed(s: Seq<char>)
    requires
        is_normal(s),
    ensures
        normalized(s) == s,
    decreases s.len(),
{
    let folded = s.map_values(|c: char| letter_or_space(c));
    assert(folded =~= s);
    lemma_squeezed_normal(s);
}

/// Squeezing leaves a normal form as it is.
proof fn lemma_squeezed_normal(s: Seq<char>)
    requires
        is_normal(s),
    ensures
        squeezed(s) == s,
    decreases s.len(),
{
    if s.len() > 0 {
        let front = s.drop_last();
        assert forall|i: int| 0 <= i < front.len() implies is_plain(#[trigger] front[i]) by {
            assert(front[i] == s[i]);
        }
        assert forall|i: int| 0 <= i < front.len() - 1 implies !(#[trigger] front[i] == ' ' && front[i + 1] == ' ') by {
            assert(front[i] == s[i] && front[i + 1] == s[i + 1]);
        }
        lemma_squeezed_normal(front);
        assert(is_plain(s.last()));
        if s.len() >= 2 {
            assert(!(s[s.len() - 2] == ' ' && s[s.len() - 2 + 1] == ' '));
        }
        assert(s =~= front.push(s.last()));
    }
}

/// Normalising twice is normalising once.
pub proof fn lemma_normalized_idempotent(s: Seq<char>)
    ensures
        normalized(normalized(s)) == normalized(s),
{
    lemma_normalized_is_normal(s);
    lemma_normal_is_fixed(normalized(s));
}

/// The pattern for a run of white space.
pub open spec fn space_run() -> Seq<char> {
    "\\s+"@
}

/// What replacing every match of the regular expression `pattern` in
/// `text` by `with` gives; nothing if `pattern` is no regular expression.
pub uninterp spec fn regex_replaced(pattern: Seq<char>, text: Seq<char>, with: Seq<char>) -> Option<Seq<char>>;

/// The model of a replaced text.
pub open spec fn replaced_view(r: Option<String>) -> Option<Seq<char>> {
    match r {
        Some(s) => Some(s@),
        None => None,
    }
}

/// Calls `Regex::new` and `Regex::replace_all`: every match of the pattern
/// is replaced, from left to right. For the pattern `\s+` and a single
/// space, every maximal run of characters with the Unicode property
/// White_Space becomes one space and the rest is kept.
#[verifier::external_body]
fn replace_matches(pattern: &str, text: &str, with: &str) -> (r: Option<String>)
    ensures
        replaced_view(r) == regex_replaced(pattern@, text@, with@),
        pattern@ == space_run() && with@ == seq![' '] ==> replaced_view(r) == Some(squeezed(text@)),
{
    regex::Regex::new(pattern).ok().map(|found| found.replace_all(text, with).into_owned())
}

/// `text` with every maximal run of white space replaced by one space.
pub fn squeeze(text: &str) -> (r: String)
    ensures
        r@ == squeezed(text@),
{
    proof {
        reveal_strlit(" ");
        assert(" "@ =~= seq![' ']);
    }
    match replace_matches("\\s+", text, " ") {
        Some(r) => r,
        // The pattern is a regular expression, so this is never reached.
        None => String::new(),
    }
}

/// The normal form of `sentence`.
pub fn normalize(sentence: &str) -> (r: String)
    ensures
        r@ == normalized(sentence@),
        is_normal(r@),
{
    proof {
        lemma_normalized_is_normal(sentence@);
    }
    let folded = fold_text(sentence);
    squeeze(folded.as_str())
}

/// The words of `text`: its maximal runs of characters that are not white
/// space.
pub fn split_words(text: &str) -> (words: Vec<String>)
    ensures
        words.deep_view() == words_of(text@),
{
    let mut words: Vec<String> = Vec::new();
    let mut current = String::new();
    let mut in_word = false;
    for c in it: text.chars()
        invariant
            it.seq() == text@,
            in_word == (it.index() > 0 && !is_space(text@[it.index() - 1])),
            in_word ==> words_of(text@.take(it.index() as int)) == words.deep_view().push(current@),
            !in_word ==> words_of(text@.take(it.index() as int)) == words.deep_view(),
    {
        let ghost i = it.index() as int;
        proof {
            assert(text@.take(i + 1).drop_last() =~= text@.take(i));
            assert(text@.take(i + 1).last() == c);
        }
        if is_space_char(c) {
            if in_word {
                let ghost before = words.deep_view();
                words.push(current);
                proof {
                    assert(words.deep_view() =~= before.push(current@));
                }
                current = String::new();
            }
            in_word = false;
        } else {
            if !in_word {
                current = String::new();
            }
            let ghost prefix = current@;
            current.push(c);
            proof {
                if in_word {
                    assert(words.deep_view().push(prefix).drop_last() =~= words.deep_view());
                } else {
                    assert(current@ =~= seq![c]);
                }
            }
            in_word = true;
        }
    }
    proof {
        assert(text@.take(text@.len() as int) =~= text@);
    }
    if in_word {
        let ghost before = words.deep_view();
        words.push(current);
        proof {
            assert(words.deep_view() =~= before.push(current@));
        }
    }
    words
}

/// The text made of the three characters `a`, `b`, `c`.
fn window(a: char, b: char, c: char) -> (r: String)
    ensures
        r@ == seq![a, b, c],
{
    let mut r = String::new();
    r.push(a);
    r.push(b);
    r.push(c);
    proof {
        assert(r@ =~= seq![a, b, c]);
    }
    r
}

/// The trigrams of `text`: every window of three characters over the text
/// put between the markers `$` and `.`. A text of `n` characters has `n`
/// of them.
pub fn trigrams(text: &str) -> (grams: Vec<String>)
    ensures
        grams.deep_view() == trigrams_of(text@),
{
    let mut grams: Vec<String> = Vec::new();
    let mut a = '$';
    let mut b = '$';
    let mut started = false;
    for c in it: text.chars()
        invariant
            it.seq() == text@,
            started == (it.index() > 0),
            started ==> a == padded(text@)[it.index() - 1] && b == padded(text@)[it.index() as int],
            started ==> grams@.len() == it.index() - 1,
            !started ==> grams@.len() == 0,
            forall|k: int| 0 <= k < grams@.len() ==> (#[trigger] grams@[k])@ == padded(text@).subrange(k, k + 3),
    {
        let ghost j = it.index() as int;
        proof {
            assert(padded(text@)[j + 1] == c);
        }
        if started {
            let gram = window(a, b, c);
            proof {
                assert(gram@ =~= padded(text@).subrange(j - 1, j + 2));
            }
            grams.push(gram);
            a = b;
        } else {
            a = '$';
        }
        b = c;
        started = true;
    }
    if started {
        let gram = window(a, b, '.');
        proof {
            let n = text@.len() as int;
            assert(padded(text@)[n + 1] == '.');
            assert(gram@ =~= padded(text@).subrange(n - 1, n + 2));
        }
        grams.push(gram);
    }
    proof {
        assert(grams.deep_view() =~= trigrams_of(text@));
    }
    grams
}

} // verus!
