//! The mathematical model of a frequency table: a finite map from keys to
//! occurrence counts, together with the sum of all its counts.

use vstd::prelude::*;

verus! {

/// The model of a frequency table.
pub type Counts = Map<Seq<char>, usize>;

/// The number of times `key` was counted; zero for a key the table lacks.
pub open spec fn count_of(m: Counts, key: Seq<char>) -> nat {
    if m.contains_key(key) {
        m[key] as nat
    } else {
        0
    }
}

/// The table after one more occurrence of `key`.
pub open spec fn bumped(m: Counts, key: Seq<char>) -> Counts {
    m.insert(key, (count_of(m, key) + 1) as usize)
}

/// The sum of all counts of a finite table.
pub open spec fn total_of(m: Counts) -> nat
    decreases m.dom().len(),
    when m.dom().finite()
    via total_of_decreases
{
    if m.dom().len() == 0 {
        0
    } else {
        let k = m.dom().choose();
        m[k] as nat + total_of(m.remove(k))
    }
}

#[via_fn]
proof fn total_of_decreases(m: Counts) {
    if m.dom().len() != 0 {
        let k = m.dom().choose();
        assert(m.dom().contains(k));
        assert(m.remove(k).dom() =~= m.dom().remove(k));
    }
}

/// The empty table sums to zero.
pub proof fn lemma_total_of_empty()
    ensures
        total_of(Map::<Seq<char>, usize>::empty()) == 0,
{
    assert(Map::<Seq<char>, usize>::empty().dom() =~= Set::<Seq<char>>::empty());
}

/// Any key of the table can be split off the sum.
pub proof fn lemma_total_of_split(m: Counts, key: Seq<char>)
    requires
        m.dom().finite(),
        m.contains_key(key),
    ensures
        total_of(m) == m[key] as nat + total_of(m.remove(key)),
    decreases m.dom().len(),
{
    let c = m.dom().choose();
    assert(m.dom().len() != 0) by {
        if m.dom().len() == 0 {
            assert(m.dom() =~= Set::<Seq<char>>::empty());
        }
    }
    assert(m.dom().contains(c));
    if c != key {
        let rest = m.remove(c);
        assert(rest.dom() =~= m.dom().remove(c));
        lemma_total_of_split(rest, key);
        let other = m.remove(key);
        assert(other.dom() =~= m.dom().remove(key));
        lemma_total_of_split(other, c);
        assert(rest.remove(key) =~= other.remove(c));
    }
}

/// No single count exceeds the sum.
pub proof fn lemma_count_at_most_total(m: Counts, key: Seq<char>)
    requires
        m.dom().finite(),
    ensures
        count_of(m, key) <= total_of(m),
{
    if m.contains_key(key) {
        lemma_total_of_split(m, key);
    }
}

/// Counting one more occurrence raises the sum by one.
pub proof fn lemma_total_of_bumped(m: Counts, key: Seq<char>)
    requires
        m.dom().finite(),
        count_of(m, key) < usize::MAX,
    ensures
        bumped(m, key).dom().finite(),
        total_of(bumped(m, key)) == total_of(m) + 1,
        count_of(bumped(m, key), key) == count_of(m, key) + 1,
        forall|other: Seq<char>| other != key ==> count_of(bumped(m, key), other) == count_of(m, other),
{
    let after = bumped(m, key);
    assert(after.dom() =~= m.dom().insert(key));
    lemma_total_of_split(after, key);
    assert(after.remove(key) =~= m.remove(key));
    if m.contains_key(key) {
        lemma_total_of_split(m, key);
    } else {
        assert(m.remove(key) =~= m);
    }
}

/// The table after one more occurrence of each key of `keys`, in order.
pub open spec fn bump_all(m: Counts, keys: Seq<Seq<char>>) -> Counts
    decreases keys.len(),
{
    if keys.len() == 0 {
        m
    } else {
        bumped(bump_all(m, keys.drop_last()), keys.last())
    }
}

/// How often `key` occurs in `keys`.
pub open spec fn occurrences(keys: Seq<Seq<char>>, key: Seq<char>) -> nat
    decreases keys.len(),
{
    if keys.len() == 0 {
        0
    } else {
        occurrences(keys.drop_last(), key) + if keys.last() == key { 1nat } else { 0nat }
    }
}

/// Counting a sequence of keys adds to each count the number of times that
/// its key occurs, and to the sum the length of the sequence.
pub proof fn lemma_bump_all(m: Counts, keys: Seq<Seq<char>>)
    requires
        m.dom().finite(),
        total_of(m) + keys.len() <= usize::MAX,
    ensures
        bump_all(m, keys).dom().finite(),
        total_of(bump_all(m, keys)) == total_of(m) + keys.len(),
        forall|key: Seq<char>| #[trigger] count_of(bump_all(m, keys), key) == count_of(m, key) + occurrences(keys, key),
    decreases keys.len(),
{
    if keys.len() > 0 {
        let before = bump_all(m, keys.drop_last());
        lemma_bump_all(m, keys.drop_last());
        lemma_count_at_most_total(before, keys.last());
        lemma_total_of_bumped(before, keys.last());
        assert(bump_all(m, keys) == bumped(before, keys.last()));
        assert forall|key: Seq<char>| #[trigger] count_of(bump_all(m, keys), key) == count_of(m, key) + occurrences(keys, key) by {
            assert(count_of(before, key) == count_of(m, key) + occurrences(keys.drop_last(), key));
            if key != keys.last() {
                assert(count_of(bumped(before, keys.last()), key) == count_of(before, key));
            }
        }
    }
}

/// Whether every key that the table holds was counted at least once.
pub open spec fn positive(m: Counts) -> bool {
    forall|key: Seq<char>| #[trigger] m.contains_key(key) ==> m[key] >= 1
}

/// Counting a key keeps every count positive.
pub proof fn lemma_bumped_positive(m: Counts, key: Seq<char>)
    requires
        positive(m),
        count_of(m, key) < usize::MAX,
    ensures
        positive(bumped(m, key)),
{
    assert forall|other: Seq<char>| #[trigger] bumped(m, key).contains_key(other) implies bumped(m, key)[other] >= 1 by {
        if other != key {
            assert(m.contains_key(other));
        }
    }
}

/// Counting a list of keys keeps every count positive.
pub proof fn lemma_bump_all_positive(m: Counts, keys: Seq<Seq<char>>)
    requires
        m.dom().finite(),
        positive(m),
        total_of(m) + keys.len() <= usize::MAX,
    ensures
        positive(bump_all(m, keys)),
    decreases keys.len(),
{
    if keys.len() > 0 {
        let before = bump_all(m, keys.drop_last());
        lemma_bump_all_positive(m, keys.drop_last());
        lemma_bump_all(m, keys.drop_last());
        lemma_count_at_most_total(before, keys.last());
        lemma_bumped_positive(before, keys.last());
    }
}

/// After counting `keys`, a table holds the keys it held and those of
/// `keys`.
pub proof fn lemma_bump_all_keys(m: Counts, keys: Seq<Seq<char>>)
    ensures
        forall|key: Seq<char>| #[trigger] bump_all(m, keys).contains_key(key) <==> m.contains_key(key) || keys.contains(key),
    decreases keys.len(),
{
    if keys.len() > 0 {
        let front = keys.drop_last();
        lemma_bump_all_keys(m, front);
        assert forall|key: Seq<char>| #[trigger] bump_all(m, keys).contains_key(key) <==> m.contains_key(key) || keys.contains(key) by {
            let before = bump_all(m, front);
            assert(bump_all(m, keys) == bumped(before, keys.last()));
            assert(bump_all(m, keys).contains_key(key) <==> key == keys.last() || before.contains_key(key));
            assert(before.contains_key(key) <==> m.contains_key(key) || front.contains(key));
            if keys.contains(key) {
                let i = choose|i: int| 0 <= i < keys.len() && keys[i] == key;
                if i < front.len() {
                    assert(front[i] == key);
                }
            }
            if front.contains(key) {
                let i = choose|i: int| 0 <= i < front.len() && front[i] == key;
                assert(keys[i] == key);
            }
            if key == keys.last() {
                assert(keys[keys.len() - 1] == key);
            }
        }
    }
}

/// Counting two lists of keys gives the same table in either order.
pub proof fn lemma_bump_alls_commute(m: Counts, a: Seq<Seq<char>>, b: Seq<Seq<char>>)
    requires
        m.dom().finite(),
        total_of(m) + a.len() + b.len() <= usize::MAX,
    ensures
        bump_all(bump_all(m, a), b) == bump_all(bump_all(m, b), a),
{
    let left = bump_all(bump_all(m, a), b);
    let right = bump_all(bump_all(m, b), a);
    lemma_bump_all(m, a);
    lemma_bump_all(bump_all(m, a), b);
    lemma_bump_all(m, b);
    lemma_bump_all(bump_all(m, b), a);
    lemma_bump_all_keys(m, a);
    lemma_bump_all_keys(bump_all(m, a), b);
    lemma_bump_all_keys(m, b);
    lemma_bump_all_keys(bump_all(m, b), a);
    assert forall|key: Seq<char>| left.contains_key(key) == right.contains_key(key) by {
        assert(bump_all(m, a).contains_key(key) <==> m.contains_key(key) || a.contains(key));
        assert(bump_all(m, b).contains_key(key) <==> m.contains_key(key) || b.contains(key));
    }
    assert forall|key: Seq<char>| left.contains_key(key) implies left[key] == right[key] by {
        assert(count_of(left, key) == count_of(bump_all(m, a), key) + occurrences(b, key));
        assert(count_of(bump_all(m, a), key) == count_of(m, key) + occurrences(a, key));
        assert(count_of(right, key) == count_of(bump_all(m, b), key) + occurrences(a, key));
        assert(count_of(bump_all(m, b), key) == count_of(m, key) + occurrences(b, key));
    }
    assert(left =~= right);
}

/// The rows of a table, as plain values.
pub type Rows = Seq<(Seq<char>, usize)>;

/// Whether `rows` lists the entries of `m`, each of them once, in any
/// order.
pub open spec fn enumerates(rows: Rows, m: Counts) -> bool {
    &&& forall|i: int, j: int| 0 <= i < j < rows.len() ==> (#[trigger] rows[i]).0 != (#[trigger] rows[j]).0
    &&& forall|i: int| 0 <= i < rows.len() ==> m.contains_pair((#[trigger] rows[i]).0, rows[i].1)
    &&& forall|key: Seq<char>| m.contains_key(key) ==> exists|i: int| 0 <= i < rows.len() && (#[trigger] rows[i]).0 == key
}

/// The sum of the counts of `rows`.
pub open spec fn rows_total(rows: Rows) -> nat
    decreases rows.len(),
{
    if rows.len() == 0 {
        0
    } else {
        rows_total(rows.drop_last()) + rows.last().1 as nat
    }
}

/// The names of the rows, in their order.
pub open spec fn names_of(rows: Rows) -> Seq<Seq<char>> {
    rows.map_values(|row: (Seq<char>, usize)| row.0)
}

/// A table that can be listed is finite: its keys are the names of the
/// rows.
pub proof fn lemma_enumerated_finite(rows: Rows, m: Counts)
    requires
        enumerates(rows, m),
    ensures
        m.dom().finite(),
        m.dom() == names_of(rows).to_set(),
{
    let keys = names_of(rows);
    assert forall|key: Seq<char>| m.dom().contains(key) implies keys.to_set().contains(key) by {
        let i = choose|i: int| 0 <= i < rows.len() && (#[trigger] rows[i]).0 == key;
        assert(keys[i] == key);
    }
    assert forall|key: Seq<char>| keys.to_set().contains(key) implies m.dom().contains(key) by {
        let i = choose|i: int| 0 <= i < keys.len() && keys[i] == key;
        assert(m.contains_pair(rows[i].0, rows[i].1));
    }
    assert(m.dom() =~= keys.to_set());
    vstd::seq_lib::seq_to_set_is_finite(keys);
}

/// The counts of a listing add up to the sum of the table, in whatever
/// order the listing goes.
pub proof fn lemma_rows_total(rows: Rows, m: Counts)
    requires
        enumerates(rows, m),
    ensures
        m.dom().finite(),
        rows_total(rows) == total_of(m),
    decreases rows.len(),
{
    lemma_enumerated_finite(rows, m);
    if rows.len() == 0 {
        assert(m.dom() =~= Set::<Seq<char>>::empty()) by {
            assert forall|key: Seq<char>| !m.dom().contains(key) by {
                if m.contains_key(key) {
                    let i = choose|i: int| 0 <= i < rows.len() && (#[trigger] rows[i]).0 == key;
                }
            }
        }
    } else {
        let last = rows.last();
        let rest = m.remove(last.0);
        let front = rows.drop_last();
        assert(m.contains_pair(rows[rows.len() - 1].0, rows[rows.len() - 1].1));
        assert forall|i: int| 0 <= i < front.len() implies rest.contains_pair((#[trigger] front[i]).0, front[i].1) by {
            assert(m.contains_pair(rows[i].0, rows[i].1));
            assert(rows[i].0 != rows[rows.len() - 1].0);
        }
        assert forall|key: Seq<char>| rest.contains_key(key) implies exists|i: int| 0 <= i < front.len() && (#[trigger] front[i]).0 == key by {
            let i = choose|i: int| 0 <= i < rows.len() && (#[trigger] rows[i]).0 == key;
            assert(front[i].0 == key);
        }
        assert(enumerates(front, rest));
        lemma_rows_total(front, rest);
        lemma_total_of_split(m, last.0);
    }
}

/// A prefix of a listing adds up to no more than the whole.
pub proof fn lemma_rows_total_prefix(rows: Rows, n: int)
    requires
        0 <= n <= rows.len(),
    ensures
        rows_total(rows.take(n)) <= rows_total(rows),
    decreases rows.len() - n,
{
    if n < rows.len() {
        lemma_rows_total_prefix(rows, n + 1);
        assert(rows.take(n + 1).drop_last() =~= rows.take(n));
    } else {
        assert(rows.take(n) =~= rows);
    }
}

} // verus!
