//! A frequency table keyed by text, which remembers the order in which its
//! keys were first seen.

use vstd::prelude::*;
use vstd::hash_map::StringHashMap;
use crate::counts::{Counts, count_of, bumped, bump_all, enumerates, total_of, lemma_total_of_empty, lemma_total_of_bumped, lemma_count_at_most_total};

verus! {

/// Occurrence counts per key. Keys are listed in the order of their first
/// occurrence, so that walking the table is reproducible.
pub struct FrequencyTable {
    keys: Vec<String>,
    counts: StringHashMap<usize>,
    total: usize,
}

impl View for FrequencyTable {
    type V = Counts;

    closed spec fn view(&self) -> Counts {
        self.counts@
    }
}

impl FrequencyTable {
    /// The keys in the order of their first occurrence.
    pub closed spec fn order(&self) -> Seq<Seq<char>> {
        Seq::new(self.keys@.len(), |i: int| self.keys@[i]@)
    }

    /// The running sum that the table keeps of its counts.
    pub closed spec fn kept_total(&self) -> nat {
        self.total as nat
    }

    /// Validity: the key list names each counted key exactly once, every
    /// count is positive, and the kept sum is the sum of the counts.
    pub open spec fn wf(&self) -> bool {
        &&& self@.dom().finite()
        &&& self.order().no_duplicates()
        &&& forall|k: Seq<char>| self@.contains_key(k) <==> self.order().contains(k)
        &&& forall|k: Seq<char>| self@.contains_key(k) ==> self@[k] >= 1
        &&& self.kept_total() == total_of(self@)
    }

    /// An empty table.
    pub fn new() -> (t: Self)
        ensures
            t.wf(),
            t@ == Map::<Seq<char>, usize>::empty(),
            t.order() == Seq::<Seq<char>>::empty(),
    {
        let t = FrequencyTable { keys: Vec::new(), counts: StringHashMap::new(), total: 0 };
        proof {
            lemma_total_of_empty();
            assert(t.order() =~= Seq::<Seq<char>>::empty());
        }
        t
    }

    /// The count of `key`, zero if it was never counted.
    pub fn get(&self, key: &str) -> (n: usize)
        ensures
            n == count_of(self@, key@),
    {
        match self.counts.get(key) {
            Some(v) => *v,
            None => 0,
        }
    }

    /// The number of distinct keys.
    pub fn len(&self) -> (n: usize)
        requires
            self.wf(),
        ensures
            n == self@.dom().len(),
            n == self.order().len(),
    {
        proof {
            self.order().unique_seq_to_set();
            assert(self.order().to_set() =~= self@.dom());
        }
        self.keys.len()
    }

    /// The sum of all counts.
    pub fn total(&self) -> (n: usize)
        requires
            self.wf(),
        ensures
            n == total_of(self@),
    {
        self.total
    }

    /// Counts one more occurrence of `key`.
    pub fn bump(&mut self, key: &str)
        requires
            old(self).wf(),
            total_of(old(self)@) < usize::MAX,
        ensures
            final(self).wf(),
            final(self)@ == bumped(old(self)@, key@),
            total_of(final(self)@) == total_of(old(self)@) + 1,
            final(self).order() == if old(self)@.contains_key(key@) {
                old(self).order()
            } else {
                old(self).order().push(key@)
            },
    {
        let ghost before = *self;
        let current = self.get(key);
        proof {
            lemma_count_at_most_total(self@, key@);
            lemma_total_of_bumped(self@, key@);
        }
        if current == 0 {
            self.keys.push(key.to_owned());
        }
        self.counts.insert(key.to_owned(), current + 1);
        self.total = self.total + 1;
        proof {
            let after = *self;
            assert(after@ == bumped(before@, key@));
            assert(after@.dom() =~= before@.dom().insert(key@));
            if before@.contains_key(key@) {
                assert(after.order() =~= before.order());
                assert(after@.dom() =~= before@.dom());
            } else {
                let n = before.order().len() as int;
                assert(after.order() =~= before.order().push(key@));
                assert forall|i: int, j: int|
                    0 <= i < after.order().len() && 0 <= j < after.order().len() && i != j
                    implies after.order()[i] != after.order()[j] by {
                    if i < n {
                        assert(before.order().contains(before.order()[i]));
                    }
                    if j < n {
                        assert(before.order().contains(before.order()[j]));
                    }
                }
                assert forall|k: Seq<char>| after@.contains_key(k) == after.order().contains(k) by {
                    if k == key@ {
                        assert(after.order()[n] == key@);
                    } else if before@.contains_key(k) {
                        assert(before.order().contains(k));
                        let i = choose|i: int| 0 <= i < n && before.order()[i] == k;
                        assert(after.order()[i] == k);
                    } else if after.order().contains(k) {
                        let i = choose|i: int| 0 <= i < after.order().len() && after.order()[i] == k;
                        assert(before.order().contains(before.order()[i]));
                    }
                }
            }
        }
    }

    /// Counts one more occurrence of each key of `keys`, in order.
    pub fn bump_each(&mut self, keys: &Vec<String>)
        requires
            old(self).wf(),
            total_of(old(self)@) + keys@.len() <= usize::MAX,
        ensures
            final(self).wf(),
            final(self)@ == bump_all(old(self)@, keys.deep_view()),
            total_of(final(self)@) == total_of(old(self)@) + keys@.len(),
    {
        let mut i: usize = 0;
        while i < keys.len()
            invariant
                i <= keys@.len(),
                self.wf(),
                total_of(old(self)@) + keys@.len() <= usize::MAX,
                self@ == bump_all(old(self)@, keys.deep_view().take(i as int)),
                total_of(self@) == total_of(old(self)@) + i,
            decreases keys@.len() - i,
        {
            proof {
                let upto = keys.deep_view().take(i + 1);
                assert(upto.drop_last() =~= keys.deep_view().take(i as int));
                assert(upto.last() == keys@[i as int]@);
            }
            self.bump(keys[i].as_str());
            i = i + 1;
        }
        proof {
            assert(keys.deep_view().take(keys@.len() as int) =~= keys.deep_view());
        }
    }

    /// The keys with their counts, in the order of first occurrence.
    pub fn entries(&self) -> (rows: Vec<(String, usize)>)
        requires
            self.wf(),
        ensures
            enumerates(rows.deep_view(), self@),
            rows.deep_view().len() == self.order().len(),
            forall|i: int| 0 <= i < self.order().len() ==> (#[trigger] rows.deep_view()[i]).0 == self.order()[i],
    {
        let mut rows: Vec<(String, usize)> = Vec::new();
        let mut i: usize = 0;
        while i < self.keys.len()
            invariant
                self.wf(),
                i <= self.keys.len(),
                rows@.len() == i,
                forall|j: int| 0 <= j < i ==> (#[trigger] rows@[j]).0@ == self.order()[j],
                forall|j: int| 0 <= j < i ==> (#[trigger] rows@[j]).1 == self@[self.order()[j]],
            decreases self.keys.len() - i,
        {
            let key = self.keys[i].clone();
            assert(self.order().contains(self.order()[i as int]));
            let n = self.get(key.as_str());
            rows.push((key, n));
            i = i + 1;
        }
        proof {
            let listed = rows.deep_view();
            assert(listed.len() == self.order().len());
            assert forall|j: int| 0 <= j < listed.len() implies
                (#[trigger] listed[j]).0 == self.order()[j] && listed[j].1 == self@[self.order()[j]] by {
                assert(listed[j] == rows@[j].deep_view());
            }
            assert forall|j: int| 0 <= j < listed.len() implies self@.contains_pair((#[trigger] listed[j]).0, listed[j].1) by {
                assert(self.order().contains(self.order()[j]));
            }
            assert forall|key: Seq<char>| self@.contains_key(key) implies
                exists|j: int| 0 <= j < listed.len() && (#[trigger] listed[j]).0 == key by {
                assert(self.order().contains(key));
                let j = choose|j: int| 0 <= j < self.order().len() && self.order()[j] == key;
                assert(listed[j].0 == key);
            }
        }
        rows
    }
}

} // verus!
