//! Frequency histograms over categorical values.
//!
//! A histogram keeps its distinct values in the order in which they were first
//! recorded, so that everything derived from it is independent of hashing.

use vstd::prelude::*;

verus! {

/// The values of a histogram, in the order of their first occurrence.
pub open spec fn keys_of(h: Seq<(Seq<char>, nat)>) -> Seq<Seq<char>> {
    h.map_values(|e: (Seq<char>, nat)| e.0)
}

/// No value has two entries.
pub open spec fn distinct_keys(h: Seq<(Seq<char>, nat)>) -> bool {
    forall|i: int, j: int|
        #![trigger h[i], h[j]]
        0 <= i < h.len() && 0 <= j < h.len() && i != j ==> h[i].0 != h[j].0
}

/// The place of `key` among the entries, or -1 where it has none.
pub open spec fn position_of(h: Seq<(Seq<char>, nat)>, key: Seq<char>) -> int
    decreases h.len(),
{
    if h.len() == 0 {
        -1
    } else if h.last().0 == key {
        h.len() - 1
    } else {
        position_of(h.drop_last(), key)
    }
}

/// How often `key` was recorded.
pub open spec fn count_of(h: Seq<(Seq<char>, nat)>, key: Seq<char>) -> nat {
    let p = position_of(h, key);
    if p < 0 {
        0
    } else {
        h[p].1
    }
}

/// The number of recorded values, repetitions included.
pub open spec fn total_of(h: Seq<(Seq<char>, nat)>) -> nat
    decreases h.len(),
{
    if h.len() == 0 {
        0
    } else {
        total_of(h.drop_last()) + h.last().1
    }
}

/// The histogram after one more occurrence of `key`.
pub open spec fn recorded(h: Seq<(Seq<char>, nat)>, key: Seq<char>) -> Seq<(Seq<char>, nat)> {
    let p = position_of(h, key);
    if p < 0 {
        h.push((key, 1))
    } else {
        h.update(p, (key, h[p].1 + 1))
    }
}

/// The histogram of a sequence of values.
pub open spec fn tally_of(values: Seq<Seq<char>>) -> Seq<(Seq<char>, nat)>
    decreases values.len(),
{
    if values.len() == 0 {
        Seq::empty()
    } else {
        recorded(tally_of(values.drop_last()), values.last())
    }
}

/// `position_of` finds the entry of a value that has one.
pub proof fn lemma_position_of(h: Seq<(Seq<char>, nat)>, key: Seq<char>)
    ensures
        -1 <= position_of(h, key) < h.len(),
        position_of(h, key) >= 0 ==> h[position_of(h, key)].0 == key,
        position_of(h, key) < 0 ==> forall|i: int|
            0 <= i < h.len() ==> (#[trigger] h[i]).0 != key,
        distinct_keys(h) ==> forall|i: int|
            0 <= i < h.len() && (#[trigger] h[i]).0 == key ==> i == position_of(h, key),
    decreases h.len(),
{
    if h.len() > 0 {
        let rest = h.drop_last();
        lemma_position_of(rest, key);
        assert forall|i: int| 0 <= i < rest.len() implies rest[i] == h[i] by {}
        if h.last().0 != key {
            assert forall|i: int| 0 <= i < h.len() && position_of(h, key) < 0 implies (
            #[trigger] h[i]).0 != key by {
                if i < rest.len() {
                    assert(rest[i] == h[i]);
                }
            }
        }
        if distinct_keys(h) {
            assert(distinct_keys(rest)) by {
                assert forall|i: int, j: int|
                    #![trigger rest[i], rest[j]]
                    0 <= i < rest.len() && 0 <= j < rest.len() && i != j implies rest[i].0
                    != rest[j].0 by {
                    assert(rest[i] == h[i] && rest[j] == h[j]);
                }
            }
            assert forall|i: int| 0 <= i < h.len() && (#[trigger] h[i]).0 == key implies i
                == position_of(h, key) by {
                if h.last().0 == key {
                    if i != h.len() - 1 {
                        assert(h[i].0 != h[h.len() - 1].0);
                    }
                } else {
                    assert(rest[i] == h[i]);
                }
            }
        }
    }
}

/// Recording keeps the values distinct and every count positive.
pub proof fn lemma_recorded_keeps_shape(h: Seq<(Seq<char>, nat)>, key: Seq<char>)
    requires
        distinct_keys(h),
    ensures
        distinct_keys(recorded(h, key)),
        (forall|i: int| 0 <= i < h.len() ==> (#[trigger] h[i]).1 >= 1) ==> forall|i: int|
            0 <= i < recorded(h, key).len() ==> (#[trigger] recorded(h, key)[i]).1 >= 1,
{
    lemma_position_of(h, key);
    let r = recorded(h, key);
    let p = position_of(h, key);
    assert forall|i: int, j: int|
        #![trigger r[i], r[j]]
        0 <= i < r.len() && 0 <= j < r.len() && i != j implies r[i].0 != r[j].0 by {
        if p < 0 {
            if i < h.len() && j < h.len() {
                assert(h[i].0 != h[j].0);
            } else if i < h.len() {
                assert(h[i].0 != key);
            } else {
                assert(h[j].0 != key);
            }
        } else {
            assert(h[i].0 != h[j].0);
        }
    }
}

/// The total of a histogram with one entry replaced.
proof fn lemma_total_update(h: Seq<(Seq<char>, nat)>, p: int, e: (Seq<char>, nat))
    requires
        0 <= p < h.len(),
    ensures
        total_of(h.update(p, e)) == total_of(h) - h[p].1 + e.1,
    decreases h.len(),
{
    let u = h.update(p, e);
    if p == h.len() - 1 {
        assert(u.drop_last() =~= h.drop_last());
    } else {
        assert(u.drop_last() =~= h.drop_last().update(p, e));
        lemma_total_update(h.drop_last(), p, e);
    }
}

/// Recording one value raises the total by one.
pub proof fn lemma_recorded_total(h: Seq<(Seq<char>, nat)>, key: Seq<char>)
    ensures
        total_of(recorded(h, key)) == total_of(h) + 1,
{
    lemma_position_of(h, key);
    let p = position_of(h, key);
    if p < 0 {
        assert(h.push((key, 1)).drop_last() =~= h);
    } else {
        lemma_total_update(h, p, (key, h[p].1 + 1));
    }
}

/// No count exceeds the total.
pub proof fn lemma_count_within_total(h: Seq<(Seq<char>, nat)>, key: Seq<char>)
    ensures
        count_of(h, key) <= total_of(h),
    decreases h.len(),
{
    if h.len() > 0 {
        lemma_position_of(h, key);
        lemma_position_of(h.drop_last(), key);
        if h.last().0 != key {
            lemma_count_within_total(h.drop_last(), key);
            let p = position_of(h.drop_last(), key);
            if p >= 0 {
                assert(h.drop_last()[p] == h[p]);
            }
        }
    }
}

/// The histogram of a sequence of values has distinct values, positive
/// counts, and as its total the length of the sequence.
pub proof fn lemma_tally_of(values: Seq<Seq<char>>)
    ensures
        distinct_keys(tally_of(values)),
        forall|i: int| 0 <= i < tally_of(values).len() ==> (#[trigger] tally_of(values)[i]).1 >= 1,
        total_of(tally_of(values)) == values.len(),
    decreases values.len(),
{
    if values.len() > 0 {
        lemma_tally_of(values.drop_last());
        lemma_recorded_keeps_shape(tally_of(values.drop_last()), values.last());
        lemma_recorded_total(tally_of(values.drop_last()), values.last());
    }
}

/// A histogram of string values with their counts.
#[derive(Debug)]
pub struct Histogram {
    keys: Vec<String>,
    counts: Vec<u32>,
}

impl View for Histogram {
    type V = Seq<(Seq<char>, nat)>;

    closed spec fn view(&self) -> Seq<(Seq<char>, nat)> {
        Seq::new(self.keys@.len(), |i: int| (self.keys@[i]@, self.counts@[i] as nat))
    }
}

impl Histogram {
    /// Every value has one entry, with a count of at least one.
    pub closed spec fn wf(&self) -> bool {
        &&& self.keys@.len() == self.counts@.len()
        &&& distinct_keys(self@)
        &&& forall|i: int| 0 <= i < self.counts@.len() ==> (#[trigger] self.counts@[i]) >= 1
    }

    /// What a well-formed histogram's view holds.
    pub proof fn lemma_wf(&self)
        requires
            self.wf(),
        ensures
            distinct_keys(self@),
            forall|i: int| 0 <= i < self@.len() ==> 1 <= (#[trigger] self@[i]).1 <= u32::MAX,
    {
    }

    /// The empty histogram.
    pub fn new() -> (h: Histogram)
        ensures
            h.wf(),
            h@ == Seq::<(Seq<char>, nat)>::empty(),
    {
        let h = Histogram { keys: Vec::new(), counts: Vec::new() };
        assert(h@ =~= Seq::<(Seq<char>, nat)>::empty());
        h
    }

    /// The number of distinct values.
    pub fn len(&self) -> (n: usize)
        requires
            self.wf(),
        ensures
            n == self@.len(),
    {
        self.keys.len()
    }

    /// The value of the entry at `index`.
    pub fn key(&self, index: usize) -> (key: &String)
        requires
            self.wf(),
            index < self@.len(),
        ensures
            key@ == self@[index as int].0,
    {
        &self.keys[index]
    }

    /// The count of the entry at `index`.
    pub fn count_at(&self, index: usize) -> (count: u32)
        requires
            self.wf(),
            index < self@.len(),
        ensures
            count == self@[index as int].1,
    {
        self.counts[index]
    }

    /// The place of `value` among the entries.
    pub fn position(&self, value: &String) -> (p: Option<usize>)
        requires
            self.wf(),
        ensures
            match p {
                Some(i) => i == position_of(self@, value@),
                None => position_of(self@, value@) < 0,
            },
    {
        proof {
            lemma_position_of(self@, value@);
        }
        let mut i: usize = 0;
        while i < self.keys.len()
            invariant
                self.wf(),
                i <= self.keys.len(),
                forall|k: int| 0 <= k < i ==> (#[trigger] self@[k]).0 != value@,
                self.keys@.len() == self@.len(),
            decreases self.keys.len() - i,
        {
            if self.keys[i] == *value {
                proof {
                    lemma_position_of(self@, value@);
                    assert(self@[i as int].0 == value@);
                }
                return Some(i);
            }
            i = i + 1;
        }
        None
    }

    /// How often `value` was recorded.
    pub fn count(&self, value: &String) -> (count: u32)
        requires
            self.wf(),
        ensures
            count == count_of(self@, value@),
    {
        proof {
            lemma_position_of(self@, value@);
        }
        match self.position(value) {
            Some(i) => self.counts[i],
            None => 0,
        }
    }

    /// Records one more occurrence of `value`.
    pub fn record(&mut self, value: &String)
        requires
            old(self).wf(),
            count_of(old(self)@, value@) < u32::MAX,
        ensures
            final(self).wf(),
            final(self)@ == recorded(old(self)@, value@),
    {
        proof {
            lemma_position_of(self@, value@);
            lemma_recorded_keeps_shape(self@, value@);
        }
        let ghost before = self@;
        match self.position(value) {
            Some(i) => {
                let count: u32 = self.counts[i];
                self.counts.set(i, count + 1);
                assert(self@ =~= recorded(before, value@));
            },
            None => {
                self.keys.push(value.clone());
                self.counts.push(1);
                assert(self@ =~= recorded(before, value@));
            },
        }
    }
}

impl Clone for Histogram {
    fn clone(&self) -> (copy: Histogram)
        ensures
            copy@ == self@,
            self.wf() ==> copy.wf(),
    {
        let mut keys: Vec<String> = Vec::new();
        let mut i: usize = 0;
        while i < self.keys.len()
            invariant
                keys.len() == i,
                i <= self.keys.len(),
                forall|k: int| 0 <= k < i ==> (#[trigger] keys@[k])@ == self.keys@[k]@,
            decreases self.keys.len() - i,
        {
            keys.push(self.keys[i].clone());
            i = i + 1;
        }
        let mut counts: Vec<u32> = Vec::new();
        let mut j: usize = 0;
        while j < self.counts.len()
            invariant
                counts.len() == j,
                j <= self.counts.len(),
                forall|k: int| 0 <= k < j ==> (#[trigger] counts@[k]) == self.counts@[k],
            decreases self.counts.len() - j,
        {
            counts.push(self.counts[j]);
            j = j + 1;
        }
        assert(counts@ =~= self.counts@);
        let copy = Histogram { keys, counts };
        assert(copy@ =~= self@);
        copy
    }
}

} // verus!
