//! Vectors over a vocabulary, majority votes and flattening.

use crate::cli::Rate;
use crate::histogram::{count_of, lemma_position_of, position_of, Histogram};
use crate::maths::zeros_u32;
use crate::vocabulary::{set_index_of, set_items, set_len};
use indexmap::IndexSet;
use vstd::prelude::*;
use vstd::std_specs::cmp::PartialEqSpec;

verus! {

/// The counts of a vector as natural numbers.
pub open spec fn as_counts(v: Seq<u32>) -> Seq<nat> {
    v.map_values(|c: u32| c as nat)
}

/// The frequency vector of a histogram over a vocabulary: at the index of
/// each value, how often the histogram has recorded it.
pub open spec fn freq_vector(h: Seq<(Seq<char>, nat)>, items: Seq<Seq<char>>) -> Seq<nat> {
    Seq::new(items.len(), |i: int| count_of(h, items[i]))
}

/// The one-hot vector of a value over a vocabulary: 1 at the index of the
/// value, 0 elsewhere.
pub open spec fn one_hot(items: Seq<Seq<char>>, value: Seq<char>) -> Seq<nat> {
    Seq::new(
        items.len(),
        |i: int|
            if items[i] == value {
                1nat
            } else {
                0nat
            },
    )
}

/// How often `x` occurs in `s`.
pub open spec fn occurrences<A>(s: Seq<A>, x: A) -> nat
    decreases s.len(),
{
    if s.len() == 0 {
        0
    } else {
        occurrences(s.drop_last(), x) + if s.last() == x {
            1nat
        } else {
            0nat
        }
    }
}

/// The element at `b` wins the majority vote over `s`: none occurs more
/// often, and all that come before it occur less often. So of several that
/// occur most often, the one that occurs first wins.
pub open spec fn wins_vote<A>(s: Seq<A>, b: int) -> bool {
    &&& 0 <= b < s.len()
    &&& forall|i: int| 0 <= i < s.len() ==> occurrences(s, #[trigger] s[i]) <= occurrences(s, s[b])
    &&& forall|i: int| 0 <= i < b ==> occurrences(s, #[trigger] s[i]) < occurrences(s, s[b])
}

/// The vote has one winner.
pub proof fn lemma_vote_winner_unique<A>(s: Seq<A>, a: int, b: int)
    requires
        wins_vote(s, a),
        wins_vote(s, b),
    ensures
        a == b,
{
    if a < b {
        assert(occurrences(s, s[a]) < occurrences(s, s[b]));
        assert(occurrences(s, s[b]) <= occurrences(s, s[a]));
    } else if b < a {
        assert(occurrences(s, s[b]) < occurrences(s, s[a]));
        assert(occurrences(s, s[a]) <= occurrences(s, s[b]));
    }
}

/// Generates the frequency vector of a histogram over a vocabulary that holds
/// every value of the histogram.
pub fn gen_vector_from_freq_map(type_to_freq_map: &Histogram, set: &IndexSet<String>) -> (vector:
    Vec<u32>)
    requires
        type_to_freq_map.wf(),
        forall|k: int|
            0 <= k < type_to_freq_map@.len() ==> set_items(*set).contains(
                (#[trigger] type_to_freq_map@[k]).0,
            ),
    ensures
        as_counts(vector@) == freq_vector(type_to_freq_map@, set_items(*set)),
{
    let ghost h = type_to_freq_map@;
    let ghost items = set_items(*set);
    let mut vector = zeros_u32(set_len(set));
    let mut k: usize = 0;
    assert(h.take(0) =~= Seq::<(Seq<char>, nat)>::empty());
    while k < type_to_freq_map.len()
        invariant
            type_to_freq_map.wf(),
            h == type_to_freq_map@,
            items == set_items(*set),
            forall|j: int| 0 <= j < h.len() ==> items.contains((#[trigger] h[j]).0),
            k <= h.len(),
            vector.len() == items.len(),
            forall|i: int|
                0 <= i < items.len() ==> (#[trigger] vector@[i]) as nat == count_of(
                    h.take(k as int),
                    items[i],
                ),
        decreases h.len() - k,
    {
        let key = type_to_freq_map.key(k);
        let count = type_to_freq_map.count_at(k);
        assert(items.contains(h[k as int].0));
        let found = set_index_of(set, key.as_str());
        let ghost before = vector@;
        proof {
            assert(h.take(k + 1).drop_last() =~= h.take(k as int));
            assert(h.take(k + 1).last() == h[k as int]);
        }
        match found {
            Some(index) => {
                vector.set(index, count);
                assert forall|i: int| 0 <= i < items.len() implies (#[trigger] vector@[i]) as nat
                    == count_of(h.take(k + 1), items[i]) by {
                    lemma_position_of(h.take(k as int), items[i]);
                    if i != index {
                        assert(vector@[i] == before[i]);
                        assert(items[i] != h[k as int].0);
                        let p = position_of(h.take(k as int), items[i]);
                        assert(position_of(h.take(k + 1), items[i]) == p);
                        if p >= 0 {
                            assert(h.take(k + 1)[p] == h.take(k as int)[p]);
                        }
                    } else {
                        assert(items[i] == h[k as int].0);
                        assert(position_of(h.take(k + 1), items[i]) == k);
                        assert(h.take(k + 1)[k as int] == h[k as int]);
                    }
                }
            },
            None => {
                assert(false);
            },
        }
        k = k + 1;
    }
    assert(h.take(h.len() as int) =~= h);
    assert(as_counts(vector@) =~= freq_vector(h, items));
    vector
}

/// Generates the one-hot vector of a value over a vocabulary that holds it.
pub fn gen_vector_from_str(s: &str, set: &IndexSet<String>) -> (vector: Vec<u32>)
    requires
        set_items(*set).contains(s@),
    ensures
        as_counts(vector@) == one_hot(set_items(*set), s@),
{
    let mut vector = zeros_u32(set_len(set));
    match set_index_of(set, s) {
        Some(index) => {
            vector.set(index, 1);
        },
        None => {
            assert(false);
        },
    }
    assert(as_counts(vector@) =~= one_hot(set_items(*set), s@));
    vector
}

/// The bin of a rate, where bins are a tenth of an event per second wide:
/// the whole tenths of events per second that the rate holds.
pub open spec fn rate_bin(rate: Rate) -> int {
    (10 * rate.events) / (rate.seconds as int)
}

/// Generates the one-hot vector of the bin of a rate over `bins` bins, each
/// a tenth of an event per second wide. There is none for a rate without a
/// time span, nor for one beyond the last bin.
pub fn gen_vector_from_rate(click_rate: Rate, bins: usize) -> (vector: Option<Vec<u32>>)
    ensures
        match vector {
            Some(v) => {
                &&& click_rate.seconds > 0
                &&& rate_bin(click_rate) < bins
                &&& v@.len() == bins
                &&& forall|i: int|
                    0 <= i < bins ==> (#[trigger] v@[i]) == if i == rate_bin(click_rate) {
                        1u32
                    } else {
                        0u32
                    }
            },
            None => click_rate.seconds == 0 || rate_bin(click_rate) >= bins,
        },
{
    if click_rate.seconds == 0 {
        return None;
    }
    let tenths: u128 = 10u128 * (click_rate.events as u128);
    let bin: u128 = tenths / (click_rate.seconds as u128);
    if bin >= bins as u128 {
        return None;
    }
    let mut vector = zeros_u32(bins);
    vector.set(bin as usize, 1);
    Some(vector)
}

/// Flattens a nested vector.
pub fn flatten<T>(nested: Vec<Vec<T>>) -> (flat: Vec<T>)
    ensures
        flat@ == nested@.map_values(|v: Vec<T>| v@).flatten(),
{
    let ghost parts = nested@.map_values(|v: Vec<T>| v@);
    let ghost n = nested@.len();
    let total: usize = nested.len();
    let mut nested = nested;
    let mut reversed: Vec<Vec<T>> = Vec::new();
    while nested.len() > 0
        invariant
            nested.len() + reversed.len() == n,
            n == total,
            parts.len() == n,
            forall|k: int| 0 <= k < nested.len() ==> (#[trigger] nested@[k])@ == parts[k],
            forall|k: int| 0 <= k < reversed.len() ==> (#[trigger] reversed@[k])@ == parts[n - 1 - k],
        decreases nested.len(),
    {
        match nested.pop() {
            Some(inner) => {
                reversed.push(inner);
            },
            None => {},
        }
    }
    let mut flat: Vec<T> = Vec::new();
    let mut i: usize = 0;
    assert(parts.take(0) =~= Seq::<Seq<T>>::empty());
    while reversed.len() > 0
        invariant
            i + reversed.len() == n,
            n == total,
            parts.len() == n,
            forall|k: int| 0 <= k < reversed.len() ==> (#[trigger] reversed@[k])@ == parts[n - 1 - k],
            flat@ == parts.take(i as int).flatten(),
        decreases reversed.len(),
    {
        proof {
            parts.take(i as int).lemma_flatten_push(parts[i as int]);
            assert(parts.take(i as int).push(parts[i as int]) =~= parts.take(i + 1));
        }
        match reversed.pop() {
            Some(inner) => {
                let mut inner = inner;
                flat.append(&mut inner);
            },
            None => {},
        }
        i = i + 1;
    }
    assert(parts.take(parts.len() as int) =~= parts);
    flat
}

/// Counts the occurrences of `x` in `vector`.
fn count_occurrences<T: Copy + PartialEq>(vector: &[T], x: T) -> (count: usize)
    requires
        T::obeys_eq_spec(),
        forall|a: T, b: T| a.eq_spec(&b) <==> a == b,
    ensures
        count == occurrences(vector@, x),
        count <= vector@.len(),
{
    let mut count: usize = 0;
    let mut j: usize = 0;
    assert(vector@.take(0) =~= Seq::<T>::empty());
    while j < vector.len()
        invariant
            T::obeys_eq_spec(),
            forall|a: T, b: T| a.eq_spec(&b) <==> a == b,
            j <= vector.len(),
            count <= j,
            count == occurrences(vector@.take(j as int), x),
        decreases vector.len() - j,
    {
        proof {
            assert(vector@.take(j + 1).drop_last() =~= vector@.take(j as int));
            assert(vector@.take(j + 1).last() == vector@[j as int]);
        }
        if vector[j] == x {
            count = count + 1;
        }
        j = j + 1;
    }
    assert(vector@.take(vector.len() as int) =~= vector@);
    count
}

/// Finds the place of the element that wins the majority vote over a
/// vector that is not empty.
pub fn most_frequent_position<T: Copy + PartialEq>(vector: &[T]) -> (best: usize)
    requires
        vector@.len() > 0,
        T::obeys_eq_spec(),
        forall|a: T, b: T| a.eq_spec(&b) <==> a == b,
    ensures
        wins_vote(vector@, best as int),
{
    let mut best: usize = 0;
    let mut best_count: usize = count_occurrences(vector, vector[0]);
    let mut i: usize = 1;
    while i < vector.len()
        invariant
            T::obeys_eq_spec(),
            forall|a: T, b: T| a.eq_spec(&b) <==> a == b,
            1 <= i <= vector.len(),
            best < i,
            best_count == occurrences(vector@, vector@[best as int]),
            forall|k: int|
                0 <= k < i ==> occurrences(vector@, #[trigger] vector@[k]) <= best_count,
            forall|k: int|
                0 <= k < best ==> occurrences(vector@, #[trigger] vector@[k]) < best_count,
        decreases vector.len() - i,
    {
        let count = count_occurrences(vector, vector[i]);
        if count > best_count {
            best = i;
            best_count = count;
        }
        i = i + 1;
    }
    best
}

/// Returns the most frequent element of a vector that is not empty. Of
/// several that occur most often it returns the one that occurs first.
pub fn get_most_freq_element<T: Copy + PartialEq>(vector: &[T]) -> (element: T)
    requires
        vector@.len() > 0,
        T::obeys_eq_spec(),
        forall|a: T, b: T| a.eq_spec(&b) <==> a == b,
    ensures
        exists|b: int| wins_vote(vector@, b) && element == vector@[b],
{
    let best = most_frequent_position(vector);
    vector[best]
}

} // verus!
