//! Sampling of target, observed and test traces.
//!
//! The history of a user is its list of traces in the order of time. The
//! later half of it holds the traces that an attack has to link, the earlier
//! half those that the attacker has observed. Samples are drawn as indices
//! into the list, users in the order of the population, so that one seed
//! gives one sample.

use rand::rngs::StdRng;
use rand::seq::{IteratorRandom, SliceRandom};
use std::collections::HashMap;
use vstd::prelude::*;
use vstd::std_specs::hash::*;

verus! {

#[verifier::external_type_specification]
#[verifier::external_body]
pub struct ExStdRng(StdRng);

/// Calls `rand::seq::IteratorRandom::choose_multiple` on the range from `lo`
/// to `hi`. Trusted, of every outcome: the result holds `amount` indices of
/// the range, none of them twice.
#[verifier::external_body]
pub(crate) fn choose_indices(rng: &mut StdRng, lo: usize, hi: usize, amount: usize) -> (chosen: Vec<
    usize,
>)
    requires
        lo <= hi,
        amount <= hi - lo,
    ensures
        chosen@.len() == amount,
        chosen@.no_duplicates(),
        forall|i: int| 0 <= i < chosen@.len() ==> lo <= (#[trigger] chosen@[i]) < hi,
{
    (lo..hi).choose_multiple(rng, amount)
}

/// Calls `rand::seq::SliceRandom::choose`. Trusted, of every outcome: the
/// result is one of the items, and there is one unless there are no items.
#[verifier::external_body]
pub(crate) fn choose_one(rng: &mut StdRng, items: &Vec<usize>) -> (chosen: Option<usize>)
    ensures
        match chosen {
            Some(item) => items@.contains(item),
            None => items@.len() == 0,
        },
{
    items.choose(rng).copied()
}

/// No two users of the population have one number.
pub open spec fn distinct_users<T>(population: Seq<(u32, Vec<T>)>) -> bool {
    forall|p: int, q: int|
        #![trigger population[p], population[q]]
        0 <= p < population.len() && 0 <= q < population.len() && p != q ==> population[p].0
            != population[q].0
}

/// `user` is one of the users of the population.
pub open spec fn is_user<T>(population: Seq<(u32, Vec<T>)>, user: u32) -> bool {
    exists|p: int| 0 <= p < population.len() && (#[trigger] population[p]).0 == user
}

/// The sample holds indices of `[lo, hi)`, none of them twice: `size` of
/// them, or all of the range where it has fewer.
pub open spec fn is_index_sample(sample: Seq<usize>, lo: int, hi: int, size: int) -> bool {
    &&& sample.no_duplicates()
    &&& forall|i: int| 0 <= i < sample.len() ==> lo <= (#[trigger] sample[i]) < hi
    &&& sample.len() == if size <= hi - lo {
        size
    } else {
        hi - lo
    }
}

/// The indices from `lo` up to `hi`, in order.
pub open spec fn index_range(lo: int, hi: int) -> Seq<usize> {
    Seq::new((hi - lo) as nat, |i: int| (lo + i) as usize)
}

/// The map gives some users of the population their target indices: for
/// each a sample from the later half of its history.
pub open spec fn is_target_map<T>(
    targets: Map<u32, Vec<usize>>,
    population: Seq<(u32, Vec<T>)>,
    user_sample_size: int,
    target_trace_sample_size: int,
) -> bool {
    &&& targets.dom().finite()
    &&& targets.dom().len() == if user_sample_size <= population.len() {
        user_sample_size
    } else {
        population.len() as int
    }
    &&& forall|user: u32| #[trigger] targets.contains_key(user) ==> is_user(population, user)
    &&& forall|p: int|
        0 <= p < population.len() && targets.contains_key((#[trigger] population[p]).0)
            ==> is_index_sample(
            targets[population[p].0]@,
            population[p].1@.len() as int / 2,
            population[p].1@.len() as int,
            target_trace_sample_size,
        )
}

/// The map gives every user of the population its observed indices: a
/// sample from the earlier half of its history, or all of that half, in
/// order, where the sample size is 0.
pub open spec fn is_sample_map<T>(
    samples: Map<u32, Vec<usize>>,
    population: Seq<(u32, Vec<T>)>,
    trace_sample_size: int,
) -> bool {
    &&& forall|user: u32| #[trigger] samples.contains_key(user) ==> is_user(population, user)
    &&& forall|p: int|
        0 <= p < population.len() ==> {
            &&& samples.contains_key((#[trigger] population[p]).0)
            &&& if trace_sample_size == 0 {
                samples[population[p].0]@ == index_range(0, population[p].1@.len() as int / 2)
            } else {
                is_index_sample(
                    samples[population[p].0]@,
                    0,
                    population[p].1@.len() as int / 2,
                    trace_sample_size,
                )
            }
        }
}

/// The map gives every user of the population that has observed indices one
/// of them as its test index, and no other user any.
pub open spec fn is_test_map<T>(
    tests: Map<u32, usize>,
    population: Seq<(u32, Vec<T>)>,
    samples: Map<u32, Vec<usize>>,
) -> bool {
    &&& forall|user: u32| #[trigger]
        tests.contains_key(user) ==> is_user(population, user) && samples.contains_key(user)
            && samples[user]@.contains(tests[user])
    &&& forall|p: int|
        0 <= p < population.len() && samples.contains_key((#[trigger] population[p]).0)
            && samples[population[p].0]@.len() > 0 ==> tests.contains_key(population[p].0)
}

/// The two halves of a history are apart: no target index of a user is one
/// of its observed indices, as every observed index lies before every
/// target index.
pub proof fn lemma_targets_are_not_observed<T>(
    population: Seq<(u32, Vec<T>)>,
    targets: Map<u32, Vec<usize>>,
    samples: Map<u32, Vec<usize>>,
    user_sample_size: int,
    target_trace_sample_size: int,
    trace_sample_size: int,
    p: int,
    t: int,
    s: int,
)
    requires
        is_target_map(targets, population, user_sample_size, target_trace_sample_size),
        is_sample_map(samples, population, trace_sample_size),
        0 <= p < population.len(),
        targets.contains_key(population[p].0),
        0 <= t < targets[population[p].0]@.len(),
        0 <= s < samples[population[p].0]@.len(),
    ensures
        samples[population[p].0]@[s] < population[p].1@.len() / 2 <= targets[population[p].0]@[t],
{
    let user = population[p].0;
    let half = population[p].1@.len() as int / 2;
    assert(is_index_sample(
        targets[user]@,
        half,
        population[p].1@.len() as int,
        target_trace_sample_size,
    ));
    if trace_sample_size == 0 {
        assert(samples[user]@ == index_range(0, half));
    } else {
        assert(is_index_sample(samples[user]@, 0, half, trace_sample_size));
    }
}

/// Samples users and, for each of them, target indices from the later half
/// of its history.
pub fn gen_user_to_target_idx_map<T>(
    user_to_vector_map: &Vec<(u32, Vec<T>)>,
    rng: &mut StdRng,
    user_sample_size: usize,
    target_trace_sample_size: usize,
) -> (user_to_target_idx_map: HashMap<u32, Vec<usize>>)
    requires
        distinct_users(user_to_vector_map@),
    ensures
        is_target_map(
            user_to_target_idx_map@,
            user_to_vector_map@,
            user_sample_size as int,
            target_trace_sample_size as int,
        ),
{
    broadcast use group_hash_axioms;

    let ghost population = user_to_vector_map@;
    let users: usize = user_to_vector_map.len();
    let amount: usize = if user_sample_size <= users {
        user_sample_size
    } else {
        users
    };
    let sampled = choose_indices(rng, 0, users, amount);
    let mut targets: HashMap<u32, Vec<usize>> = HashMap::new();
    let mut k: usize = 0;
    assert(targets@.dom() =~= Set::<u32>::empty());
    while k < sampled.len()
        invariant
            k <= sampled@.len(),
            population == user_to_vector_map@,
            distinct_users(population),
            sampled@.no_duplicates(),
            forall|i: int| 0 <= i < sampled@.len() ==> 0 <= (#[trigger] sampled@[i]) < population.len(),
            targets@.dom().finite(),
            targets@.dom().len() == k,
            forall|user: u32| #[trigger]
                targets@.contains_key(user) ==> exists|i: int|
                    0 <= i < k && (#[trigger] population[sampled@[i] as int]).0 == user,
            forall|i: int|
                0 <= i < k ==> {
                    let entry = #[trigger] population[sampled@[i] as int];
                    &&& targets@.contains_key(entry.0)
                    &&& is_index_sample(
                        targets@[entry.0]@,
                        entry.1@.len() as int / 2,
                        entry.1@.len() as int,
                        target_trace_sample_size as int,
                    )
                },
        decreases sampled@.len() - k,
    {
        let position = sampled[k];
        let client: u32 = user_to_vector_map[position].0;
        let trace_len: usize = user_to_vector_map[position].1.len();
        let split_idx: usize = trace_len / 2;
        let size: usize = if target_trace_sample_size <= trace_len - split_idx {
            target_trace_sample_size
        } else {
            trace_len - split_idx
        };
        let sampled_target_idx = choose_indices(rng, split_idx, trace_len, size);
        let ghost before = targets@;
        proof {
            if before.contains_key(client) {
                let i = choose|i: int|
                    0 <= i < k && (#[trigger] population[sampled@[i] as int]).0 == client;
                assert(sampled@[i] != sampled@[k as int]);
                assert(population[sampled@[i] as int].0 != population[position as int].0);
            }
        }
        targets.insert(client, sampled_target_idx);
        proof {
            assert(targets@.dom() =~= before.dom().insert(client));
            assert forall|i: int| 0 <= i < k + 1 implies {
                let entry = #[trigger] population[sampled@[i] as int];
                &&& targets@.contains_key(entry.0)
                &&& is_index_sample(
                    targets@[entry.0]@,
                    entry.1@.len() as int / 2,
                    entry.1@.len() as int,
                    target_trace_sample_size as int,
                )
            } by {
                if i < k {
                    assert(sampled@[i] != sampled@[k as int]);
                    assert(population[sampled@[i] as int].0 != population[position as int].0);
                }
            }
            assert forall|user: u32| #[trigger] targets@.contains_key(user) implies exists|i: int|
                0 <= i < k + 1 && (#[trigger] population[sampled@[i] as int]).0 == user by {
                if user == client {
                    assert(population[sampled@[k as int] as int].0 == user);
                } else {
                    let i = choose|i: int|
                        0 <= i < k && (#[trigger] population[sampled@[i] as int]).0 == user;
                    assert(population[sampled@[i] as int].0 == user);
                }
            }
        }
        k = k + 1;
    }
    proof {
        assert forall|p: int|
            0 <= p < population.len() && targets@.contains_key(
                (#[trigger] population[p]).0,
            ) implies is_index_sample(
            targets@[population[p].0]@,
            population[p].1@.len() as int / 2,
            population[p].1@.len() as int,
            target_trace_sample_size as int,
        ) by {
            let i = choose|i: int|
                0 <= i < k && (#[trigger] population[sampled@[i] as int]).0 == population[p].0;
            if sampled@[i] != p {
                assert(population[sampled@[i] as int].0 != population[p].0);
            }
        }
        assert forall|user: u32| #[trigger] targets@.contains_key(user) implies is_user(
            population,
            user,
        ) by {
            let i = choose|i: int|
                0 <= i < k && (#[trigger] population[sampled@[i] as int]).0 == user;
            assert(population[sampled@[i] as int].0 == user);
        }
    }
    targets
}

/// Lists the indices from 0 up to `end`.
fn all_indices(end: usize) -> (indices: Vec<usize>)
    ensures
        indices@ == index_range(0, end as int),
{
    let mut indices: Vec<usize> = Vec::new();
    let mut i: usize = 0;
    while i < end
        invariant
            i <= end,
            indices@ == index_range(0, i as int),
        decreases end - i,
    {
        indices.push(i);
        assert(indices@ =~= index_range(0, i + 1));
        i = i + 1;
    }
    indices
}

/// Samples, for every user, observed indices from the earlier half of its
/// history; with a sample size of 0, all of that half.
pub fn gen_user_to_sample_idx_map<T>(
    user_to_vector_map: &Vec<(u32, Vec<T>)>,
    rng: &mut StdRng,
    trace_sample_size: usize,
) -> (user_to_sample_idx_map: HashMap<u32, Vec<usize>>)
    requires
        distinct_users(user_to_vector_map@),
    ensures
        is_sample_map(user_to_sample_idx_map@, user_to_vector_map@, trace_sample_size as int),
{
    broadcast use group_hash_axioms;

    let ghost population = user_to_vector_map@;
    let mut samples: HashMap<u32, Vec<usize>> = HashMap::new();
    let mut p: usize = 0;
    while p < user_to_vector_map.len()
        invariant
            p <= population.len(),
            population == user_to_vector_map@,
            distinct_users(population),
            forall|user: u32| #[trigger]
                samples@.contains_key(user) ==> exists|q: int|
                    0 <= q < p && (#[trigger] population[q]).0 == user,
            forall|q: int|
                0 <= q < p ==> {
                    &&& samples@.contains_key((#[trigger] population[q]).0)
                    &&& if trace_sample_size == 0 {
                        samples@[population[q].0]@ == index_range(
                            0,
                            population[q].1@.len() as int / 2,
                        )
                    } else {
                        is_index_sample(
                            samples@[population[q].0]@,
                            0,
                            population[q].1@.len() as int / 2,
                            trace_sample_size as int,
                        )
                    }
                },
        decreases population.len() - p,
    {
        let client: u32 = user_to_vector_map[p].0;
        let trace_len: usize = user_to_vector_map[p].1.len();
        let split_idx: usize = trace_len / 2;
        let sampled_idx = if trace_sample_size == 0 {
            all_indices(split_idx)
        } else {
            let size: usize = if trace_sample_size <= split_idx {
                trace_sample_size
            } else {
                split_idx
            };
            choose_indices(rng, 0, split_idx, size)
        };
        let ghost before = samples@;
        samples.insert(client, sampled_idx);
        proof {
            assert forall|q: int| 0 <= q < p + 1 implies {
                &&& samples@.contains_key((#[trigger] population[q]).0)
                &&& if trace_sample_size == 0 {
                    samples@[population[q].0]@ == index_range(0, population[q].1@.len() as int / 2)
                } else {
                    is_index_sample(
                        samples@[population[q].0]@,
                        0,
                        population[q].1@.len() as int / 2,
                        trace_sample_size as int,
                    )
                }
            } by {
                if q < p {
                    assert(population[q].0 != population[p as int].0);
                }
            }
            assert forall|user: u32| #[trigger] samples@.contains_key(user) implies exists|q: int|
                0 <= q < p + 1 && (#[trigger] population[q]).0 == user by {
                if user == client {
                    assert(population[p as int].0 == user);
                } else {
                    let q = choose|q: int| 0 <= q < p && (#[trigger] population[q]).0 == user;
                    assert(population[q].0 == user);
                }
            }
        }
        p = p + 1;
    }
    proof {
        assert forall|user: u32| #[trigger] samples@.contains_key(user) implies is_user(
            population,
            user,
        ) by {
            let q = choose|q: int| 0 <= q < p && (#[trigger] population[q]).0 == user;
            assert(population[q].0 == user);
        }
    }
    samples
}

/// Samples, for every user that has observed indices, one of them as its
/// test index.
pub fn gen_user_to_test_idx_map<T>(
    user_to_vector_map: &Vec<(u32, Vec<T>)>,
    user_to_sample_idx_map: &HashMap<u32, Vec<usize>>,
    rng: &mut StdRng,
) -> (user_to_test_idx_map: HashMap<u32, usize>)
    ensures
        is_test_map(user_to_test_idx_map@, user_to_vector_map@, user_to_sample_idx_map@),
{
    broadcast use group_hash_axioms;

    let ghost population = user_to_vector_map@;
    let ghost samples = user_to_sample_idx_map@;
    let mut tests: HashMap<u32, usize> = HashMap::new();
    let mut p: usize = 0;
    while p < user_to_vector_map.len()
        invariant
            p <= population.len(),
            population == user_to_vector_map@,
            samples == user_to_sample_idx_map@,
            forall|user: u32| #[trigger]
                tests@.contains_key(user) ==> {
                    &&& exists|q: int| 0 <= q < p && (#[trigger] population[q]).0 == user
                    &&& samples.contains_key(user)
                    &&& samples[user]@.contains(tests@[user])
                },
            forall|q: int|
                0 <= q < p && samples.contains_key((#[trigger] population[q]).0)
                    && samples[population[q].0]@.len() > 0 ==> tests@.contains_key(population[q].0),
        decreases population.len() - p,
    {
        let client: u32 = user_to_vector_map[p].0;
        match user_to_sample_idx_map.get(&client) {
            Some(sample_idx_list) => {
                match choose_one(rng, sample_idx_list) {
                    Some(test_idx) => {
                        let ghost before = tests@;
                        tests.insert(client, test_idx);
                        proof {
                            assert forall|user: u32| #[trigger]
                                tests@.contains_key(user) implies {
                                &&& exists|q: int|
                                    0 <= q < p + 1 && (#[trigger] population[q]).0 == user
                                &&& samples.contains_key(user)
                                &&& samples[user]@.contains(tests@[user])
                            } by {
                                if user == client {
                                    assert(population[p as int].0 == user);
                                } else {
                                    assert(before.contains_key(user));
                                    let q = choose|q: int|
                                        0 <= q < p && (#[trigger] population[q]).0 == user;
                                    assert(population[q].0 == user);
                                }
                            }
                        }
                    },
                    None => {
                        proof {
                            assert forall|user: u32| #[trigger]
                                tests@.contains_key(user) implies exists|q: int|
                                0 <= q < p + 1 && (#[trigger] population[q]).0 == user by {
                                let q = choose|q: int|
                                    0 <= q < p && (#[trigger] population[q]).0 == user;
                                assert(population[q].0 == user);
                            }
                        }
                    },
                }
            },
            None => {
                proof {
                    assert forall|user: u32| #[trigger] tests@.contains_key(user) implies exists|
                        q: int,
                    | 0 <= q < p + 1 && (#[trigger] population[q]).0 == user by {
                        let q = choose|q: int| 0 <= q < p && (#[trigger] population[q]).0 == user;
                        assert(population[q].0 == user);
                    }
                }
            },
        }
        p = p + 1;
    }
    proof {
        assert forall|user: u32| #[trigger] tests@.contains_key(user) implies is_user(
            population,
            user,
        ) && samples.contains_key(user) && samples[user]@.contains(tests@[user]) by {
            let q = choose|q: int| 0 <= q < p && (#[trigger] population[q]).0 == user;
            assert(population[q].0 == user);
        }
    }
    tests
}

} // verus!
