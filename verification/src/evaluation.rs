//! The protocol of a linkage attack, as far as both approaches share it.
//!
//! An attack takes one target trace of a victim and compares it with
//! reference traces of every user of the population. Which traces of a
//! candidate are its references is a matter of the regime. The comparisons
//! are scored, ranked and classified. In the dependent protocol a target
//! that was linked with confidence joins the observed traces of the victim.

use crate::ranking::{
    classification, rank_and_classify, rank_positions, ranked, ranking_of, scores_of, ScoreOrder,
};
use crate::sample::{
    distinct_users, index_range, is_index_sample, is_sample_map, is_target_map, is_test_map, is_user,
};
use std::collections::HashMap;
use vstd::prelude::*;
use vstd::std_specs::hash::*;

verus! {

/// Against which traces of a candidate a target is compared.
#[derive(Debug, Clone, Copy, PartialEq, Eq, Structural)]
pub enum Regime {
    /// Against each observed trace of the candidate.
    Each,
    /// Against the typical trace of the observed traces of the candidate.
    Typical,
    /// Against the test trace of the candidate; the scores that the targets
    /// of one victim get are summed for each candidate.
    Test,
}

/// A reference of a comparison: the trace of the candidate at an index of
/// its history, or the typical trace of its observed traces.
#[derive(Debug, Clone, Copy, PartialEq, Eq, Structural)]
pub enum Reference {
    Trace(usize),
    Typical,
}

/// The regime that the two switches of a configuration select.
pub open spec fn regime_for(typical: bool, multiple: bool) -> Regime {
    if multiple {
        Regime::Test
    } else if typical {
        Regime::Typical
    } else {
        Regime::Each
    }
}

/// Selects the regime of a run from the two switches of its configuration.
pub fn regime_of(typical: bool, multiple: bool) -> (regime: Regime)
    ensures
        regime == regime_for(typical, multiple),
{
    if multiple {
        Regime::Test
    } else if typical {
        Regime::Typical
    } else {
        Regime::Each
    }
}

/// The references of one candidate, the user at place `p` of the
/// population, each with the place of the candidate.
pub open spec fn candidate_references<T>(
    population: Seq<(u32, Vec<T>)>,
    samples: Map<u32, Vec<usize>>,
    tests: Map<u32, usize>,
    regime: Regime,
    p: int,
) -> Seq<(usize, Reference)> {
    let user = population[p].0;
    match regime {
        Regime::Each => samples[user]@.map_values(|i: usize| (p as usize, Reference::Trace(i))),
        Regime::Typical => seq![(p as usize, Reference::Typical)],
        Regime::Test => seq![(p as usize, Reference::Trace(tests[user]))],
    }
}

/// The references of the first `n` candidates, in the order of the
/// population.
pub open spec fn reference_plan<T>(
    population: Seq<(u32, Vec<T>)>,
    samples: Map<u32, Vec<usize>>,
    tests: Map<u32, usize>,
    regime: Regime,
    n: int,
) -> Seq<(usize, Reference)>
    decreases n,
{
    if n <= 0 {
        Seq::empty()
    } else {
        reference_plan(population, samples, tests, regime, n - 1) + candidate_references(
            population,
            samples,
            tests,
            regime,
            n - 1,
        )
    }
}

/// Every user of the population has observed indices, all of them indices
/// of its history; in the regime of the test trace it has a test index too,
/// an index of its history.
pub open spec fn references_exist<T>(
    population: Seq<(u32, Vec<T>)>,
    samples: Map<u32, Vec<usize>>,
    tests: Map<u32, usize>,
    regime: Regime,
) -> bool {
    forall|p: int|
        0 <= p < population.len() ==> {
            let user = (#[trigger] population[p]).0;
            &&& samples.contains_key(user)
            &&& forall|i: int|
                0 <= i < samples[user]@.len() ==> (#[trigger] samples[user]@[i])
                    < population[p].1@.len()
            &&& regime == Regime::Test ==> tests.contains_key(user) && tests[user]
                < population[p].1@.len()
        }
}

/// Tells whether every user of the population has the references that the
/// regime asks for.
pub fn has_references<T>(
    population: &Vec<(u32, Vec<T>)>,
    samples: &HashMap<u32, Vec<usize>>,
    tests: &HashMap<u32, usize>,
    regime: Regime,
) -> (ok: bool)
    ensures
        ok == references_exist(population@, samples@, tests@, regime),
{
    broadcast use group_hash_axioms;

    let mut p: usize = 0;
    while p < population.len()
        invariant
            p <= population@.len(),
            references_exist(population@.take(p as int), samples@, tests@, regime),
        decreases population@.len() - p,
    {
        let user: u32 = population[p].0;
        let history: usize = population[p].1.len();
        assert(population@[p as int].0 == user);
        let indices = match samples.get(&user) {
            Some(list) => list,
            None => {
                return false;
            },
        };
        let mut i: usize = 0;
        while i < indices.len()
            invariant
                i <= indices@.len(),
                p < population@.len(),
                population@[p as int].0 == user,
                population@[p as int].1@.len() == history,
                samples@.contains_key(user),
                samples@[user]@ == indices@,
                forall|j: int| 0 <= j < i ==> (#[trigger] indices@[j]) < history,
            decreases indices@.len() - i,
        {
            if indices[i] >= history {
                assert(samples@[population@[p as int].0]@[i as int] >= population@[p as int].1@.len());
                return false;
            }
            i = i + 1;
        }
        match regime {
            Regime::Test => {
                match tests.get(&user) {
                    Some(test_idx) => {
                        if *test_idx >= history {
                            return false;
                        }
                    },
                    None => {
                        return false;
                    },
                }
            },
            _ => {},
        }
        proof {
            let prefix = population@.take(p + 1);
            assert forall|q: int| 0 <= q < prefix.len() implies {
                let user = (#[trigger] prefix[q]).0;
                &&& samples@.contains_key(user)
                &&& forall|i: int|
                    0 <= i < samples@[user]@.len() ==> (#[trigger] samples@[user]@[i])
                        < prefix[q].1@.len()
                &&& regime == Regime::Test ==> tests@.contains_key(user) && tests@[user]
                    < prefix[q].1@.len()
            } by {
                if q < p {
                    assert(prefix[q] == population@.take(p as int)[q]);
                } else {
                    assert(prefix[q] == population@[p as int]);
                }
            }
        }
        p = p + 1;
    }
    assert(population@.take(population@.len() as int) =~= population@);
    true
}

/// Tells whether the user is one of the population and has a trace at the
/// index.
pub fn holds_trace<T>(population: &Vec<(u32, Vec<T>)>, user: u32, idx: usize) -> (ok: bool)
    ensures
        ok == has_trace(population@, user, idx as int),
{
    match user_position(population, user) {
        Some(place) => idx < population[place].1.len(),
        None => false,
    }
}

/// Every reference of the plan is a trace of its candidate, or its typical
/// trace.
pub open spec fn plan_is_valid<T>(plan: Seq<(usize, Reference)>, population: Seq<(u32, Vec<T>)>) -> bool {
    forall|k: int|
        0 <= k < plan.len() ==> {
            &&& (#[trigger] plan[k]).0 < population.len()
            &&& match plan[k].1 {
                Reference::Trace(i) => i < population[plan[k].0 as int].1@.len(),
                Reference::Typical => true,
            }
        }
}

/// The place of the first user from `from` on that has the number `user`,
/// or the length of the population where none has it.
pub open spec fn place_from<T>(population: Seq<(u32, Vec<T>)>, user: u32, from: int) -> int
    decreases population.len() - from,
{
    if from >= population.len() {
        population.len() as int
    } else if population[from].0 == user {
        from
    } else {
        place_from(population, user, from + 1)
    }
}

/// The place of a user in the population: that of the first entry with its
/// number, or the length of the population where there is none.
pub open spec fn place_of_user<T>(population: Seq<(u32, Vec<T>)>, user: u32) -> int {
    place_from(population, user, 0)
}

/// The user is one of the population and has a trace at the index.
pub open spec fn has_trace<T>(population: Seq<(u32, Vec<T>)>, user: u32, idx: int) -> bool {
    &&& place_of_user(population, user) < population.len()
    &&& 0 <= idx < population[place_of_user(population, user)].1@.len()
}

/// The trace of a user at an index of its history.
pub open spec fn trace_of<T>(population: Seq<(u32, Vec<T>)>, user: u32, idx: int) -> T {
    population[place_of_user(population, user)].1@[idx]
}

/// Where the entries from `from` up to `place` have other numbers, the
/// search from `from` ends at `place` if the entry there has the number, and
/// goes on behind it if not.
pub proof fn lemma_place_from<T>(population: Seq<(u32, Vec<T>)>, user: u32, from: int, place: int)
    requires
        0 <= from <= place <= population.len(),
        forall|q: int| from <= q < place ==> (#[trigger] population[q]).0 != user,
    ensures
        place < population.len() && population[place].0 == user ==> place_from(
            population,
            user,
            from,
        ) == place,
        place == population.len() ==> place_from(population, user, from) == place,
        place <= place_from(population, user, from) <= population.len(),
    decreases place - from,
{
    if from < place {
        assert(population[from].0 != user);
        lemma_place_from(population, user, from + 1, place);
    } else {
        lemma_place_found(population, user, place);
    }
}

/// The search from `from` ends within the population at an entry with the
/// number, or at the length of the population.
pub proof fn lemma_place_found<T>(population: Seq<(u32, Vec<T>)>, user: u32, from: int)
    requires
        0 <= from <= population.len(),
    ensures
        from <= place_from(population, user, from) <= population.len(),
        place_from(population, user, from) < population.len() ==> population[place_from(
            population,
            user,
            from,
        )].0 == user,
        forall|q: int|
            from <= q < place_from(population, user, from) ==> (#[trigger] population[q]).0
                != user,
    decreases population.len() - from,
{
    if from < population.len() && population[from].0 != user {
        lemma_place_found(population, user, from + 1);
    }
}

/// A user of the population has a place in it.
pub proof fn lemma_user_has_place<T>(population: Seq<(u32, Vec<T>)>, user: u32)
    ensures
        is_user(population, user) <==> place_of_user(population, user) < population.len(),
{
    lemma_place_found(population, user, 0);
    if is_user(population, user) {
        let p = choose|p: int| 0 <= p < population.len() && (#[trigger] population[p]).0 == user;
        if place_of_user(population, user) >= population.len() {
            assert(population[p].0 != user);
        }
    }
    if place_of_user(population, user) < population.len() {
        assert(population[place_of_user(population, user)].0 == user);
    }
}

/// Where no two users have one number, each has the place at which it
/// stands.
pub proof fn lemma_place_of_distinct<T>(population: Seq<(u32, Vec<T>)>, p: int)
    requires
        distinct_users(population),
        0 <= p < population.len(),
    ensures
        place_of_user(population, population[p].0) == p,
{
    assert forall|q: int| 0 <= q < p implies (#[trigger] population[q]).0 != population[p].0 by {
        assert(population[q].0 != population[p].0);
    }
    lemma_place_from(population, population[p].0, 0, p);
}

/// Finds the place of a user in the population.
pub fn user_position<T>(population: &Vec<(u32, Vec<T>)>, user: u32) -> (place: Option<usize>)
    ensures
        match place {
            Some(p) => p == place_of_user(population@, user) && p < population@.len()
                && population@[p as int].0 == user,
            None => place_of_user(population@, user) == population@.len() && !is_user(
                population@,
                user,
            ),
        },
{
    let mut p: usize = 0;
    while p < population.len()
        invariant
            p <= population@.len(),
            forall|q: int| 0 <= q < p ==> (#[trigger] population@[q]).0 != user,
        decreases population@.len() - p,
    {
        if population[p].0 == user {
            proof {
                lemma_place_from(population@, user, 0, p as int);
            }
            return Some(p);
        }
        p = p + 1;
    }
    proof {
        lemma_place_from(population@, user, 0, p as int);
        lemma_user_has_place(population@, user);
    }
    None
}

/// Copies a list of indices.
pub fn copy_indices(indices: &Vec<usize>) -> (copy: Vec<usize>)
    ensures
        copy@ == indices@,
{
    let mut copy: Vec<usize> = Vec::new();
    let mut i: usize = 0;
    while i < indices.len()
        invariant
            i <= indices.len(),
            copy@ == indices@.take(i as int),
        decreases indices.len() - i,
    {
        copy.push(indices[i]);
        assert(copy@ =~= indices@.take(i + 1));
        i = i + 1;
    }
    assert(indices@.take(indices.len() as int) =~= indices@);
    copy
}

/// Lists the references of one attack: for every candidate of the
/// population, in its order, the traces with which the target is compared.
pub fn plan_references<T>(
    population: &Vec<(u32, Vec<T>)>,
    samples: &HashMap<u32, Vec<usize>>,
    tests: &HashMap<u32, usize>,
    regime: Regime,
) -> (plan: Vec<(usize, Reference)>)
    requires
        references_exist(population@, samples@, tests@, regime),
    ensures
        plan@ == reference_plan(population@, samples@, tests@, regime, population@.len() as int),
        plan_is_valid(plan@, population@),
{
    broadcast use group_hash_axioms;

    let mut plan: Vec<(usize, Reference)> = Vec::new();
    let mut p: usize = 0;
    while p < population.len()
        invariant
            p <= population@.len(),
            references_exist(population@, samples@, tests@, regime),
            plan@ == reference_plan(population@, samples@, tests@, regime, p as int),
            plan_is_valid(plan@, population@),
        decreases population@.len() - p,
    {
        let user: u32 = population[p].0;
        let ghost before = plan@;
        let ghost added = candidate_references(population@, samples@, tests@, regime, p as int);
        assert(population@[p as int].0 == user);
        match regime {
            Regime::Each => {
                match samples.get(&user) {
                    Some(indices) => {
                        let mut i: usize = 0;
                        while i < indices.len()
                            invariant
                                i <= indices@.len(),
                                p < population@.len(),
                                indices@ == samples@[user]@,
                                forall|j: int|
                                    0 <= j < indices@.len() ==> (#[trigger] indices@[j])
                                        < population@[p as int].1@.len(),
                                added == indices@.map_values(
                                    |i: usize| (p as usize, Reference::Trace(i)),
                                ),
                                plan@ == before + added.take(i as int),
                                plan_is_valid(before, population@),
                                plan_is_valid(plan@, population@),
                            decreases indices@.len() - i,
                        {
                            let ghost earlier = plan@;
                            plan.push((p, Reference::Trace(indices[i])));
                            proof {
                                assert(plan@ =~= before + added.take(i + 1));
                                assert forall|k: int| 0 <= k < plan@.len() implies {
                                    &&& (#[trigger] plan@[k]).0 < population@.len()
                                    &&& match plan@[k].1 {
                                        Reference::Trace(i) => i < population@[plan@[k].0 as int].1@.len(),
                                        Reference::Typical => true,
                                    }
                                } by {
                                    if k < earlier.len() {
                                        assert(plan@[k] == earlier[k]);
                                    }
                                }
                            }
                            i = i + 1;
                        }
                        assert(added.take(indices@.len() as int) =~= added);
                    },
                    None => {
                        assert(false);
                    },
                }
            },
            Regime::Typical => {
                plan.push((p, Reference::Typical));
                proof {
                    assert(plan@ =~= before + added);
                    assert forall|k: int| 0 <= k < plan@.len() implies {
                        &&& (#[trigger] plan@[k]).0 < population@.len()
                        &&& match plan@[k].1 {
                            Reference::Trace(i) => i < population@[plan@[k].0 as int].1@.len(),
                            Reference::Typical => true,
                        }
                    } by {
                        if k < before.len() {
                            assert(plan@[k] == before[k]);
                        }
                    }
                }
            },
            Regime::Test => {
                match tests.get(&user) {
                    Some(test_idx) => {
                        plan.push((p, Reference::Trace(*test_idx)));
                        proof {
                            assert(plan@ =~= before + added);
                            assert forall|k: int| 0 <= k < plan@.len() implies {
                                &&& (#[trigger] plan@[k]).0 < population@.len()
                                &&& match plan@[k].1 {
                                    Reference::Trace(i) => i < population@[plan@[k].0 as int].1@.len(),
                                    Reference::Typical => true,
                                }
                            } by {
                                if k < before.len() {
                                    assert(plan@[k] == before[k]);
                                }
                            }
                        }
                    },
                    None => {
                        assert(false);
                    },
                }
            },
        }
        p = p + 1;
    }
    plan
}

/// What the dependent protocol does to the observed indices of the victim
/// after an attack: a target that was linked with confidence is appended.
pub open spec fn absorbed(
    samples: Map<u32, Vec<usize>>,
    after: Map<u32, Vec<usize>>,
    victim: u32,
    target_idx: usize,
    significant: bool,
) -> bool {
    &&& after.dom() == samples.dom()
    &&& forall|user: u32|
        samples.contains_key(user) && user != victim ==> (#[trigger] after[user])@
            == samples[user]@
    &&& after[victim]@ == if significant {
        samples[victim]@.push(target_idx)
    } else {
        samples[victim]@
    }
}

/// Appends the index of a target that was linked with confidence to the
/// observed indices of the victim; leaves them as they are otherwise.
pub fn absorb(
    samples: &mut HashMap<u32, Vec<usize>>,
    victim: u32,
    target_idx: usize,
    significant: bool,
)
    requires
        old(samples)@.contains_key(victim),
    ensures
        absorbed(old(samples)@, final(samples)@, victim, target_idx, significant),
{
    broadcast use group_hash_axioms;

    if significant {
        let ghost before = samples@;
        let mut indices = match samples.get(&victim) {
            Some(list) => copy_indices(list),
            None => Vec::new(),
        };
        indices.push(target_idx);
        samples.insert(victim, indices);
        assert(samples@.dom() =~= before.dom());
    }
}

/// The places among the scored entries of the three that are ranked
/// first, where there are three. The confidence of a link is judged by the
/// scores at these places; with fewer entries it is not judged.
pub fn top_three(scored: &Vec<(u32, u64)>, order: ScoreOrder) -> (places: Option<(usize, usize, usize)>)
    ensures
        match places {
            Some((first, second, third)) => {
                let ranking = ranking_of(scores_of(scored@), order);
                scored@.len() >= 3 && first == ranking[0] && second == ranking[1] && third
                    == ranking[2]
            },
            None => scored@.len() < 3,
        },
{
    if scored.len() < 3 {
        None
    } else {
        let ranking = rank_positions(scored, order);
        Some((ranking[0], ranking[1], ranking[2]))
    }
}

/// Concludes one attack of the dependent protocol: ranks the scored entries,
/// classifies the attack, and appends the index of the target to the
/// observed indices of the victim where the link was judged confident.
/// `significant` is that judgement; it counts only where there are three
/// entries or more.
pub fn eval_step_dependent(
    user_target: u32,
    target_idx: usize,
    scored: &Vec<(u32, u64)>,
    order: ScoreOrder,
    significant: bool,
    population_size: usize,
    user_to_sample_idx_map: &mut HashMap<u32, Vec<usize>>,
) -> (outcome: (bool, bool, bool))
    requires
        old(user_to_sample_idx_map)@.contains_key(user_target),
    ensures
        outcome == classification(user_target, ranked(scored@, order), population_size as int),
        absorbed(
            old(user_to_sample_idx_map)@,
            final(user_to_sample_idx_map)@,
            user_target,
            target_idx,
            significant && scored@.len() >= 3,
        ),
{
    let outcome = rank_and_classify(user_target, scored, order, population_size);
    absorb(user_to_sample_idx_map, user_target, target_idx, significant && scored.len() >= 3);
    outcome
}

/// The number of outcomes, and of those among them in which the victim was
/// ranked first, was among the first ten, and was among the first tenth.
#[derive(Debug, Clone, Copy, PartialEq, Eq, Structural)]
pub struct Tally {
    pub attacks: usize,
    pub rank_1: usize,
    pub top_10: usize,
    pub top_10_percent: usize,
}

/// The number of outcomes whose component `which` is true.
pub open spec fn successes(outcomes: Seq<(bool, bool, bool)>, which: int) -> nat
    decreases outcomes.len(),
{
    if outcomes.len() == 0 {
        0
    } else {
        let last = outcomes.last();
        let hit = if which == 0 {
            last.0
        } else if which == 1 {
            last.1
        } else {
            last.2
        };
        successes(outcomes.drop_last(), which) + if hit {
            1nat
        } else {
            0nat
        }
    }
}

/// There are no more successes than outcomes.
pub proof fn lemma_successes_bounded(outcomes: Seq<(bool, bool, bool)>, which: int)
    ensures
        successes(outcomes, which) <= outcomes.len(),
    decreases outcomes.len(),
{
    if outcomes.len() > 0 {
        lemma_successes_bounded(outcomes.drop_last(), which);
    }
}

/// Counts the outcomes of the attacks of a run and their successes. The
/// rate of each success is its count over the number of attacks.
pub fn tally(outcomes: &Vec<(bool, bool, bool)>) -> (counts: Tally)
    ensures
        counts.attacks == outcomes@.len(),
        counts.rank_1 == successes(outcomes@, 0),
        counts.top_10 == successes(outcomes@, 1),
        counts.top_10_percent == successes(outcomes@, 2),
{
    let mut counts = Tally { attacks: 0, rank_1: 0, top_10: 0, top_10_percent: 0 };
    let mut k: usize = 0;
    assert(outcomes@.take(0) =~= Seq::<(bool, bool, bool)>::empty());
    while k < outcomes.len()
        invariant
            k <= outcomes@.len(),
            counts.attacks == k,
            counts.rank_1 == successes(outcomes@.take(k as int), 0),
            counts.top_10 == successes(outcomes@.take(k as int), 1),
            counts.top_10_percent == successes(outcomes@.take(k as int), 2),
        decreases outcomes@.len() - k,
    {
        proof {
            assert(outcomes@.take(k + 1).drop_last() =~= outcomes@.take(k as int));
            assert(outcomes@.take(k + 1).last() == outcomes@[k as int]);
            lemma_successes_bounded(outcomes@.take(k as int), 0);
            lemma_successes_bounded(outcomes@.take(k as int), 1);
            lemma_successes_bounded(outcomes@.take(k as int), 2);
        }
        let (in_top_1, in_top_10, in_top_10_percent) = outcomes[k];
        counts.attacks = counts.attacks + 1;
        if in_top_1 {
            counts.rank_1 = counts.rank_1 + 1;
        }
        if in_top_10 {
            counts.top_10 = counts.top_10 + 1;
        }
        if in_top_10_percent {
            counts.top_10_percent = counts.top_10_percent + 1;
        }
        k = k + 1;
    }
    assert(outcomes@.take(outcomes@.len() as int) =~= outcomes@);
    counts
}

/// The maps that sampling gives for a population are what an attack asks
/// for: where no two users have one number and each has two traces or more,
/// every user has observed traces, all of them traces of its history, and,
/// in the regime of the test trace, a test trace among them.
pub proof fn lemma_samples_are_references<T>(
    population: Seq<(u32, Vec<T>)>,
    samples: Map<u32, Vec<usize>>,
    tests: Map<u32, usize>,
    trace_sample_size: int,
    regime: Regime,
)
    requires
        forall|p: int| 0 <= p < population.len() ==> (#[trigger] population[p]).1@.len() >= 2,
        is_sample_map(samples, population, trace_sample_size),
        regime == Regime::Test ==> is_test_map(tests, population, samples),
        trace_sample_size >= 0,
    ensures
        references_exist(population, samples, tests, regime),
        forall|p: int|
            0 <= p < population.len() ==> {
                let user = (#[trigger] population[p]).0;
                &&& 0 < samples[user]@.len() <= population[p].1@.len() / 2
                &&& regime == Regime::Test ==> samples[user]@.contains(tests[user])
            },
{
    assert forall|p: int| 0 <= p < population.len() implies {
        let user = (#[trigger] population[p]).0;
        &&& samples.contains_key(user)
        &&& forall|i: int|
            0 <= i < samples[user]@.len() ==> (#[trigger] samples[user]@[i])
                < population[p].1@.len()
        &&& regime == Regime::Test ==> tests.contains_key(user) && tests[user]
            < population[p].1@.len()
        &&& 0 < samples[user]@.len() <= population[p].1@.len() / 2
        &&& regime == Regime::Test ==> samples[user]@.contains(tests[user])
    } by {
        let user = population[p].0;
        let half = population[p].1@.len() as int / 2;
        let observed = samples[user]@;
        assert(population[p].1@.len() >= 2);
        if trace_sample_size == 0 {
            assert(observed == index_range(0, half));
        } else {
            assert(is_index_sample(observed, 0, half, trace_sample_size));
        }
        assert forall|i: int| 0 <= i < observed.len() implies (#[trigger] observed[i]) < half by {}
        if regime == Regime::Test {
            assert(tests.contains_key(user));
            assert(observed.contains(tests[user]));
            let i = choose|i: int| 0 <= i < observed.len() && observed[i] == tests[user];
            assert(observed[i] < half);
        }
    }
}

/// Every target that sampling gives is a trace of its victim: where no two
/// users have one number, a victim of the map is a user of the population
/// and each of its target indices is an index of the later half of its
/// history.
pub proof fn lemma_targets_are_traces<T>(
    population: Seq<(u32, Vec<T>)>,
    targets: Map<u32, Vec<usize>>,
    user_sample_size: int,
    target_trace_sample_size: int,
    victim: u32,
    k: int,
)
    requires
        distinct_users(population),
        is_target_map(targets, population, user_sample_size, target_trace_sample_size),
        targets.contains_key(victim),
        0 <= k < targets[victim]@.len(),
    ensures
        has_trace(population, victim, targets[victim]@[k] as int),
        targets[victim]@[k] >= population[place_of_user(population, victim)].1@.len() / 2,
{
    assert(is_user(population, victim));
    let p = choose|p: int| 0 <= p < population.len() && (#[trigger] population[p]).0 == victim;
    lemma_place_of_distinct(population, p);
    assert(targets.contains_key(population[p].0));
    assert(is_index_sample(
        targets[population[p].0]@,
        population[p].1@.len() as int / 2,
        population[p].1@.len() as int,
        target_trace_sample_size,
    ));
}

/// The references of a candidate are part of the plan.
pub proof fn lemma_plan_holds_candidate<T>(
    population: Seq<(u32, Vec<T>)>,
    samples: Map<u32, Vec<usize>>,
    tests: Map<u32, usize>,
    regime: Regime,
    n: int,
    p: int,
    k: int,
)
    requires
        0 <= p < n,
        0 <= k < candidate_references(population, samples, tests, regime, p).len(),
    ensures
        reference_plan(population, samples, tests, regime, n).contains(
            candidate_references(population, samples, tests, regime, p)[k],
        ),
    decreases n,
{
    let plan = reference_plan(population, samples, tests, regime, n);
    let before = reference_plan(population, samples, tests, regime, n - 1);
    let own = candidate_references(population, samples, tests, regime, p);
    if p == n - 1 {
        assert(plan[before.len() + k] == own[k]);
    } else {
        lemma_plan_holds_candidate(population, samples, tests, regime, n - 1, p, k);
        let i = choose|i: int| 0 <= i < before.len() && before[i] == own[k];
        assert(plan[i] == own[k]);
    }
}

/// In the dependent protocol a target that was linked with confidence is
/// among the references of the victim in every later attack: once its index
/// has been appended to the observed indices of the victim, the plan of an
/// attack that compares with each observed trace holds it.
pub proof fn lemma_absorbed_target_is_compared<T>(
    population: Seq<(u32, Vec<T>)>,
    samples: Map<u32, Vec<usize>>,
    after: Map<u32, Vec<usize>>,
    tests: Map<u32, usize>,
    victim: int,
    target_idx: usize,
)
    requires
        0 <= victim < population.len(),
        samples.contains_key(population[victim].0),
        absorbed(samples, after, population[victim].0, target_idx, true),
    ensures
        reference_plan(population, after, tests, Regime::Each, population.len() as int).contains(
            (victim as usize, Reference::Trace(target_idx)),
        ),
{
    let user = population[victim].0;
    let own = candidate_references(population, after, tests, Regime::Each, victim);
    let last = samples[user]@.len() as int;
    assert(after[user]@[last] == target_idx);
    assert(own[last] == (victim as usize, Reference::Trace(target_idx)));
    lemma_plan_holds_candidate(
        population,
        after,
        tests,
        Regime::Each,
        population.len() as int,
        victim,
        last,
    );
}

} // verus!
