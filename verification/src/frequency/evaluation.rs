//! The comparisons of an attack in the histogram-based approach.
//!
//! A target trace is compared with the observed traces of a candidate over
//! vocabularies that hold the values of exactly these traces. This module
//! builds the vocabularies and the vectors of a comparison. The distance of
//! two vectors is a matter of real numbers and not of this library.

use crate::evaluation::{
    has_trace, lemma_samples_are_references, references_exist, trace_of, user_position, Regime,
};
use crate::frequency::trace::{
    categories_of, domains_of, field_rows, field_vector, gen_typical_vect_trace, is_summed,
    is_vectorized, urls_of, vectorize_trace, vocabularies_cover, FreqTrace, VectFreqTrace,
};
use crate::histogram::{distinct_keys, keys_of, lemma_position_of, lemma_tally_of, total_of};
use crate::parse::{DataFields, Record};
use crate::sample::{is_sample_map, is_test_map};
use crate::sequence::trace::selected;
use crate::utils::freq_vector;
use crate::vocabulary::{
    distinct_in_order, lemma_distinct_in_order, lemma_distinct_in_order_contains,
    lemma_distinct_in_order_of_distinct, set_items, vocabulary_of,
};
use indexmap::IndexSet;
use std::collections::HashMap;
use vstd::prelude::*;
use vstd::std_specs::hash::*;

verus! {

/// The field has a vocabulary: its values are strings.
pub open spec fn has_vocabulary(field: DataFields) -> bool {
    field == DataFields::Url || field == DataFields::Domain || field == DataFields::Category
        || field == DataFields::Age || field == DataFields::Gender
}

/// The values of a field of a trace, in the order in which the trace holds
/// them.
pub open spec fn field_values(trace: FreqTrace, field: DataFields) -> Seq<Seq<char>> {
    match field {
        DataFields::Url => keys_of(trace.url@),
        DataFields::Domain => keys_of(trace.domain@),
        DataFields::Category => keys_of(trace.category@),
        DataFields::Age => seq![trace.age@],
        DataFields::Gender => seq![trace.gender@],
        _ => Seq::empty(),
    }
}

/// The values of a field of a list of traces, trace after trace.
pub open spec fn traces_values(traces: Seq<FreqTrace>, field: DataFields) -> Seq<Seq<char>>
    decreases traces.len(),
{
    if traces.len() == 0 {
        Seq::empty()
    } else {
        traces_values(traces.drop_last(), field) + field_values(traces.last(), field)
    }
}

/// The vocabulary of a field for one comparison: the distinct values of the
/// target trace and of the observed traces, the target first, in the order
/// of their first occurrence.
pub open spec fn vocabulary_items(target: FreqTrace, sampled: Seq<FreqTrace>, field: DataFields) -> Seq<
    Seq<char>,
> {
    distinct_in_order(field_values(target, field) + traces_values(sampled, field))
}

/// Appends the values of a field of a trace to a list of values.
fn collect_values(values: &mut Vec<String>, trace: &FreqTrace, field: DataFields)
    requires
        has_vocabulary(field),
        trace.wf(),
    ensures
        final(values)@.map_values(|s: String| s@) == old(values)@.map_values(|s: String| s@)
            + field_values(*trace, field),
{
    let ghost before = values@.map_values(|s: String| s@);
    match field {
        DataFields::Age => {
            values.push(trace.age.clone());
            assert(values@.map_values(|s: String| s@) =~= before + field_values(*trace, field));
        },
        DataFields::Gender => {
            values.push(trace.gender.clone());
            assert(values@.map_values(|s: String| s@) =~= before + field_values(*trace, field));
        },
        _ => {
            let histogram = match field {
                DataFields::Url => &trace.url,
                DataFields::Domain => &trace.domain,
                _ => &trace.category,
            };
            assert(keys_of(histogram@) == field_values(*trace, field));
            let mut k: usize = 0;
            assert(before + keys_of(histogram@).take(0) =~= before);
            while k < histogram.len()
                invariant
                    histogram.wf(),
                    k <= histogram@.len(),
                    values@.map_values(|s: String| s@) == before + keys_of(histogram@).take(
                        k as int,
                    ),
                decreases histogram@.len() - k,
            {
                let ghost seen = values@.map_values(|s: String| s@);
                values.push(histogram.key(k).clone());
                assert(values@.map_values(|s: String| s@) =~= seen.push(histogram@[k as int].0));
                assert(before + keys_of(histogram@).take(k + 1) =~= (before + keys_of(
                    histogram@,
                ).take(k as int)).push(histogram@[k as int].0));
                k = k + 1;
            }
            assert(keys_of(histogram@).take(histogram@.len() as int) =~= keys_of(histogram@));
        },
    }
}

/// Builds the vocabulary of a field for one comparison from the target
/// trace and the observed traces of a candidate.
pub fn get_unique_set(
    target_trace: &FreqTrace,
    sampled_traces: &Vec<FreqTrace>,
    field: DataFields,
) -> (set: IndexSet<String>)
    requires
        has_vocabulary(field),
        target_trace.wf(),
        forall|k: int| 0 <= k < sampled_traces@.len() ==> (#[trigger] sampled_traces@[k]).wf(),
    ensures
        set_items(set) == vocabulary_items(*target_trace, sampled_traces@, field),
{
    let mut values: Vec<String> = Vec::new();
    collect_values(&mut values, target_trace, field);
    let mut k: usize = 0;
    proof {
        assert(sampled_traces@.take(0) =~= Seq::<FreqTrace>::empty());
        assert(values@.map_values(|s: String| s@) =~= field_values(*target_trace, field)
            + traces_values(sampled_traces@.take(0), field));
    }
    while k < sampled_traces.len()
        invariant
            has_vocabulary(field),
            k <= sampled_traces@.len(),
            forall|j: int| 0 <= j < sampled_traces@.len() ==> (#[trigger] sampled_traces@[j]).wf(),
            values@.map_values(|s: String| s@) == field_values(*target_trace, field)
                + traces_values(sampled_traces@.take(k as int), field),
        decreases sampled_traces@.len() - k,
    {
        let ghost seen = sampled_traces@.take(k as int);
        let ghost next = sampled_traces@.take(k + 1);
        collect_values(&mut values, &sampled_traces[k], field);
        proof {
            assert(next.drop_last() =~= seen);
            assert(next.last() == sampled_traces@[k as int]);
            assert(values@.map_values(|s: String| s@) =~= field_values(*target_trace, field)
                + traces_values(next, field));
        }
        k = k + 1;
    }
    assert(sampled_traces@.take(sampled_traces@.len() as int) =~= sampled_traces@);
    vocabulary_of(&values)
}

/// The values of the traces hold the values of each of them.
proof fn lemma_traces_values_contain(
    traces: Seq<FreqTrace>,
    field: DataFields,
    k: int,
    value: Seq<char>,
)
    requires
        0 <= k < traces.len(),
        field_values(traces[k], field).contains(value),
    ensures
        traces_values(traces, field).contains(value),
    decreases traces.len(),
{
    let all = traces_values(traces, field);
    let before = traces_values(traces.drop_last(), field);
    let last = field_values(traces.last(), field);
    if k == traces.len() - 1 {
        let i = choose|i: int| 0 <= i < last.len() && last[i] == value;
        assert(all[before.len() + i] == value);
    } else {
        lemma_traces_values_contain(traces.drop_last(), field, k, value);
        let i = choose|i: int| 0 <= i < before.len() && before[i] == value;
        assert(all[i] == value);
    }
}

/// The vocabulary of a comparison holds every value of the target trace and
/// of each observed trace.
pub proof fn lemma_vocabulary_holds_values(
    target: FreqTrace,
    sampled: Seq<FreqTrace>,
    field: DataFields,
    value: Seq<char>,
)
    ensures
        field_values(target, field).contains(value) ==> vocabulary_items(
            target,
            sampled,
            field,
        ).contains(value),
        forall|k: int|
            0 <= k < sampled.len() && field_values(#[trigger] sampled[k], field).contains(value)
                ==> vocabulary_items(target, sampled, field).contains(value),
{
    let first = field_values(target, field);
    let rest = traces_values(sampled, field);
    lemma_distinct_in_order_contains(first + rest, value);
    if first.contains(value) {
        let i = choose|i: int| 0 <= i < first.len() && first[i] == value;
        assert((first + rest)[i] == value);
    }
    assert forall|k: int|
        0 <= k < sampled.len() && field_values(
            #[trigger] sampled[k],
            field,
        ).contains(value) implies vocabulary_items(target, sampled, field).contains(value) by {
        lemma_traces_values_contain(sampled, field, k, value);
        let i = choose|i: int| 0 <= i < rest.len() && rest[i] == value;
        assert((first + rest)[first.len() + i] == value);
    }
}

/// The vocabularies of a comparison cover the traces that they were built
/// from.
pub proof fn lemma_vocabularies_cover(target: FreqTrace, sampled: Seq<FreqTrace>, trace: FreqTrace)
    requires
        trace == target || sampled.contains(trace),
    ensures
        vocabularies_cover(
            trace,
            vocabulary_items(target, sampled, DataFields::Url),
            vocabulary_items(target, sampled, DataFields::Domain),
            vocabulary_items(target, sampled, DataFields::Category),
            vocabulary_items(target, sampled, DataFields::Age),
            vocabulary_items(target, sampled, DataFields::Gender),
        ),
{
    let k = if trace == target {
        0
    } else {
        choose|k: int| 0 <= k < sampled.len() && sampled[k] == trace
    };
    assert forall|j: int| 0 <= j < trace.url@.len() implies vocabulary_items(
        target,
        sampled,
        DataFields::Url,
    ).contains((#[trigger] trace.url@[j]).0) by {
        assert(keys_of(trace.url@)[j] == trace.url@[j].0);
        lemma_vocabulary_holds_values(target, sampled, DataFields::Url, trace.url@[j].0);
        if trace != target {
            assert(field_values(sampled[k], DataFields::Url).contains(trace.url@[j].0));
        }
    }
    assert forall|j: int| 0 <= j < trace.domain@.len() implies vocabulary_items(
        target,
        sampled,
        DataFields::Domain,
    ).contains((#[trigger] trace.domain@[j]).0) by {
        assert(keys_of(trace.domain@)[j] == trace.domain@[j].0);
        lemma_vocabulary_holds_values(target, sampled, DataFields::Domain, trace.domain@[j].0);
        if trace != target {
            assert(field_values(sampled[k], DataFields::Domain).contains(trace.domain@[j].0));
        }
    }
    assert forall|j: int| 0 <= j < trace.category@.len() implies vocabulary_items(
        target,
        sampled,
        DataFields::Category,
    ).contains((#[trigger] trace.category@[j]).0) by {
        assert(keys_of(trace.category@)[j] == trace.category@[j].0);
        lemma_vocabulary_holds_values(target, sampled, DataFields::Category, trace.category@[j].0);
        if trace != target {
            assert(field_values(sampled[k], DataFields::Category).contains(trace.category@[j].0));
        }
    }
    assert(field_values(trace, DataFields::Age)[0] == trace.age@);
    assert(field_values(trace, DataFields::Gender)[0] == trace.gender@);
    lemma_vocabulary_holds_values(target, sampled, DataFields::Age, trace.age@);
    lemma_vocabulary_holds_values(target, sampled, DataFields::Gender, trace.gender@);
    if trace != target {
        assert(field_values(sampled[k], DataFields::Age).contains(trace.age@));
        assert(field_values(sampled[k], DataFields::Gender).contains(trace.gender@));
    }
}

/// The vectors of the comparisons of a target with one candidate.
#[derive(Debug)]
pub struct CandidateVectors {
    /// The number of the candidate.
    pub candidate: u32,
    /// The number of observed traces of the candidate.
    pub observed: usize,
    /// The vectors of the target over the vocabularies of this comparison.
    pub target: VectFreqTrace<u32>,
    /// The vectors of the reference traces, where the target is compared
    /// with traces.
    pub references: Vec<VectFreqTrace<u32>>,
    /// The sums of the vectors of the observed traces, where the target is
    /// compared with their typical trace: that is the sums divided by the
    /// number of observed traces.
    pub typical: Option<VectFreqTrace<u64>>,
}

/// The vectors are those of the comparisons of the target with the
/// candidate whose observed traces are `sampled`, in the given regime. In
/// the regime of the test trace, `test` is that trace.
pub open spec fn are_candidate_vectors(
    vectors: CandidateVectors,
    target: FreqTrace,
    sampled: Seq<FreqTrace>,
    regime: Regime,
    test: FreqTrace,
) -> bool {
    let urls = vocabulary_items(target, sampled, DataFields::Url);
    let domains = vocabulary_items(target, sampled, DataFields::Domain);
    let categories = vocabulary_items(target, sampled, DataFields::Category);
    let ages = vocabulary_items(target, sampled, DataFields::Age);
    let genders = vocabulary_items(target, sampled, DataFields::Gender);
    &&& vectors.observed == sampled.len()
    &&& is_vectorized(vectors.target, target, urls, domains, categories, ages, genders)
    &&& match regime {
        Regime::Each => {
            &&& vectors.typical is None
            &&& vectors.references@.len() == sampled.len()
            &&& forall|j: int|
                0 <= j < sampled.len() ==> is_vectorized(
                    #[trigger] vectors.references@[j],
                    sampled[j],
                    urls,
                    domains,
                    categories,
                    ages,
                    genders,
                )
        },
        Regime::Typical => {
            &&& vectors.references@.len() == 0
            &&& vectors.typical is Some
            &&& is_summed(
                vectors.typical->Some_0,
                sampled,
                urls,
                domains,
                categories,
                ages,
                genders,
            )
        },
        Regime::Test => {
            &&& vectors.typical is None
            &&& vectors.references@.len() == 1
            &&& is_vectorized(
                vectors.references@[0],
                test,
                urls,
                domains,
                categories,
                ages,
                genders,
            )
        },
    }
}

/// Builds the vectors of the comparisons of a target trace with one
/// candidate: the vocabularies of the target and the observed traces of the
/// candidate, the vectors of the target over them, and the vectors of the
/// references that the regime asks for.
pub fn compare_candidate(
    candidate: u32,
    target_trace: &FreqTrace,
    sampled_traces: &Vec<FreqTrace>,
    regime: Regime,
    test: usize,
) -> (vectors: CandidateVectors)
    requires
        target_trace.wf(),
        sampled_traces@.len() < u32::MAX,
        forall|k: int| 0 <= k < sampled_traces@.len() ==> (#[trigger] sampled_traces@[k]).wf(),
        regime == Regime::Test ==> test < sampled_traces@.len(),
    ensures
        vectors.candidate == candidate,
        are_candidate_vectors(
            vectors,
            *target_trace,
            sampled_traces@,
            regime,
            sampled_traces@[test as int],
        ),
{
    let url_set = get_unique_set(target_trace, sampled_traces, DataFields::Url);
    let domain_set = get_unique_set(target_trace, sampled_traces, DataFields::Domain);
    let category_set = get_unique_set(target_trace, sampled_traces, DataFields::Category);
    let age_set = get_unique_set(target_trace, sampled_traces, DataFields::Age);
    let gender_set = get_unique_set(target_trace, sampled_traces, DataFields::Gender);
    proof {
        lemma_vocabularies_cover(*target_trace, sampled_traces@, *target_trace);
        assert forall|k: int| 0 <= k < sampled_traces@.len() implies vocabularies_cover(
            #[trigger] sampled_traces@[k],
            set_items(url_set),
            set_items(domain_set),
            set_items(category_set),
            set_items(age_set),
            set_items(gender_set),
        ) by {
            lemma_vocabularies_cover(*target_trace, sampled_traces@, sampled_traces@[k]);
        }
    }
    let target = vectorize_trace(
        target_trace,
        &url_set,
        &domain_set,
        &category_set,
        &age_set,
        &gender_set,
    );
    let mut references: Vec<VectFreqTrace<u32>> = Vec::new();
    let mut typical: Option<VectFreqTrace<u64>> = None;
    match regime {
        Regime::Each => {
            let mut k: usize = 0;
            while k < sampled_traces.len()
                invariant
                    k <= sampled_traces@.len(),
                    references@.len() == k,
                    forall|j: int|
                        0 <= j < sampled_traces@.len() ==> (#[trigger] sampled_traces@[j]).wf()
                            && vocabularies_cover(
                            sampled_traces@[j],
                            set_items(url_set),
                            set_items(domain_set),
                            set_items(category_set),
                            set_items(age_set),
                            set_items(gender_set),
                        ),
                    forall|j: int|
                        0 <= j < k ==> is_vectorized(
                            #[trigger] references@[j],
                            sampled_traces@[j],
                            set_items(url_set),
                            set_items(domain_set),
                            set_items(category_set),
                            set_items(age_set),
                            set_items(gender_set),
                        ),
                decreases sampled_traces@.len() - k,
            {
                references.push(
                    vectorize_trace(
                        &sampled_traces[k],
                        &url_set,
                        &domain_set,
                        &category_set,
                        &age_set,
                        &gender_set,
                    ),
                );
                k = k + 1;
            }
        },
        Regime::Typical => {
            typical = Some(
                gen_typical_vect_trace(
                    sampled_traces,
                    &url_set,
                    &domain_set,
                    &category_set,
                    &age_set,
                    &gender_set,
                ),
            );
        },
        Regime::Test => {
            references.push(
                vectorize_trace(
                    &sampled_traces[test],
                    &url_set,
                    &domain_set,
                    &category_set,
                    &age_set,
                    &gender_set,
                ),
            );
        },
    }
    CandidateVectors { candidate, observed: sampled_traces.len(), target, references, typical }
}

/// The vectors of one field of a trace in vectors. A trace has no vector of
/// the seconds of activity.
pub fn field_of<T>(trace: &VectFreqTrace<T>, field: DataFields) -> (vector: Option<&Vec<T>>)
    ensures
        vector == match field {
            DataFields::Url => Some(&trace.url),
            DataFields::Domain => Some(&trace.domain),
            DataFields::Category => Some(&trace.category),
            DataFields::Day => Some(&trace.day),
            DataFields::Hour => Some(&trace.hour),
            DataFields::Gender => Some(&trace.gender),
            DataFields::Age => Some(&trace.age),
            DataFields::ActiveSeconds => None,
        },
{
    match field {
        DataFields::Url => Some(&trace.url),
        DataFields::Domain => Some(&trace.domain),
        DataFields::Category => Some(&trace.category),
        DataFields::Day => Some(&trace.day),
        DataFields::Hour => Some(&trace.hour),
        DataFields::Gender => Some(&trace.gender),
        DataFields::Age => Some(&trace.age),
        DataFields::ActiveSeconds => None,
    }
}

/// Two lists of traces hold the same values, trace by trace.
pub open spec fn same_traces(a: Seq<FreqTrace>, b: Seq<FreqTrace>) -> bool {
    &&& a.len() == b.len()
    &&& forall|k: int| 0 <= k < a.len() ==> (#[trigger] a[k]).same_as(&b[k])
}

/// The values of the traces depend on what the traces hold alone.
proof fn lemma_values_of_same(a: Seq<FreqTrace>, b: Seq<FreqTrace>, field: DataFields)
    requires
        same_traces(a, b),
    ensures
        traces_values(a, field) == traces_values(b, field),
    decreases a.len(),
{
    if a.len() > 0 {
        assert(same_traces(a.drop_last(), b.drop_last())) by {
            assert forall|k: int| 0 <= k < a.drop_last().len() implies (#[trigger] a.drop_last()[k]).same_as(
                &b.drop_last()[k],
            ) by {
                assert(a[k].same_as(&b[k]));
            }
        }
        lemma_values_of_same(a.drop_last(), b.drop_last(), field);
        assert(a.last().same_as(&b.last()));
    }
}

/// The vectors of the traces depend on what the traces hold alone.
proof fn lemma_rows_of_same(
    a: Seq<FreqTrace>,
    b: Seq<FreqTrace>,
    field: DataFields,
    items: Seq<Seq<char>>,
)
    requires
        same_traces(a, b),
    ensures
        field_rows(a, field, items) == field_rows(b, field, items),
{
    assert forall|k: int| 0 <= k < a.len() implies field_vector(a[k], field, items) == field_vector(
        b[k],
        field,
        items,
    ) by {
        assert(a[k].same_as(&b[k]));
    }
    assert(field_rows(a, field, items) =~= field_rows(b, field, items));
}

/// The vectors of a comparison are the vectors of the comparison with every
/// list of observed traces that holds the same values.
pub proof fn lemma_vectors_of_same(
    vectors: CandidateVectors,
    target: FreqTrace,
    a: Seq<FreqTrace>,
    b: Seq<FreqTrace>,
    regime: Regime,
    test_a: FreqTrace,
    test_b: FreqTrace,
)
    requires
        are_candidate_vectors(vectors, target, a, regime, test_a),
        same_traces(a, b),
        test_a.same_as(&test_b),
    ensures
        are_candidate_vectors(vectors, target, b, regime, test_b),
{
    lemma_values_of_same(a, b, DataFields::Url);
    lemma_values_of_same(a, b, DataFields::Domain);
    lemma_values_of_same(a, b, DataFields::Category);
    lemma_values_of_same(a, b, DataFields::Age);
    lemma_values_of_same(a, b, DataFields::Gender);
    let urls = vocabulary_items(target, a, DataFields::Url);
    let domains = vocabulary_items(target, a, DataFields::Domain);
    let categories = vocabulary_items(target, a, DataFields::Category);
    let ages = vocabulary_items(target, a, DataFields::Age);
    let genders = vocabulary_items(target, a, DataFields::Gender);
    match regime {
        Regime::Each => {
            assert forall|j: int| 0 <= j < b.len() implies is_vectorized(
                #[trigger] vectors.references@[j],
                b[j],
                urls,
                domains,
                categories,
                ages,
                genders,
            ) by {
                assert(a[j].same_as(&b[j]));
                assert(is_vectorized(
                    vectors.references@[j],
                    a[j],
                    urls,
                    domains,
                    categories,
                    ages,
                    genders,
                ));
            }
        },
        Regime::Typical => {
            lemma_rows_of_same(a, b, DataFields::Url, urls);
            lemma_rows_of_same(a, b, DataFields::Domain, domains);
            lemma_rows_of_same(a, b, DataFields::Category, categories);
            lemma_rows_of_same(a, b, DataFields::Age, ages);
            lemma_rows_of_same(a, b, DataFields::Gender, genders);
            lemma_rows_of_same(a, b, DataFields::Hour, Seq::empty());
            lemma_rows_of_same(a, b, DataFields::Day, Seq::empty());
        },
        Regime::Test => {},
    }
}

/// Copies the traces of a history at the given indices.
pub fn sampled_traces(traces: &Vec<FreqTrace>, indices: &Vec<usize>) -> (sampled: Vec<FreqTrace>)
    requires
        forall|k: int| 0 <= k < indices@.len() ==> (#[trigger] indices@[k]) < traces@.len(),
    ensures
        same_traces(sampled@, selected(traces@, indices@)),
        forall|k: int|
            0 <= k < indices@.len() && traces@[indices@[k] as int].wf() ==> (
            #[trigger] sampled@[k]).wf(),
{
    let mut sampled: Vec<FreqTrace> = Vec::new();
    let mut k: usize = 0;
    while k < indices.len()
        invariant
            k <= indices@.len(),
            forall|j: int| 0 <= j < indices@.len() ==> (#[trigger] indices@[j]) < traces@.len(),
            sampled@.len() == k,
            forall|j: int|
                0 <= j < k ==> (#[trigger] sampled@[j]).same_as(&traces@[indices@[j] as int]),
            forall|j: int|
                0 <= j < k && traces@[indices@[j] as int].wf() ==> (#[trigger] sampled@[j]).wf(),
        decreases indices@.len() - k,
    {
        sampled.push(traces[indices[k]].clone());
        k = k + 1;
    }
    sampled
}

/// Finds the first place of an index in a list of indices.
pub fn place_of(indices: &Vec<usize>, index: usize) -> (place: Option<usize>)
    ensures
        match place {
            Some(k) => k < indices@.len() && indices@[k as int] == index,
            None => !indices@.contains(index),
        },
{
    let mut k: usize = 0;
    while k < indices.len()
        invariant
            k <= indices@.len(),
            forall|j: int| 0 <= j < k ==> (#[trigger] indices@[j]) != index,
        decreases indices@.len() - k,
    {
        if indices[k] == index {
            return Some(k);
        }
        k = k + 1;
    }
    None
}

/// Every trace of the population is well formed, no user has more observed
/// traces than a 32-bit number counts, and in the regime of the test trace
/// the test trace of every user is one of its observed traces.
pub open spec fn population_is_comparable(
    population: Seq<(u32, Vec<FreqTrace>)>,
    samples: Map<u32, Vec<usize>>,
    tests: Map<u32, usize>,
    regime: Regime,
) -> bool {
    &&& references_exist(population, samples, tests, regime)
    &&& forall|p: int, i: int|
        0 <= p < population.len() && 0 <= i < population[p].1@.len() ==> (
        #[trigger] population[p].1@[i]).wf()
    &&& forall|p: int|
        0 <= p < population.len() ==> {
            let user = (#[trigger] population[p]).0;
            &&& samples[user]@.len() < u32::MAX
            &&& regime == Regime::Test ==> samples[user]@.contains(tests[user])
        }
}

/// A population that was built from a stream and sampled can be attacked:
/// where every trace is well formed and no user has fewer than two traces
/// or more than a 32-bit number counts, the maps that sampling gives make
/// the population comparable.
pub proof fn lemma_sampled_population_is_comparable(
    population: Seq<(u32, Vec<FreqTrace>)>,
    samples: Map<u32, Vec<usize>>,
    tests: Map<u32, usize>,
    trace_sample_size: int,
    regime: Regime,
)
    requires
        forall|p: int, i: int|
            0 <= p < population.len() && 0 <= i < population[p].1@.len() ==> (
            #[trigger] population[p].1@[i]).wf(),
        forall|p: int|
            0 <= p < population.len() ==> 2 <= (#[trigger] population[p]).1@.len() <= u32::MAX,
        is_sample_map(samples, population, trace_sample_size),
        regime == Regime::Test ==> is_test_map(tests, population, samples),
        trace_sample_size >= 0,
    ensures
        population_is_comparable(population, samples, tests, regime),
{
    lemma_samples_are_references(population, samples, tests, trace_sample_size, regime);
}

/// The entries are the vectors of the comparisons of the target with every
/// candidate of the population, in its order.
pub open spec fn are_attack_vectors(
    vectors: Seq<CandidateVectors>,
    target: FreqTrace,
    population: Seq<(u32, Vec<FreqTrace>)>,
    samples: Map<u32, Vec<usize>>,
    tests: Map<u32, usize>,
    regime: Regime,
) -> bool {
    &&& vectors.len() == population.len()
    &&& forall|p: int|
        0 <= p < vectors.len() ==> {
            let user = population[p].0;
            &&& (#[trigger] vectors[p]).candidate == user
            &&& are_candidate_vectors(
                vectors[p],
                target,
                selected(population[p].1@, samples[user]@),
                regime,
                population[p].1@[tests[user] as int],
            )
        }
}

/// Builds the vectors of the comparisons of one attack: the target trace of
/// the victim against the references of every candidate, in the order of
/// the population.
pub fn eval_step(
    regime: Regime,
    user_target: u32,
    target_idx: usize,
    user_to_freq_map: &Vec<(u32, Vec<FreqTrace>)>,
    user_to_sample_idx_map: &HashMap<u32, Vec<usize>>,
    user_to_test_idx_map: &HashMap<u32, usize>,
) -> (vectors: Vec<CandidateVectors>)
    requires
        population_is_comparable(
            user_to_freq_map@,
            user_to_sample_idx_map@,
            user_to_test_idx_map@,
            regime,
        ),
        has_trace(user_to_freq_map@, user_target, target_idx as int),
    ensures
        are_attack_vectors(
            vectors@,
            trace_of(user_to_freq_map@, user_target, target_idx as int),
            user_to_freq_map@,
            user_to_sample_idx_map@,
            user_to_test_idx_map@,
            regime,
        ),
{
    broadcast use group_hash_axioms;

    let ghost population = user_to_freq_map@;
    let ghost samples = user_to_sample_idx_map@;
    let ghost tests = user_to_test_idx_map@;
    let victim = match user_position(user_to_freq_map, user_target) {
        Some(v) => v,
        None => {
            assert(false);
            0
        },
    };
    let target_trace = &user_to_freq_map[victim].1[target_idx];
    let ghost target = *target_trace;
    assert(target.wf()) by {
        assert(population[victim as int].1@[target_idx as int].wf());
    }
    let mut vectors: Vec<CandidateVectors> = Vec::new();
    let mut p: usize = 0;
    while p < user_to_freq_map.len()
        invariant
            p <= population.len(),
            population == user_to_freq_map@,
            samples == user_to_sample_idx_map@,
            tests == user_to_test_idx_map@,
            population_is_comparable(population, samples, tests, regime),
            target == *target_trace,
            target.wf(),
            are_attack_vectors(vectors@, target, population.take(p as int), samples, tests, regime),
        decreases population.len() - p,
    {
        let user: u32 = user_to_freq_map[p].0;
        let traces = &user_to_freq_map[p].1;
        assert(population[p as int].0 == user);
        let indices = match user_to_sample_idx_map.get(&user) {
            Some(list) => list,
            None => {
                assert(false);
                return vectors;
            },
        };
        let sampled = sampled_traces(traces, indices);
        let test: usize = match regime {
            Regime::Test => {
                let test_idx = match user_to_test_idx_map.get(&user) {
                    Some(idx) => *idx,
                    None => {
                        assert(false);
                        return vectors;
                    },
                };
                match place_of(indices, test_idx) {
                    Some(place) => place,
                    None => {
                        assert(false);
                        return vectors;
                    },
                }
            },
            _ => 0,
        };
        proof {
            assert forall|k: int| 0 <= k < sampled@.len() implies (#[trigger] sampled@[k]).wf() by {
                assert(population[p as int].1@[indices@[k] as int].wf());
            }
        }
        let entry = compare_candidate(user, target_trace, &sampled, regime, test);
        let ghost before = vectors@;
        let ghost new_entry = entry;
        proof {
            let chosen = selected(traces@, indices@);
            let test_trace = population[p as int].1@[tests[user] as int];
            if regime == Regime::Test {
                assert(sampled@[test as int].same_as(&chosen[test as int]));
                assert(chosen[test as int] == test_trace);
            }
            lemma_vectors_of_same(
                entry,
                target,
                sampled@,
                chosen,
                regime,
                sampled@[test as int],
                if regime == Regime::Test {
                    test_trace
                } else {
                    sampled@[test as int]
                },
            );
            assert(are_candidate_vectors(entry, target, chosen, regime, test_trace));
        }
        vectors.push(entry);
        proof {
            let prefix = population.take(p + 1);
            assert forall|q: int| 0 <= q < vectors@.len() implies {
                let u = prefix[q].0;
                &&& (#[trigger] vectors@[q]).candidate == u
                &&& are_candidate_vectors(
                    vectors@[q],
                    target,
                    selected(prefix[q].1@, samples[u]@),
                    regime,
                    prefix[q].1@[tests[u] as int],
                )
            } by {
                if q < p {
                    assert(vectors@[q] == before[q]);
                    assert(prefix[q] == population.take(p as int)[q]);
                } else {
                    assert(vectors@[q] == new_entry);
                    assert(prefix[q] == population[p as int]);
                }
            }
            assert(are_attack_vectors(vectors@, target, prefix, samples, tests, regime));
        }
        p = p + 1;
    }
    assert(population.take(population.len() as int) =~= population);
    vectors
}

/// The sum of the entries of a vector.
pub open spec fn sum_of(vector: Seq<nat>) -> nat
    decreases vector.len(),
{
    if vector.len() == 0 {
        0
    } else {
        sum_of(vector.drop_last()) + vector.last()
    }
}

/// The frequency vector of a histogram over its own values holds its
/// counts, and these sum up to its total.
proof fn lemma_own_vector_sum(h: Seq<(Seq<char>, nat)>, n: int)
    requires
        distinct_keys(h),
        0 <= n <= h.len(),
    ensures
        sum_of(freq_vector(h, keys_of(h)).take(n)) == total_of(h.take(n)),
    decreases n,
{
    let vector = freq_vector(h, keys_of(h));
    if n > 0 {
        lemma_own_vector_sum(h, n - 1);
        lemma_position_of(h, h[n - 1].0);
        assert(h[n - 1].0 == keys_of(h)[n - 1]);
        assert(vector[n - 1] == h[n - 1].1);
        assert(vector.take(n).drop_last() =~= vector.take(n - 1));
        assert(h.take(n).drop_last() =~= h.take(n - 1));
    } else {
        assert(vector.take(0) =~= Seq::<nat>::empty());
        assert(h.take(0) =~= Seq::<(Seq<char>, nat)>::empty());
    }
}

/// The values of a histogram are distinct where its entries have distinct
/// values.
proof fn lemma_keys_distinct(h: Seq<(Seq<char>, nat)>)
    requires
        distinct_keys(h),
    ensures
        keys_of(h).no_duplicates(),
{
    assert forall|i: int, j: int|
        0 <= i < keys_of(h).len() && 0 <= j < keys_of(h).len() && i != j implies keys_of(h)[i]
        != keys_of(h)[j] by {
        assert(h[i].0 != h[j].0);
    }
}

/// Vectorizing a trace over the vocabulary of exactly its own values and
/// summing up the vector of a histogram field gives the number of events of
/// the trace.
pub proof fn lemma_own_vocabulary_round_trip(
    trace: FreqTrace,
    records: Seq<Record>,
    field: DataFields,
)
    requires
        trace.summarizes(records),
        field == DataFields::Url || field == DataFields::Domain || field == DataFields::Category,
    ensures
        sum_of(
            field_vector(trace, field, vocabulary_items(trace, Seq::<FreqTrace>::empty(), field)),
        ) == records.len(),
{
    let h = match field {
        DataFields::Url => trace.url@,
        DataFields::Domain => trace.domain@,
        _ => trace.category@,
    };
    lemma_tally_of(urls_of(records));
    lemma_tally_of(domains_of(records));
    lemma_tally_of(categories_of(records));
    assert(distinct_keys(h));
    assert(total_of(h) == records.len());
    let values = field_values(trace, field) + traces_values(Seq::<FreqTrace>::empty(), field);
    assert(values =~= keys_of(h));
    lemma_keys_distinct(h);
    lemma_distinct_in_order_of_distinct(keys_of(h));
    assert(vocabulary_items(trace, Seq::<FreqTrace>::empty(), field) == keys_of(h));
    lemma_own_vector_sum(h, h.len() as int);
    assert(freq_vector(h, keys_of(h)).take(h.len() as int) =~= freq_vector(h, keys_of(h)));
    assert(h.take(h.len() as int) =~= h);
}

/// Building the vocabulary of a comparison twice gives the same values at
/// the same indices: the order of a vocabulary is that of the first
/// occurrence of its values and of nothing else.
pub proof fn lemma_vocabulary_is_reproducible(
    first: IndexSet<String>,
    second: IndexSet<String>,
    target: FreqTrace,
    sampled: Seq<FreqTrace>,
    field: DataFields,
)
    requires
        set_items(first) == vocabulary_items(target, sampled, field),
        set_items(second) == vocabulary_items(target, sampled, field),
    ensures
        set_items(first) == set_items(second),
        set_items(first).no_duplicates(),
{
    lemma_distinct_in_order(field_values(target, field) + traces_values(sampled, field));
}

} // verus!
