//! Scoring of the comparisons of an attack in the alignment-based approach.
//!
//! A target trace and a reference trace are compared field by field. The
//! sequences of codes are aligned, which gives a whole number for each such
//! field; the single values are tested for equality. How the scores of the
//! fields become one score is a matter of real numbers and not of this
//! library.

use crate::cli::{AlignmentScope, AlignmentStrategy, Config, ScoringScheme};
use crate::evaluation::{
    has_trace, plan_is_valid, plan_references, reference_plan, references_exist, trace_of,
    user_position, Reference, Regime,
};
use crate::parse::DataFields;
use crate::sequence::trace::{
    gen_typical_trace, is_typical_trace, lemma_typical_of_same, sampled_traces, selected, SeqTrace,
};
use crate::utils::wins_vote;
use seal::pair::{AlignmentSet, InMemoryAlignmentMatrix, NeedlemanWunsch, SmithWaterman};
use std::collections::HashMap;
use vstd::prelude::*;
use vstd::std_specs::hash::*;

verus! {

/// The global and the local score of the Needleman-Wunsch alignment of two
/// sequences of codes under a scoring scheme.
pub uninterp spec fn needleman_wunsch_scores(
    equal: int,
    align: int,
    insert: int,
    delete: int,
    x: Seq<u32>,
    y: Seq<u32>,
) -> (int, int);

/// The global and the local score of the Smith-Waterman alignment of two
/// sequences of codes under a scoring scheme.
pub uninterp spec fn smith_waterman_scores(
    equal: int,
    align: int,
    insert: int,
    delete: int,
    x: Seq<u32>,
    y: Seq<u32>,
) -> (int, int);

/// A score of the scheme, taken as often as an alignment of `span` steps
/// can take it, is a number of the machine.
pub open spec fn score_fits(score: isize, span: int) -> bool {
    -isize::MAX <= score * span <= isize::MAX
}

/// The alignment of sequences of these lengths under the scheme stays
/// within the numbers of the machine: the matrix of the alignment has no
/// more cells than can be addressed, and no score of the scheme, taken once
/// for each step of the longest alignment, overflows.
pub open spec fn alignment_fits(scheme: ScoringScheme, x_len: int, y_len: int) -> bool {
    &&& (x_len + 1) * (y_len + 1) <= isize::MAX
    &&& score_fits(scheme.equal, x_len + y_len + 2)
    &&& score_fits(scheme.align, x_len + y_len + 2)
    &&& score_fits(scheme.insert, x_len + y_len + 2)
    &&& score_fits(scheme.delete, x_len + y_len + 2)
}

/// Tells whether the scores of the alignment of two sequences of these
/// lengths under the scheme stay within the numbers of the machine.
pub fn can_align(scheme: &ScoringScheme, x_len: usize, y_len: usize) -> (fits: bool)
    ensures
        fits == alignment_fits(*scheme, x_len as int, y_len as int),
{
    if x_len >= isize::MAX as usize || y_len >= isize::MAX as usize {
        assert((x_len + 1) * (y_len + 1) > isize::MAX) by (nonlinear_arith)
            requires
                x_len >= isize::MAX || y_len >= isize::MAX,
                x_len >= 0,
                y_len >= 0,
        ;
        return false;
    }
    assert(isize::MAX <= 0x7fff_ffff_ffff_ffff);
    assert((x_len + 1) * (y_len + 1) <= 0x7fff_ffff_ffff_ffff * 0x7fff_ffff_ffff_ffff)
        by (nonlinear_arith)
        requires
            0 <= x_len < 0x7fff_ffff_ffff_ffff,
            0 <= y_len < 0x7fff_ffff_ffff_ffff,
    ;
    let cells: u128 = (x_len as u128 + 1) * (y_len as u128 + 1);
    let span: i128 = x_len as i128 + y_len as i128 + 2;
    cells <= isize::MAX as u128 && score_within(scheme.equal, span) && score_within(
        scheme.align,
        span,
    ) && score_within(scheme.insert, span) && score_within(scheme.delete, span)
}

/// Tells whether a score, taken `span` times, stays within the numbers of
/// the machine.
fn score_within(score: isize, span: i128) -> (fits: bool)
    requires
        0 <= span <= 2 * isize::MAX,
    ensures
        fits == score_fits(score, span as int),
{
    assert(isize::MAX <= 0x7fff_ffff_ffff_ffff);
    assert(-0x8000_0000_0000_0000 <= score <= 0x7fff_ffff_ffff_ffff);
    assert(-0x8000_0000_0000_0000 * 0xffff_ffff_ffff_fffe <= score * span <= 0x7fff_ffff_ffff_ffff
        * 0xffff_ffff_ffff_fffe) by (nonlinear_arith)
        requires
            -0x8000_0000_0000_0000 <= score <= 0x7fff_ffff_ffff_ffff,
            0 <= span <= 0xffff_ffff_ffff_fffe,
    ;
    let most: i128 = score as i128 * span;
    -(isize::MAX as i128) <= most && most <= isize::MAX as i128
}

/// Tells whether the code at `i` of the one sequence is the code at `j` of
/// the other.
fn codes_equal(x: &Vec<u32>, y: &Vec<u32>, i: usize, j: usize) -> (equal: bool)
    ensures
        equal == (i < x@.len() && j < y@.len() && x@[i as int] == y@[j as int]),
{
    i < x.len() && j < y.len() && x[i] == y[j]
}

/// Calls `seal::pair::NeedlemanWunsch::new`, `seal::pair::AlignmentSet::new`
/// with the in-memory matrix, `global_score` and `local_score`. Trusted: the
/// two scores are a function of the scheme and the two sequences alone.
#[verifier::external_body]
fn needleman_wunsch(scheme: &ScoringScheme, x: &Vec<u32>, y: &Vec<u32>) -> (scores: (isize, isize))
    requires
        alignment_fits(*scheme, x@.len() as int, y@.len() as int),
    ensures
        (scores.0 as int, scores.1 as int) == needleman_wunsch_scores(
            scheme.equal as int,
            scheme.align as int,
            scheme.insert as int,
            scheme.delete as int,
            x@,
            y@,
        ),
{
    let strategy = NeedlemanWunsch::new(scheme.equal, scheme.align, scheme.insert, scheme.delete);
    let set: AlignmentSet<InMemoryAlignmentMatrix> = AlignmentSet::new(
        x.len(),
        y.len(),
        strategy,
        |i, j| codes_equal(x, y, i, j),
    ).unwrap();
    (set.global_score(), set.local_score())
}

/// Calls `seal::pair::SmithWaterman::new`, `seal::pair::AlignmentSet::new`
/// with the in-memory matrix, `global_score` and `local_score`. Trusted: the
/// two scores are a function of the scheme and the two sequences alone.
#[verifier::external_body]
fn smith_waterman(scheme: &ScoringScheme, x: &Vec<u32>, y: &Vec<u32>) -> (scores: (isize, isize))
    requires
        alignment_fits(*scheme, x@.len() as int, y@.len() as int),
    ensures
        (scores.0 as int, scores.1 as int) == smith_waterman_scores(
            scheme.equal as int,
            scheme.align as int,
            scheme.insert as int,
            scheme.delete as int,
            x@,
            y@,
        ),
{
    let strategy = SmithWaterman::new(scheme.equal, scheme.align, scheme.insert, scheme.delete);
    let set: AlignmentSet<InMemoryAlignmentMatrix> = AlignmentSet::new(
        x.len(),
        y.len(),
        strategy,
        |i, j| codes_equal(x, y, i, j),
    ).unwrap();
    (set.global_score(), set.local_score())
}

/// The score of the alignment of two sequences: that of the strategy, and
/// of its two scores the one that the scope names.
pub open spec fn alignment_score(
    strategy: AlignmentStrategy,
    scope: AlignmentScope,
    scheme: ScoringScheme,
    x: Seq<u32>,
    y: Seq<u32>,
) -> int {
    let scores = match strategy {
        AlignmentStrategy::NeedlemanWunsch => needleman_wunsch_scores(
            scheme.equal as int,
            scheme.align as int,
            scheme.insert as int,
            scheme.delete as int,
            x,
            y,
        ),
        AlignmentStrategy::SmithWaterman => smith_waterman_scores(
            scheme.equal as int,
            scheme.align as int,
            scheme.insert as int,
            scheme.delete as int,
            x,
            y,
        ),
    };
    match scope {
        AlignmentScope::Global => scores.0,
        AlignmentScope::Local => scores.1,
    }
}

/// Picks from the two scores of an alignment the one that the scope names.
pub fn score_in_scope(scope: AlignmentScope, scores: (isize, isize)) -> (score: isize)
    ensures
        score == match scope {
            AlignmentScope::Global => scores.0,
            AlignmentScope::Local => scores.1,
        },
{
    match scope {
        AlignmentScope::Global => scores.0,
        AlignmentScope::Local => scores.1,
    }
}

/// Aligns the two sequences and returns the score of the alignment.
pub fn compute_sequence_alignment(
    strategy: AlignmentStrategy,
    scope: AlignmentScope,
    scoring_matrix: &ScoringScheme,
    target_trace: &Vec<u32>,
    ref_trace: &Vec<u32>,
) -> (score: isize)
    requires
        alignment_fits(*scoring_matrix, target_trace@.len() as int, ref_trace@.len() as int),
    ensures
        score == alignment_score(strategy, scope, *scoring_matrix, target_trace@, ref_trace@),
{
    let scores = match strategy {
        AlignmentStrategy::NeedlemanWunsch => needleman_wunsch(
            scoring_matrix,
            target_trace,
            ref_trace,
        ),
        AlignmentStrategy::SmithWaterman => smith_waterman(scoring_matrix, target_trace, ref_trace),
    };
    score_in_scope(scope, scores)
}

/// Tells whether two single values of a field are the same.
pub fn compute_similarity_score(target_trace_val: u32, ref_trace_val: u32) -> (same: bool)
    ensures
        same == (target_trace_val == ref_trace_val),
{
    target_trace_val == ref_trace_val
}

/// The scores of the fields of one comparison: an equality for each field
/// with a single value, an alignment score for each field with a sequence,
/// each list in the order of the fields.
#[derive(Debug)]
pub struct FieldScores {
    pub equality: Vec<bool>,
    pub alignment: Vec<isize>,
}

/// The field holds a sequence of codes.
pub open spec fn is_sequence_field(field: DataFields) -> bool {
    field == DataFields::Url || field == DataFields::Domain || field == DataFields::Category
        || field == DataFields::Hour
}

/// The field holds a single value.
pub open spec fn is_single_field(field: DataFields) -> bool {
    field == DataFields::Day || field == DataFields::Gender || field == DataFields::Age
}

/// The sequence of a field of a trace.
pub open spec fn field_codes(trace: SeqTrace, field: DataFields) -> Seq<u32> {
    match field {
        DataFields::Url => trace.url@,
        DataFields::Domain => trace.domain@,
        DataFields::Category => trace.category@,
        DataFields::Hour => trace.hour@,
        _ => Seq::empty(),
    }
}

/// Whether two traces have the same single value of a field.
pub open spec fn field_equal(target: SeqTrace, reference: SeqTrace, field: DataFields) -> bool {
    match field {
        DataFields::Day => target.day == reference.day,
        DataFields::Gender => target.gender@ == reference.gender@,
        DataFields::Age => target.age@ == reference.age@,
        _ => false,
    }
}

/// The alignment scores of the sequence fields among `fields`, in order.
pub open spec fn alignment_scores_of(
    fields: Seq<DataFields>,
    strategy: AlignmentStrategy,
    scope: AlignmentScope,
    scheme: ScoringScheme,
    target: SeqTrace,
    reference: SeqTrace,
) -> Seq<int>
    decreases fields.len(),
{
    if fields.len() == 0 {
        Seq::empty()
    } else {
        let before = alignment_scores_of(
            fields.drop_last(),
            strategy,
            scope,
            scheme,
            target,
            reference,
        );
        if is_sequence_field(fields.last()) {
            before.push(
                alignment_score(
                    strategy,
                    scope,
                    scheme,
                    field_codes(target, fields.last()),
                    field_codes(reference, fields.last()),
                ),
            )
        } else {
            before
        }
    }
}

/// The equalities of the single fields among `fields`, in order.
pub open spec fn equality_scores_of(
    fields: Seq<DataFields>,
    target: SeqTrace,
    reference: SeqTrace,
) -> Seq<bool>
    decreases fields.len(),
{
    if fields.len() == 0 {
        Seq::empty()
    } else {
        let before = equality_scores_of(fields.drop_last(), target, reference);
        if is_single_field(fields.last()) {
            before.push(field_equal(target, reference, fields.last()))
        } else {
            before
        }
    }
}

/// The scores are those of the comparison of the two traces.
pub open spec fn are_field_scores(
    scores: FieldScores,
    fields: Seq<DataFields>,
    strategy: AlignmentStrategy,
    scope: AlignmentScope,
    scheme: ScoringScheme,
    target: SeqTrace,
    reference: SeqTrace,
) -> bool {
    &&& scores.equality@ == equality_scores_of(fields, target, reference)
    &&& scores.alignment@.map_values(|s: isize| s as int) == alignment_scores_of(
        fields,
        strategy,
        scope,
        scheme,
        target,
        reference,
    )
}

/// Every field is one by which traces of this approach can be compared.
pub open spec fn comparable_fields(fields: Seq<DataFields>) -> bool {
    forall|k: int| 0 <= k < fields.len() ==> (#[trigger] fields[k]) != DataFields::ActiveSeconds
}

/// Computes the scores of the fields of the comparison of a target trace
/// with a reference trace.
pub fn compute_alignment_scores(
    fields: &Vec<DataFields>,
    strategy: AlignmentStrategy,
    scope: AlignmentScope,
    scoring_matrix: &ScoringScheme,
    target_trace: &SeqTrace,
    ref_trace: &SeqTrace,
) -> (scores: FieldScores)
    requires
        comparable_fields(fields@),
        target_trace.wf(),
        ref_trace.wf(),
        alignment_fits(*scoring_matrix, target_trace.url@.len() as int, ref_trace.url@.len() as int),
    ensures
        are_field_scores(
            scores,
            fields@,
            strategy,
            scope,
            *scoring_matrix,
            *target_trace,
            *ref_trace,
        ),
{
    let mut equality: Vec<bool> = Vec::new();
    let mut alignment: Vec<isize> = Vec::new();
    let mut k: usize = 0;
    assert(fields@.take(0) =~= Seq::<DataFields>::empty());
    while k < fields.len()
        invariant
            k <= fields@.len(),
            comparable_fields(fields@),
            target_trace.wf(),
            ref_trace.wf(),
            alignment_fits(
                *scoring_matrix,
                target_trace.url@.len() as int,
                ref_trace.url@.len() as int,
            ),
            equality@ == equality_scores_of(fields@.take(k as int), *target_trace, *ref_trace),
            alignment@.map_values(|s: isize| s as int) == alignment_scores_of(
                fields@.take(k as int),
                strategy,
                scope,
                *scoring_matrix,
                *target_trace,
                *ref_trace,
            ),
        decreases fields@.len() - k,
    {
        let field = fields[k];
        let ghost aligned = alignment@.map_values(|s: isize| s as int);
        proof {
            assert(fields@.take(k + 1).drop_last() =~= fields@.take(k as int));
            assert(fields@.take(k + 1).last() == field);
        }
        match field {
            DataFields::Url => {
                let score = compute_sequence_alignment(
                    strategy,
                    scope,
                    scoring_matrix,
                    &target_trace.url,
                    &ref_trace.url,
                );
                alignment.push(score);
                assert(alignment@.map_values(|s: isize| s as int) =~= aligned.push(score as int));
            },
            DataFields::Category => {
                let score = compute_sequence_alignment(
                    strategy,
                    scope,
                    scoring_matrix,
                    &target_trace.category,
                    &ref_trace.category,
                );
                alignment.push(score);
                assert(alignment@.map_values(|s: isize| s as int) =~= aligned.push(score as int));
            },
            DataFields::Domain => {
                let score = compute_sequence_alignment(
                    strategy,
                    scope,
                    scoring_matrix,
                    &target_trace.domain,
                    &ref_trace.domain,
                );
                alignment.push(score);
                assert(alignment@.map_values(|s: isize| s as int) =~= aligned.push(score as int));
            },
            DataFields::Hour => {
                let score = compute_sequence_alignment(
                    strategy,
                    scope,
                    scoring_matrix,
                    &target_trace.hour,
                    &ref_trace.hour,
                );
                alignment.push(score);
                assert(alignment@.map_values(|s: isize| s as int) =~= aligned.push(score as int));
            },
            DataFields::Day => {
                equality.push(compute_similarity_score(target_trace.day, ref_trace.day));
            },
            DataFields::Gender => {
                equality.push(target_trace.gender == ref_trace.gender);
            },
            DataFields::Age => {
                equality.push(target_trace.age == ref_trace.age);
            },
            DataFields::ActiveSeconds => {
                assert(false);
            },
        }
        k = k + 1;
    }
    assert(fields@.take(fields@.len() as int) =~= fields@);
    FieldScores { equality, alignment }
}

/// Every trace of the population has one code of each field for each
/// event, and can be aligned with a trace as long as the target.
pub open spec fn population_fits(
    population: Seq<(u32, Vec<SeqTrace>)>,
    scheme: ScoringScheme,
    target_len: int,
) -> bool {
    forall|p: int, i: int|
        0 <= p < population.len() && 0 <= i < population[p].1@.len() ==> {
            &&& (#[trigger] population[p].1@[i]).wf()
            &&& alignment_fits(scheme, target_len, population[p].1@[i].url@.len() as int)
        }
}

/// The entries are the scores of the comparisons of the plan, in its order,
/// each under the number of its candidate.
pub open spec fn is_sequence_scoring(
    scored: Seq<(u32, FieldScores)>,
    plan: Seq<(usize, Reference)>,
    config: Config,
    target: SeqTrace,
    population: Seq<(u32, Vec<SeqTrace>)>,
    samples: Map<u32, Vec<usize>>,
) -> bool {
    &&& scored.len() == plan.len()
    &&& forall|k: int|
        0 <= k < scored.len() ==> {
            let candidate = population[plan[k].0 as int];
            &&& (#[trigger] scored[k]).0 == candidate.0
            &&& match plan[k].1 {
                Reference::Trace(i) => are_field_scores(
                    scored[k].1,
                    config.fields@,
                    config.strategy,
                    config.scope,
                    config.scoring_matrix,
                    target,
                    candidate.1@[i as int],
                ),
                Reference::Typical => exists|typical: SeqTrace|
                    {
                        &&& is_typical_trace(
                            typical,
                            selected(candidate.1@, samples[candidate.0]@),
                        )
                        &&& #[trigger] are_field_scores(
                            scored[k].1,
                            config.fields@,
                            config.strategy,
                            config.scope,
                            config.scoring_matrix,
                            target,
                            typical,
                        )
                    },
            }
        }
}

/// Scores the comparisons of one attack: the target trace of the victim
/// against the references of every candidate, in the order of the plan.
pub fn eval_step(
    config: &Config,
    regime: Regime,
    user_target: u32,
    target_idx: usize,
    user_to_seq_map: &Vec<(u32, Vec<SeqTrace>)>,
    user_to_sample_idx_map: &HashMap<u32, Vec<usize>>,
    user_to_test_idx_map: &HashMap<u32, usize>,
) -> (scored: Vec<(u32, FieldScores)>)
    requires
        comparable_fields(config.fields@),
        references_exist(
            user_to_seq_map@,
            user_to_sample_idx_map@,
            user_to_test_idx_map@,
            regime,
        ),
        regime == Regime::Typical ==> forall|p: int|
            0 <= p < user_to_seq_map@.len() ==> user_to_sample_idx_map@[(
            #[trigger] user_to_seq_map@[p]).0]@.len() > 0,
        has_trace(user_to_seq_map@, user_target, target_idx as int),
        population_fits(
            user_to_seq_map@,
            config.scoring_matrix,
            trace_of(user_to_seq_map@, user_target, target_idx as int).url@.len() as int,
        ),
    ensures
        is_sequence_scoring(
            scored@,
            reference_plan(
                user_to_seq_map@,
                user_to_sample_idx_map@,
                user_to_test_idx_map@,
                regime,
                user_to_seq_map@.len() as int,
            ),
            *config,
            trace_of(user_to_seq_map@, user_target, target_idx as int),
            user_to_seq_map@,
            user_to_sample_idx_map@,
        ),
{
    broadcast use group_hash_axioms;

    let ghost population = user_to_seq_map@;
    let ghost samples = user_to_sample_idx_map@;
    let victim = match user_position(user_to_seq_map, user_target) {
        Some(v) => v,
        None => {
            assert(false);
            0
        },
    };
    let target_trace = &user_to_seq_map[victim].1[target_idx];
    let ghost target = *target_trace;
    let plan = plan_references(
        user_to_seq_map,
        user_to_sample_idx_map,
        user_to_test_idx_map,
        regime,
    );
    let mut scored: Vec<(u32, FieldScores)> = Vec::new();
    let mut k: usize = 0;
    assert(population_fits(population, config.scoring_matrix, target.url@.len() as int));
    assert(target.wf()) by {
        assert(population[victim as int].1@[target_idx as int].wf());
    }
    while k < plan.len()
        invariant
            k <= plan@.len(),
            population == user_to_seq_map@,
            samples == user_to_sample_idx_map@,
            comparable_fields(config.fields@),
            target.wf(),
            target == *target_trace,
            plan_is_valid(plan@, population),
            plan@ == reference_plan(
                population,
                samples,
                user_to_test_idx_map@,
                regime,
                population.len() as int,
            ),
            references_exist(population, samples, user_to_test_idx_map@, regime),
            regime == Regime::Typical ==> forall|p: int|
                0 <= p < population.len() ==> samples[(#[trigger] population[p]).0]@.len() > 0,
            population_fits(population, config.scoring_matrix, target.url@.len() as int),
            is_sequence_scoring(scored@, plan@.take(k as int), *config, target, population, samples),
        decreases plan@.len() - k,
    {
        let (p, reference) = plan[k];
        let candidate = &user_to_seq_map[p];
        let ghost before = scored@;
        let ghost mut witness = target;
        let scores = match reference {
            Reference::Trace(i) => {
                assert(candidate.1@[i as int].wf());
                compute_alignment_scores(
                    &config.fields,
                    config.strategy,
                    config.scope,
                    &config.scoring_matrix,
                    target_trace,
                    &candidate.1[i],
                )
            },
            Reference::Typical => {
                proof {
                    lemma_typical_in_plan(
                        population,
                        samples,
                        user_to_test_idx_map@,
                        regime,
                        k as int,
                    );
                }
                let indices = match user_to_sample_idx_map.get(&candidate.0) {
                    Some(list) => list,
                    None => {
                        assert(false);
                        return scored;
                    },
                };
                let sampled = sampled_traces(&candidate.1, indices);
                proof {
                    assert forall|j: int| 0 <= j < sampled@.len() implies (
                    #[trigger] sampled@[j]).wf() by {
                        assert(sampled@[j].same_as(&selected(candidate.1@, indices@)[j]));
                        assert(candidate.1@[indices@[j] as int].wf());
                    }
                }
                let typical = gen_typical_trace(&sampled);
                proof {
                    lemma_typical_of_same(typical, sampled@, selected(candidate.1@, indices@));
                    let lengths = sampled@.map_values(|t: SeqTrace| t.url.len());
                    let b = choose|b: int| wins_vote(lengths, b) && lengths[b] == typical.url.len();
                    assert(sampled@[b].same_as(&selected(candidate.1@, indices@)[b]));
                    assert(candidate.1@[indices@[b] as int].url@.len() == typical.url@.len());
                    assert(candidate.1@[indices@[b] as int].wf());
                }
                let scores = compute_alignment_scores(
                    &config.fields,
                    config.strategy,
                    config.scope,
                    &config.scoring_matrix,
                    target_trace,
                    &typical,
                );
                proof {
                    witness = typical;
                }
                scores
            },
        };
        let ghost new_scores = scores;
        scored.push((candidate.0, scores));
        proof {
            let prefix = plan@.take(k + 1);
            assert forall|j: int| 0 <= j < scored@.len() implies {
                let c = population[prefix[j].0 as int];
                &&& (#[trigger] scored@[j]).0 == c.0
                &&& match prefix[j].1 {
                    Reference::Trace(i) => are_field_scores(
                        scored@[j].1,
                        config.fields@,
                        config.strategy,
                        config.scope,
                        config.scoring_matrix,
                        target,
                        c.1@[i as int],
                    ),
                    Reference::Typical => exists|typical: SeqTrace|
                        {
                            &&& is_typical_trace(typical, selected(c.1@, samples[c.0]@))
                            &&& #[trigger] are_field_scores(
                                scored@[j].1,
                                config.fields@,
                                config.strategy,
                                config.scope,
                                config.scoring_matrix,
                                target,
                                typical,
                            )
                        },
                }
            } by {
                if j < k {
                    assert(scored@[j] == before[j]);
                    assert(prefix[j] == plan@.take(k as int)[j]);
                } else {
                    assert(scored@[j].1 == new_scores);
                    assert(prefix[j] == plan@[k as int]);
                    let c = population[prefix[j].0 as int];
                    match prefix[j].1 {
                        Reference::Trace(i) => {},
                        Reference::Typical => {
                            assert(is_typical_trace(witness, selected(c.1@, samples[c.0]@)));
                            assert(are_field_scores(
                                scored@[j].1,
                                config.fields@,
                                config.strategy,
                                config.scope,
                                config.scoring_matrix,
                                target,
                                witness,
                            ));
                        },
                    }
                }
            }
            assert(scored@.len() == prefix.len());
            assert(is_sequence_scoring(scored@, prefix, *config, target, population, samples));
        }
        k = k + 1;
    }
    assert(plan@.take(plan@.len() as int) =~= plan@);
    scored
}

/// A plan holds a typical trace only in the regime of typical traces.
proof fn lemma_typical_in_plan<T>(
    population: Seq<(u32, Vec<T>)>,
    samples: Map<u32, Vec<usize>>,
    tests: Map<u32, usize>,
    regime: Regime,
    k: int,
)
    requires
        0 <= k < reference_plan(population, samples, tests, regime, population.len() as int).len(),
        reference_plan(population, samples, tests, regime, population.len() as int)[k].1
            == Reference::Typical,
    ensures
        regime == Regime::Typical,
{
    lemma_typical_in_prefix(population, samples, tests, regime, population.len() as int, k);
}

proof fn lemma_typical_in_prefix<T>(
    population: Seq<(u32, Vec<T>)>,
    samples: Map<u32, Vec<usize>>,
    tests: Map<u32, usize>,
    regime: Regime,
    n: int,
    k: int,
)
    requires
        0 <= k < reference_plan(population, samples, tests, regime, n).len(),
        reference_plan(population, samples, tests, regime, n)[k].1 == Reference::Typical,
    ensures
        regime == Regime::Typical,
    decreases n,
{
    if n > 0 {
        let before = reference_plan(population, samples, tests, regime, n - 1);
        if k < before.len() {
            lemma_typical_in_prefix(population, samples, tests, regime, n - 1, k);
        }
    }
}

} // verus!
