use browsing_linkage::cli::{
    AlignmentScope, AlignmentStrategy, Approach, Config, ScoringScheme,
};
use browsing_linkage::evaluation::regime_of;
use browsing_linkage::frequency::metrics::DistanceMetric;
use browsing_linkage::parse::DataFields;
use browsing_linkage::sequence::evaluation::{
    can_align, compute_alignment_scores, compute_sequence_alignment, compute_similarity_score,
    eval_step, score_in_scope,
};
use browsing_linkage::sequence::trace::{
    gen_typical_trace, most_frequent_string_position, sampled_traces, SeqTrace,
};
use std::collections::HashMap;

const NW: AlignmentStrategy = AlignmentStrategy::NeedlemanWunsch;
const SW: AlignmentStrategy = AlignmentStrategy::SmithWaterman;
const GLOBAL: AlignmentScope = AlignmentScope::Global;
const LOCAL: AlignmentScope = AlignmentScope::Local;

fn scheme() -> ScoringScheme {
    ScoringScheme { equal: 1, align: -1, insert: -1, delete: -1 }
}

fn trace(codes: &[u32], day: u32, age: &str, gender: &str) -> SeqTrace {
    SeqTrace {
        url: codes.to_vec(),
        domain: codes.iter().map(|code| code / 2).collect(),
        category: codes.iter().map(|code| code % 2).collect(),
        hour: codes.iter().map(|code| (code + 8) % 24).collect(),
        day,
        start_time: 0,
        end_time: 10,
        age: age.to_string(),
        gender: gender.to_string(),
    }
}

fn config(fields: Vec<DataFields>, typical: bool, multiple: bool) -> Config {
    Config {
        delay_limit: 1800,
        fields,
        max_trace_len: 500,
        min_trace_len: 1,
        max_trace_duration: 86_400,
        max_rate: None,
        min_num_traces: 1,
        user_sample_size: 10,
        trace_sample_size: 0,
        target_trace_sample_size: 1,
        metric: DistanceMetric::Euclidean,
        path: String::new(),
        path_to_map: String::new(),
        seed: 0,
        typical,
        dependent: false,
        multiple,
        strategy: NW,
        scoring_matrix: scheme(),
        approach: Approach::Sequence,
        scope: GLOBAL,
    }
}

#[test]
fn equal_sequences_align_with_one_point_for_each_item() {
    let x = vec![1, 2, 3];
    assert_eq!(compute_sequence_alignment(NW, GLOBAL, &scheme(), &x, &x), 3);
    assert_eq!(compute_sequence_alignment(NW, LOCAL, &scheme(), &x, &x), 3);
    assert_eq!(compute_sequence_alignment(SW, GLOBAL, &scheme(), &x, &x), 3);
    assert_eq!(compute_sequence_alignment(SW, LOCAL, &scheme(), &x, &x), 3);
}

#[test]
fn unequal_sequences_align_badly() {
    let x = vec![1, 2, 3];
    let y = vec![4, 5, 6];
    assert_eq!(compute_sequence_alignment(NW, GLOBAL, &scheme(), &x, &y), -3);
    assert_eq!(compute_sequence_alignment(NW, LOCAL, &scheme(), &x, &y), 0);
    assert_eq!(compute_sequence_alignment(SW, GLOBAL, &scheme(), &x, &y), 0);
    assert_eq!(compute_sequence_alignment(SW, LOCAL, &scheme(), &x, &y), 0);
}

#[test]
fn a_common_beginning_counts_locally() {
    let x = vec![1, 2, 3];
    let y = vec![1, 2, 4];
    assert_eq!(compute_sequence_alignment(NW, GLOBAL, &scheme(), &x, &y), 1);
    assert_eq!(compute_sequence_alignment(SW, GLOBAL, &scheme(), &x, &y), 1);
    assert_eq!(compute_sequence_alignment(SW, LOCAL, &scheme(), &x, &y), 2);
    assert_eq!(compute_sequence_alignment(NW, LOCAL, &scheme(), &x, &y), 2);
}

#[test]
fn the_scheme_weighs_the_alignment() {
    let x = vec![7, 7, 7, 7];
    let heavy = ScoringScheme { equal: 5, align: -2, insert: -3, delete: -4 };
    assert_eq!(compute_sequence_alignment(NW, GLOBAL, &heavy, &x, &x), 20);
    let y = vec![7, 7, 7, 8];
    assert_eq!(compute_sequence_alignment(NW, GLOBAL, &heavy, &x, &y), 13);
}

#[test]
fn an_empty_sequence_aligns_with_score_zero() {
    let x: Vec<u32> = Vec::new();
    let y = vec![1, 2];
    assert_eq!(compute_sequence_alignment(NW, GLOBAL, &scheme(), &x, &y), 0);
    assert_eq!(compute_sequence_alignment(SW, LOCAL, &scheme(), &y, &x), 0);
}

#[test]
fn scope_picks_one_of_two_scores() {
    assert_eq!(score_in_scope(GLOBAL, (4, 9)), 4);
    assert_eq!(score_in_scope(LOCAL, (4, 9)), 9);
}

#[test]
fn single_values_are_the_same_or_not() {
    assert!(compute_similarity_score(3, 3));
    assert!(!compute_similarity_score(3, 4));
}

#[test]
fn field_scores_come_in_the_order_of_the_fields() {
    let target = trace(&[1, 2, 3], 2, "young", "f");
    let reference = trace(&[1, 2, 5], 2, "old", "f");
    let fields = vec![
        DataFields::Age,
        DataFields::Url,
        DataFields::Day,
        DataFields::Category,
        DataFields::Gender,
        DataFields::Domain,
        DataFields::Hour,
    ];
    let scores = compute_alignment_scores(&fields, NW, GLOBAL, &scheme(), &target, &reference);
    assert_eq!(scores.equality, vec![false, true, true]);
    // URLs 1 2 3 against 1 2 5; categories 1 0 1 against 1 0 1; domains 0 1 1
    // against 0 1 2; hours 9 10 11 against 9 10 13.
    assert_eq!(scores.alignment, vec![1, 3, 1, 1]);
    let none = compute_alignment_scores(&Vec::new(), NW, GLOBAL, &scheme(), &target, &reference);
    assert!(none.equality.is_empty() && none.alignment.is_empty());
}

#[test]
fn typical_trace_is_voted_place_by_place() {
    let traces = vec![
        trace(&[1, 2, 3], 4, "a", "f"),
        trace(&[1, 5], 4, "b", "m"),
        trace(&[9, 2, 3], 1, "b", "m"),
        trace(&[9, 5, 7], 2, "a", "m"),
    ];
    let typical = gen_typical_trace(&traces);
    // Three of four traces have three events. At the first place 1 and 9
    // occur twice each and 1 occurs first; so do 2 and 5 at the second.
    assert_eq!(typical.url, vec![1, 2, 3]);
    assert_eq!(typical.domain, vec![0, 1, 1]);
    assert_eq!(typical.category, vec![1, 0, 1]);
    assert_eq!(typical.hour, vec![9, 10, 11]);
    assert_eq!(typical.day, 4);
    assert_eq!(typical.age, "a");
    assert_eq!(typical.gender, "m");
    assert_eq!((typical.start_time, typical.end_time), (0, 0));
}

#[test]
fn typical_trace_of_one_trace_is_that_trace() {
    let only = trace(&[4, 4, 6], 6, "x", "y");
    let typical = gen_typical_trace(&vec![only.clone()]);
    assert_eq!(typical.url, only.url);
    assert_eq!(typical.hour, only.hour);
    assert_eq!(typical.day, 6);
    assert_eq!(typical.age, "x");
}

#[test]
fn most_frequent_string_of_a_tie_is_the_first() {
    let values: Vec<String> = ["b", "a", "a", "b", "c"].iter().map(|s| s.to_string()).collect();
    assert_eq!(most_frequent_string_position(&values), 0);
    let others: Vec<String> = ["c", "a", "a"].iter().map(|s| s.to_string()).collect();
    assert_eq!(most_frequent_string_position(&others), 1);
}

#[test]
fn sampled_traces_are_copies_in_the_order_of_the_indices() {
    let traces = vec![trace(&[1], 0, "a", "f"), trace(&[2], 1, "b", "f"), trace(&[3], 2, "c", "f")];
    let sampled = sampled_traces(&traces, &vec![2, 0]);
    assert_eq!(sampled.len(), 2);
    assert_eq!(sampled[0].url, vec![3]);
    assert_eq!(sampled[0].age, "c");
    assert_eq!(sampled[1].url, vec![1]);
}

fn population() -> Vec<(u32, Vec<SeqTrace>)> {
    vec![
        (
            3,
            vec![
                trace(&[1, 2, 3], 0, "a", "f"),
                trace(&[1, 2, 4], 0, "a", "f"),
                trace(&[1, 2, 3], 0, "a", "f"),
            ],
        ),
        (
            8,
            vec![
                trace(&[7, 8], 5, "b", "m"),
                trace(&[7, 8, 9], 5, "b", "m"),
                trace(&[7, 7], 5, "b", "m"),
            ],
        ),
    ]
}

fn maps() -> (HashMap<u32, Vec<usize>>, HashMap<u32, usize>) {
    let mut samples = HashMap::new();
    samples.insert(3, vec![0, 1]);
    samples.insert(8, vec![1, 0]);
    let mut tests = HashMap::new();
    tests.insert(3, 1);
    tests.insert(8, 0);
    (samples, tests)
}

#[test]
fn attack_scores_each_observed_trace() {
    let (samples, tests) = maps();
    let run = config(vec![DataFields::Url, DataFields::Gender], false, false);
    let scored = eval_step(&run, regime_of(run.typical, run.multiple), 3, 2, &population(), &samples, &tests);
    let candidates: Vec<u32> = scored.iter().map(|entry| entry.0).collect();
    assert_eq!(candidates, vec![3, 3, 8, 8]);
    let alignments: Vec<isize> = scored.iter().map(|entry| entry.1.alignment[0]).collect();
    // 1 2 3 against 1 2 3, 1 2 4, 7 8 9 and 7 8.
    assert_eq!(alignments, vec![3, 1, -3, -3]);
    let equalities: Vec<bool> = scored.iter().map(|entry| entry.1.equality[0]).collect();
    assert_eq!(equalities, vec![true, true, false, false]);
}

#[test]
fn attack_scores_the_typical_trace() {
    let (samples, tests) = maps();
    let run = config(vec![DataFields::Url], true, false);
    let scored = eval_step(&run, regime_of(run.typical, run.multiple), 3, 2, &population(), &samples, &tests);
    assert_eq!(scored.len(), 2);
    assert_eq!(scored[0].0, 3);
    assert_eq!(scored[1].0, 8);
    // The typical trace of the first user is 1 2 3: the lengths tie at 3, the
    // last item ties between 3 and 4, and 3 is first. That of the second is
    // 7 8 9, the first of its samples.
    assert_eq!(scored[0].1.alignment, vec![3]);
    assert_eq!(scored[1].1.alignment, vec![-3]);
}

#[test]
fn attack_scores_the_test_trace() {
    let (samples, tests) = maps();
    let run = config(vec![DataFields::Url], false, true);
    let scored = eval_step(&run, regime_of(run.typical, run.multiple), 3, 2, &population(), &samples, &tests);
    assert_eq!(scored.len(), 2);
    assert_eq!(scored[0].1.alignment, vec![1]);
    assert_eq!(scored[1].1.alignment, vec![-3]);
    let both = config(vec![DataFields::Url], true, true);
    assert_eq!(eval_step(&both, regime_of(true, true), 3, 2, &population(), &samples, &tests).len(), 2);
}

#[test]
fn alignment_fits_the_machine_or_not() {
    assert!(can_align(&scheme(), 0, 0));
    assert!(can_align(&scheme(), 1000, 1000));
    // The matrix of the alignment has too many cells.
    assert!(!can_align(&scheme(), usize::MAX, 0));
    let none = ScoringScheme { equal: 0, align: 0, insert: 0, delete: 0 };
    assert!(!can_align(&none, isize::MAX as usize, 0));
    assert!(can_align(&none, isize::MAX as usize - 1, 0));
    assert!(!can_align(&scheme(), isize::MAX as usize - 1, 0));
    assert!(!can_align(&scheme(), 1 << 32, 1 << 32));
    // A score of the scheme overflows when it is taken for each step.
    let heavy = ScoringScheme { equal: isize::MAX, align: 0, insert: 0, delete: 0 };
    assert!(!can_align(&heavy, 0, 0));
    let light = ScoringScheme { equal: isize::MAX / 2, align: 0, insert: 0, delete: 0 };
    assert!(can_align(&light, 0, 0));
    assert!(!can_align(&light, 1, 0));
    let low = ScoringScheme { equal: 1, align: -1, insert: -1, delete: isize::MIN };
    assert!(!can_align(&low, 0, 0));
    let lowest = ScoringScheme { equal: 1, align: -1, insert: -1, delete: -(isize::MAX / 2) };
    assert!(can_align(&lowest, 0, 0));
    assert!(!can_align(&lowest, 0, 1));
}
