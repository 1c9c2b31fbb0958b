use browsing_linkage::cli::{
    AlignmentScope, AlignmentStrategy, Approach, Config, ScoringScheme,
};
use browsing_linkage::evaluation::{eval_step_dependent, regime_of, tally, top_three};
use browsing_linkage::frequency::evaluation::{eval_step, field_of};
use browsing_linkage::frequency::metrics::DistanceMetric;
use browsing_linkage::parse::{parse_to_frequency, parse_to_sequence, DataFields, Record};
use browsing_linkage::ranking::{rank_and_classify, ScoreOrder};
use browsing_linkage::sample::{
    gen_user_to_sample_idx_map, gen_user_to_target_idx_map, gen_user_to_test_idx_map,
};
use browsing_linkage::utils::flatten;
use rand::rngs::StdRng;
use rand::SeedableRng;

fn config(seed: u64) -> Config {
    Config {
        delay_limit: 60,
        fields: vec![DataFields::Category],
        max_trace_len: 10,
        min_trace_len: 2,
        max_trace_duration: 3600,
        max_rate: None,
        min_num_traces: 4,
        user_sample_size: 3,
        trace_sample_size: 0,
        target_trace_sample_size: 1,
        metric: DistanceMetric::Euclidean,
        path: String::new(),
        path_to_map: String::new(),
        seed,
        typical: false,
        dependent: false,
        multiple: false,
        strategy: AlignmentStrategy::NeedlemanWunsch,
        scoring_matrix: ScoringScheme { equal: 1, align: -1, insert: -1, delete: -1 },
        approach: Approach::Frequency,
        scope: AlignmentScope::Global,
    }
}

/// Three users with four traces of three events each. Every user has
/// categories of its own.
fn stream() -> Vec<Record> {
    let mut records = Vec::new();
    for user in 0..3u64 {
        for trace in 0..4u64 {
            for event in 0..3u64 {
                records.push(Record {
                    user_id: format!("user-{}", user),
                    timestamp: 10_000 * user + 1_000 * trace + 10 * event,
                    url: format!("url-{}-{}", user, event),
                    category: format!("category-{}-{}", user, (trace + event) % 2),
                    active_seconds: 5,
                    domain: format!("domain-{}", user),
                    gender: "f".to_string(),
                    age: "18-24".to_string(),
                });
            }
        }
    }
    records
}

fn euclidean(target: &Vec<u32>, reference: &Vec<u32>) -> f64 {
    let unit = |v: &Vec<u32>| -> Vec<f64> {
        let norm = v.iter().map(|x| (*x as f64) * (*x as f64)).sum::<f64>().sqrt();
        v.iter().map(|x| if norm > 0.0 { *x as f64 / norm } else { *x as f64 }).collect()
    };
    let a = unit(target);
    let b = unit(reference);
    a.iter().zip(b.iter()).map(|(x, y)| (x - y) * (x - y)).sum::<f64>().sqrt()
}

/// A whole number that orders as the distance does.
fn key_of(distance: f64) -> u64 {
    let bits = distance.to_bits();
    if bits >> 63 == 1 {
        !bits
    } else {
        bits | (1 << 63)
    }
}

fn run(seed: u64) -> Vec<(u32, (bool, bool, bool))> {
    let config = config(seed);
    let population = parse_to_frequency(&stream(), &config);
    let mut rng = StdRng::seed_from_u64(config.seed);
    let targets = gen_user_to_target_idx_map(
        &population,
        &mut rng,
        config.user_sample_size,
        config.target_trace_sample_size,
    );
    let samples = gen_user_to_sample_idx_map(&population, &mut rng, config.trace_sample_size);
    let tests = gen_user_to_test_idx_map(&population, &samples, &mut rng);
    let mut results = Vec::new();
    for (victim, _) in population.iter() {
        let Some(target_indices) = targets.get(victim) else {
            continue;
        };
        for target_idx in target_indices {
            let regime = regime_of(config.typical, config.multiple);
            let vectors = eval_step(regime, *victim, *target_idx, &population, &samples, &tests);
            let mut scored: Vec<(u32, u64)> = Vec::new();
            for candidate in vectors.iter() {
                for reference in candidate.references.iter() {
                    let mut total = 0.0;
                    for field in config.fields.iter() {
                        let a = field_of(&candidate.target, *field).unwrap();
                        let b = field_of(reference, *field).unwrap();
                        total += euclidean(a, b);
                    }
                    let distance = total / config.fields.len() as f64;
                    scored.push((candidate.candidate, key_of(distance)));
                }
            }
            let outcome =
                rank_and_classify(*victim, &scored, ScoreOrder::Ascending, population.len());
            results.push((*victim, outcome));
        }
    }
    results
}

#[test]
fn keys_order_as_distances_do() {
    let distances = [0.0, 1e-9, 0.5, 1.0, 1.4142, 2.0, f64::INFINITY];
    for pair in distances.windows(2) {
        assert!(key_of(pair[0]) < key_of(pair[1]));
    }
    assert!(key_of(-1.0) < key_of(0.0));
}

#[test]
fn population_has_three_users_with_four_traces() {
    let population = parse_to_frequency(&stream(), &config(0));
    assert_eq!(population.len(), 3);
    for (user, traces) in population.iter() {
        assert!(*user < 3);
        assert_eq!(traces.len(), 4);
    }
    let sequences = parse_to_sequence(&stream(), &config(0));
    assert_eq!(sequences.len(), 3);
    assert!(sequences.iter().all(|(_, traces)| traces.len() == 4));
}

#[test]
fn every_sampled_user_is_attacked_once_for_each_target() {
    let config = config(42);
    let results = run(config.seed);
    assert_eq!(results.len(), config.user_sample_size * config.target_trace_sample_size);
    let triples = [
        (false, false, false),
        (false, false, true),
        (false, true, false),
        (false, true, true),
        (true, false, false),
        (true, false, true),
        (true, true, false),
        (true, true, true),
    ];
    for (_, outcome) in results.iter() {
        assert!(triples.contains(outcome));
    }
}

#[test]
fn users_with_categories_of_their_own_are_linked_at_rank_one() {
    for (_, outcome) in run(7).iter() {
        // With three users the first tenth of the population is empty.
        assert_eq!(*outcome, (true, true, false));
    }
}

#[test]
fn one_seed_gives_one_result() {
    assert_eq!(run(5), run(5));
    assert_eq!(run(123_456), run(123_456));
}

#[test]
fn outcomes_of_all_victims_are_tallied() {
    let outcomes: Vec<Vec<(bool, bool, bool)>> =
        run(9).into_iter().map(|(_, outcome)| vec![outcome]).collect();
    let counts = tally(&flatten(outcomes));
    assert_eq!(counts.attacks, 3);
    assert_eq!(counts.rank_1, 3);
    assert_eq!(counts.top_10, 3);
    assert_eq!(counts.top_10_percent, 0);
    assert_eq!(counts.rank_1 as f64 / counts.attacks as f64, 1.0);
}

#[test]
fn dependent_attacks_strengthen_later_ones() {
    let mut config = config(1);
    config.target_trace_sample_size = 2;
    config.dependent = true;
    let population = parse_to_frequency(&stream(), &config);
    let mut rng = StdRng::seed_from_u64(config.seed);
    let targets = gen_user_to_target_idx_map(&population, &mut rng, 3, 2);
    let mut samples = gen_user_to_sample_idx_map(&population, &mut rng, 0);
    let tests = gen_user_to_test_idx_map(&population, &samples, &mut rng);
    for (victim, _) in population.iter() {
        for target_idx in targets[victim].iter() {
            let before = samples[victim].len();
            let regime = regime_of(config.typical, config.multiple);
            let vectors = eval_step(regime, *victim, *target_idx, &population, &samples, &tests);
            let mut distances: Vec<f64> = Vec::new();
            let mut scored: Vec<(u32, u64)> = Vec::new();
            for candidate in vectors.iter() {
                for reference in candidate.references.iter() {
                    let distance = euclidean(&candidate.target.category, &reference.category);
                    distances.push(distance);
                    scored.push((candidate.candidate, key_of(distance)));
                }
            }
            let significant = match top_three(&scored, ScoreOrder::Ascending) {
                Some((first, second, third)) => {
                    let gap_12 = distances[first] - distances[second];
                    let gap_23 = distances[second] - distances[third];
                    1.0 - gap_23 / gap_12 >= 0.75
                }
                None => false,
            };
            let outcome = eval_step_dependent(
                *victim,
                *target_idx,
                &scored,
                ScoreOrder::Ascending,
                significant,
                population.len(),
                &mut samples,
            );
            assert!(outcome.0);
            if significant {
                assert_eq!(samples[victim].len(), before + 1);
                assert_eq!(samples[victim].last(), Some(target_idx));
            } else {
                assert_eq!(samples[victim].len(), before);
            }
        }
    }
}
