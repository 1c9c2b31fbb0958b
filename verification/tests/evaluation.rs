use browsing_linkage::evaluation::{
    absorb, copy_indices, eval_step_dependent, has_references, holds_trace, plan_references,
    regime_of, user_position, Reference, Regime,
};
use browsing_linkage::ranking::ScoreOrder;
use std::collections::HashMap;

fn population() -> Vec<(u32, Vec<u8>)> {
    vec![(2, vec![0; 4]), (5, vec![0; 6]), (9, vec![0; 2])]
}

fn maps() -> (HashMap<u32, Vec<usize>>, HashMap<u32, usize>) {
    let mut samples = HashMap::new();
    samples.insert(2, vec![1, 0]);
    samples.insert(5, vec![2]);
    samples.insert(9, vec![]);
    let mut tests = HashMap::new();
    tests.insert(2, 0);
    tests.insert(5, 2);
    tests.insert(9, 1);
    (samples, tests)
}

#[test]
fn regime_follows_the_switches() {
    assert_eq!(regime_of(false, false), Regime::Each);
    assert_eq!(regime_of(true, false), Regime::Typical);
    assert_eq!(regime_of(false, true), Regime::Test);
    assert_eq!(regime_of(true, true), Regime::Test);
}

#[test]
fn plan_lists_the_references_of_every_candidate() {
    let (samples, tests) = maps();
    assert_eq!(
        plan_references(&population(), &samples, &tests, Regime::Each),
        vec![(0, Reference::Trace(1)), (0, Reference::Trace(0)), (1, Reference::Trace(2))]
    );
    assert_eq!(
        plan_references(&population(), &samples, &tests, Regime::Typical),
        vec![(0, Reference::Typical), (1, Reference::Typical), (2, Reference::Typical)]
    );
    assert_eq!(
        plan_references(&population(), &samples, &tests, Regime::Test),
        vec![(0, Reference::Trace(0)), (1, Reference::Trace(2)), (2, Reference::Trace(1))]
    );
}

#[test]
fn user_is_found_by_its_number() {
    assert_eq!(user_position(&population(), 5), Some(1));
    assert_eq!(user_position(&population(), 2), Some(0));
    assert_eq!(user_position(&population(), 7), None);
}

#[test]
fn absorb_appends_a_confident_link() {
    let (mut samples, _) = maps();
    absorb(&mut samples, 2, 3, false);
    assert_eq!(samples[&2], vec![1, 0]);
    absorb(&mut samples, 2, 3, true);
    assert_eq!(samples[&2], vec![1, 0, 3]);
    assert_eq!(samples[&5], vec![2]);
    assert_eq!(samples.len(), 3);
    assert_eq!(copy_indices(&samples[&2]), vec![1, 0, 3]);
}

#[test]
fn absorbed_target_is_compared_in_later_attacks() {
    let (mut samples, tests) = maps();
    let before = plan_references(&population(), &samples, &tests, Regime::Each);
    assert!(!before.contains(&(1, Reference::Trace(4))));
    absorb(&mut samples, 5, 4, true);
    let after = plan_references(&population(), &samples, &tests, Regime::Each);
    assert!(after.contains(&(1, Reference::Trace(4))));
    assert_eq!(after.len(), before.len() + 1);
}

#[test]
fn dependent_step_classifies_and_absorbs() {
    let (mut samples, _) = maps();
    let scored = vec![(2u32, 5u64), (5, 1), (9, 7), (5, 3)];
    let outcome =
        eval_step_dependent(5, 4, &scored, ScoreOrder::Ascending, true, 30, &mut samples);
    assert_eq!(outcome, (true, true, true));
    assert_eq!(samples[&5], vec![2, 4]);
    let outcome =
        eval_step_dependent(2, 3, &scored, ScoreOrder::Ascending, false, 30, &mut samples);
    assert_eq!(outcome, (false, true, true));
    assert_eq!(samples[&2], vec![1, 0]);
}

#[test]
fn dependent_step_with_fewer_than_three_entries_absorbs_nothing() {
    let (mut samples, _) = maps();
    let scored = vec![(2u32, 5u64), (5, 1)];
    let outcome =
        eval_step_dependent(5, 4, &scored, ScoreOrder::Descending, true, 2, &mut samples);
    assert_eq!(outcome, (false, true, false));
    assert_eq!(samples[&5], vec![2]);
}

#[test]
fn references_are_there_or_not() {
    let (mut samples, mut tests) = maps();
    assert!(has_references(&population(), &samples, &tests, Regime::Each));
    assert!(has_references(&population(), &samples, &tests, Regime::Typical));
    assert!(has_references(&population(), &samples, &tests, Regime::Test));

    // A test index beyond the history counts in the regime of the test trace only.
    tests.insert(9, 2);
    assert!(has_references(&population(), &samples, &tests, Regime::Each));
    assert!(!has_references(&population(), &samples, &tests, Regime::Test));
    tests.remove(&9);
    assert!(!has_references(&population(), &samples, &tests, Regime::Test));

    // An observed index beyond the history counts in every regime.
    samples.insert(5, vec![2, 6]);
    assert!(!has_references(&population(), &samples, &tests, Regime::Each));
    assert!(!has_references(&population(), &samples, &tests, Regime::Typical));
    samples.insert(5, vec![2, 5]);
    assert!(has_references(&population(), &samples, &tests, Regime::Each));

    // So does a user without observed indices.
    samples.remove(&2);
    assert!(!has_references(&population(), &samples, &tests, Regime::Each));
    assert!(has_references(&Vec::<(u32, Vec<u8>)>::new(), &samples, &tests, Regime::Test));
}

#[test]
fn trace_is_held_by_a_user_of_the_population() {
    assert!(holds_trace(&population(), 2, 3));
    assert!(!holds_trace(&population(), 2, 4));
    assert!(holds_trace(&population(), 9, 1));
    assert!(!holds_trace(&population(), 9, 2));
    assert!(!holds_trace(&population(), 7, 0));
}

#[test]
fn first_entry_of_a_number_is_the_place_of_the_user() {
    let twice: Vec<(u32, Vec<u8>)> = vec![(4, vec![0; 1]), (6, vec![0; 2]), (4, vec![0; 3])];
    assert_eq!(user_position(&twice, 4), Some(0));
    assert!(holds_trace(&twice, 4, 0));
    assert!(!holds_trace(&twice, 4, 1));
}
