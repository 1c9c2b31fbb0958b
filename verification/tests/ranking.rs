use browsing_linkage::evaluation::{tally, top_three, Tally};
use browsing_linkage::ranking::{
    classify, is_target_in_first, is_target_in_top_k, rank, rank_and_classify, rank_positions,
    ScoreOrder,
};

#[test]
fn rank_orders_by_score_and_keeps_ties_in_place() {
    let scored = vec![(7u32, 30u64), (8, 10), (9, 30), (10, 10)];
    assert_eq!(rank_positions(&scored, ScoreOrder::Ascending), vec![1, 3, 0, 2]);
    assert_eq!(rank(&scored, ScoreOrder::Ascending), vec![(8, 10), (10, 10), (7, 30), (9, 30)]);
    assert_eq!(rank_positions(&scored, ScoreOrder::Descending), vec![0, 2, 1, 3]);
    assert_eq!(rank(&scored, ScoreOrder::Descending), vec![(7, 30), (9, 30), (8, 10), (10, 10)]);
}

#[test]
fn rank_of_nothing_is_nothing() {
    let scored: Vec<(u32, u64)> = Vec::new();
    assert!(rank(&scored, ScoreOrder::Ascending).is_empty());
    assert!(rank_positions(&scored, ScoreOrder::Descending).is_empty());
}

#[test]
fn rank_is_a_stable_sort_of_many_entries() {
    let mut scored: Vec<(u32, u64)> = Vec::new();
    for i in 0..200u32 {
        scored.push((i, ((i * 37) % 11) as u64));
    }
    let mut expected = scored.clone();
    expected.sort_by_key(|entry| entry.1);
    assert_eq!(rank(&scored, ScoreOrder::Ascending), expected);
    let mut reversed = scored.clone();
    reversed.sort_by_key(|entry| std::cmp::Reverse(entry.1));
    assert_eq!(rank(&scored, ScoreOrder::Descending), reversed);
}

#[test]
fn ranking_twice_gives_the_same_ranking() {
    let scored = vec![(1u32, 5u64), (2, 5), (3, 1), (4, 9), (5, 5)];
    let first = rank(&scored, ScoreOrder::Ascending);
    let second = rank(&scored, ScoreOrder::Ascending);
    assert_eq!(first, second);
    assert_eq!(first, vec![(3, 1), (1, 5), (2, 5), (5, 5), (4, 9)]);
}

#[test]
fn classify_tells_rank_one_and_top_ten() {
    let entries = vec![(1u32, 1u64), (2, 2), (3, 3)];
    assert_eq!(classify(1, &entries, 30), (true, true, true));
    assert_eq!(classify(3, &entries, 20), (false, true, false));
    assert_eq!(classify(3, &entries, 30), (false, true, true));
    assert_eq!(classify(4, &entries, 30), (false, false, false));
}

#[test]
fn classify_counts_entries_not_candidates() {
    let mut entries: Vec<(u32, u64)> = Vec::new();
    for i in 0..12u32 {
        entries.push((i / 2, i as u64));
    }
    // The candidate 5 has the entries at the places 10 and 11.
    assert_eq!(classify(5, &entries, 100), (false, false, false));
    assert_eq!(classify(5, &entries, 110), (false, false, true));
    assert_eq!(classify(4, &entries, 100), (false, true, true));
}

#[test]
fn classify_of_a_small_population_takes_the_whole_of_it_as_top_ten() {
    let entries = vec![(4u32, 1u64), (5, 2)];
    assert_eq!(classify(5, &entries, 2), (false, true, false));
    assert_eq!(classify(4, &entries, 2), (true, true, false));
}

#[test]
fn classify_of_no_entries_finds_nobody() {
    let entries: Vec<(u32, u64)> = Vec::new();
    assert_eq!(classify(1, &entries, 50), (false, false, false));
}

#[test]
fn population_of_one_is_ranked_first() {
    let scored = vec![(3u32, 17u64), (3, 4), (3, 99)];
    assert_eq!(rank_and_classify(3, &scored, ScoreOrder::Ascending, 1), (true, true, false));
    assert_eq!(rank_and_classify(3, &scored, ScoreOrder::Descending, 1), (true, true, false));
}

#[test]
fn rank_and_classify_ranks_before_it_classifies() {
    let scored = vec![(1u32, 9u64), (2, 3), (3, 6)];
    assert_eq!(rank_and_classify(2, &scored, ScoreOrder::Ascending, 3), (true, true, false));
    assert_eq!(rank_and_classify(2, &scored, ScoreOrder::Descending, 3), (false, true, false));
    assert_eq!(rank_and_classify(1, &scored, ScoreOrder::Descending, 3), (true, true, false));
}

#[test]
fn target_is_found_among_the_first_entries_only() {
    let entries = vec![(1u32, 1u64), (2, 2), (3, 3)];
    assert!(is_target_in_top_k(&3, &entries[..3]));
    assert!(!is_target_in_top_k(&3, &entries[..2]));
    assert!(!is_target_in_top_k(&3, &entries[..0]));
    assert!(is_target_in_first(2, &entries, 2));
    assert!(!is_target_in_first(2, &entries, 1));
    assert!(is_target_in_first(3, &entries, 10));
    assert!(!is_target_in_first(9, &entries, 10));
}

#[test]
fn top_three_needs_three_entries() {
    let two = vec![(1u32, 1u64), (2, 2)];
    assert_eq!(top_three(&two, ScoreOrder::Ascending), None);
    let four = vec![(1u32, 8u64), (2, 2), (3, 5), (4, 2)];
    assert_eq!(top_three(&four, ScoreOrder::Ascending), Some((1, 3, 2)));
    assert_eq!(top_three(&four, ScoreOrder::Descending), Some((0, 2, 1)));
}

#[test]
fn tally_counts_each_success() {
    let outcomes = vec![
        (true, true, true),
        (false, true, false),
        (false, false, false),
        (false, true, true),
    ];
    assert_eq!(tally(&outcomes), Tally { attacks: 4, rank_1: 1, top_10: 3, top_10_percent: 2 });
    assert_eq!(tally(&Vec::new()), Tally { attacks: 0, rank_1: 0, top_10: 0, top_10_percent: 0 });
}
