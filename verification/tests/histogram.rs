use browsing_linkage::histogram::Histogram;
use browsing_linkage::maths::{zeros_i32, zeros_u32};
use browsing_linkage::metrics::jaccard_support;
use browsing_linkage::utils::{
    flatten, gen_vector_from_freq_map, gen_vector_from_rate, gen_vector_from_str,
    get_most_freq_element, most_frequent_position,
};
use browsing_linkage::cli::Rate;
use browsing_linkage::vocabulary::vocabulary_of;
use indexmap::IndexSet;

fn text(s: &str) -> String {
    s.to_string()
}

fn histogram_of(values: &[&str]) -> Histogram {
    let mut histogram = Histogram::new();
    for value in values {
        histogram.record(&text(value));
    }
    histogram
}

fn items_of(set: &IndexSet<String>) -> Vec<String> {
    set.iter().cloned().collect()
}

#[test]
fn zeros_are_zeros() {
    assert_eq!(zeros_i32(3), vec![0, 0, 0]);
    assert_eq!(zeros_u32(2), vec![0, 0]);
    assert!(zeros_u32(0).is_empty());
    assert_eq!(browsing_linkage::frequency::maths::zeros_u32(24), vec![0u32; 24]);
    assert_eq!(browsing_linkage::frequency::maths::zeros_u64(7), vec![0u64; 7]);
}

#[test]
fn histogram_counts_in_order_of_first_occurrence() {
    let histogram = histogram_of(&["b", "a", "b", "c", "b", "a"]);
    assert_eq!(histogram.len(), 3);
    assert_eq!(histogram.key(0), "b");
    assert_eq!(histogram.key(1), "a");
    assert_eq!(histogram.key(2), "c");
    assert_eq!(histogram.count_at(0), 3);
    assert_eq!(histogram.count_at(1), 2);
    assert_eq!(histogram.count_at(2), 1);
    assert_eq!(histogram.count(&text("b")), 3);
    assert_eq!(histogram.count(&text("z")), 0);
    assert_eq!(histogram.position(&text("c")), Some(2));
    assert_eq!(histogram.position(&text("z")), None);
}

#[test]
fn histogram_clone_holds_the_same_counts() {
    let histogram = histogram_of(&["x", "y", "x"]);
    let copy = histogram.clone();
    assert_eq!(copy.len(), 2);
    assert_eq!(copy.key(0), "x");
    assert_eq!(copy.count_at(0), 2);
    assert_eq!(copy.count(&text("y")), 1);
}

#[test]
fn empty_histogram_has_nothing() {
    let histogram = Histogram::new();
    assert_eq!(histogram.len(), 0);
    assert_eq!(histogram.count(&text("a")), 0);
}

#[test]
fn vocabulary_keeps_the_order_of_first_occurrence() {
    let values = vec![text("news"), text("mail"), text("news"), text("shop"), text("mail")];
    let set = vocabulary_of(&values);
    assert_eq!(items_of(&set), vec![text("news"), text("mail"), text("shop")]);
    assert_eq!(set.get_index_of("shop"), Some(2));
}

#[test]
fn frequency_vector_puts_counts_at_vocabulary_indices() {
    let histogram = histogram_of(&["b", "a", "b"]);
    let set = vocabulary_of(&vec![text("c"), text("a"), text("b"), text("d")]);
    assert_eq!(gen_vector_from_freq_map(&histogram, &set), vec![0, 1, 2, 0]);
}

#[test]
fn frequency_vector_over_own_vocabulary_sums_to_the_number_of_values() {
    let values = ["p", "q", "p", "r", "p", "q", "s"];
    let histogram = histogram_of(&values);
    let keys: Vec<String> = (0..histogram.len()).map(|i| histogram.key(i).clone()).collect();
    let set = vocabulary_of(&keys);
    let vector = gen_vector_from_freq_map(&histogram, &set);
    assert_eq!(vector, vec![3, 2, 1, 1]);
    assert_eq!(vector.iter().sum::<u32>() as usize, values.len());
}

#[test]
fn one_hot_vector_marks_the_value() {
    let set = vocabulary_of(&vec![text("18-24"), text("25-34"), text("35-44")]);
    assert_eq!(gen_vector_from_str("25-34", &set), vec![0, 1, 0]);
    assert_eq!(gen_vector_from_str("18-24", &set), vec![1, 0, 0]);
}

#[test]
fn rate_vector_marks_the_bin() {
    // 3 events in 20 seconds are 0.15 events per second: the bin 1 of 20.
    let vector = gen_vector_from_rate(Rate { events: 3, seconds: 20 }, 20).unwrap();
    assert_eq!(vector.len(), 20);
    assert_eq!(vector[1], 1);
    assert_eq!(vector.iter().sum::<u32>(), 1);
    // 1.9 events per second are in the last bin.
    let last = gen_vector_from_rate(Rate { events: 19, seconds: 10 }, 20).unwrap();
    assert_eq!(last[19], 1);
    assert_eq!(gen_vector_from_rate(Rate { events: 20, seconds: 10 }, 20), None);
    assert_eq!(gen_vector_from_rate(Rate { events: 1, seconds: 0 }, 20), None);
    assert_eq!(gen_vector_from_rate(Rate { events: 0, seconds: 5 }, 20).unwrap()[0], 1);
}

#[test]
fn flatten_joins_in_order() {
    let nested = vec![vec![1, 2], vec![], vec![3], vec![4, 5, 6]];
    assert_eq!(flatten(nested), vec![1, 2, 3, 4, 5, 6]);
    let empty: Vec<Vec<u8>> = Vec::new();
    assert!(flatten(empty).is_empty());
    let outcomes = vec![vec![(true, false, false)], vec![(false, true, true), (true, true, true)]];
    assert_eq!(flatten(outcomes).len(), 3);
}

#[test]
fn most_frequent_element_is_the_majority() {
    assert_eq!(get_most_freq_element(&[3u32, 1, 3, 2, 3, 1]), 3);
    assert_eq!(get_most_freq_element(&[5usize]), 5);
    assert_eq!(most_frequent_position(&[4u32, 9, 9, 4, 9]), 1);
}

#[test]
fn most_frequent_element_of_a_tie_is_the_first() {
    assert_eq!(get_most_freq_element(&[2u32, 7, 7, 2]), 2);
    assert_eq!(get_most_freq_element(&[7u32, 2, 2, 7]), 7);
    assert_eq!(get_most_freq_element(&[1u32, 2, 3]), 1);
    assert_eq!(most_frequent_position(&[1u32, 2, 2, 1, 3]), 0);
}

#[test]
fn jaccard_support_counts_shared_and_joint_places() {
    assert_eq!(jaccard_support(&vec![1, 0, 2, 0], &vec![0, 0, 5, 1]), (1, 3));
    assert_eq!(jaccard_support(&vec![1, 2, 3], &vec![1, 2, 3]), (3, 3));
    assert_eq!(jaccard_support(&vec![0, 0], &vec![0, 0]), (0, 0));
    assert_eq!(jaccard_support(&vec![1, 1], &vec![1, 1, 1]), (2, 3));
    assert_eq!(jaccard_support(&vec![], &vec![4]), (0, 1));
    let (shared, joint) = jaccard_support(&vec![3, 0, 1], &vec![0, 2, 1]);
    assert_eq!((shared, joint), (1, 3));
    assert!(1.0 - shared as f64 / joint as f64 >= 0.0);
}
