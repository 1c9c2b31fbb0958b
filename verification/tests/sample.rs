use browsing_linkage::sample::{
    gen_user_to_sample_idx_map, gen_user_to_target_idx_map, gen_user_to_test_idx_map,
};
use rand::rngs::StdRng;
use rand::SeedableRng;
use std::collections::HashSet;

fn population(lengths: &[usize]) -> Vec<(u32, Vec<u8>)> {
    lengths.iter().enumerate().map(|(user, len)| (10 * user as u32, vec![0u8; *len])).collect()
}

fn distinct(indices: &[usize]) -> bool {
    let set: HashSet<usize> = indices.iter().cloned().collect();
    set.len() == indices.len()
}

#[test]
fn targets_come_from_the_later_half() {
    let users = population(&[4, 7, 10, 1, 0]);
    let mut rng = StdRng::seed_from_u64(7);
    let targets = gen_user_to_target_idx_map(&users, &mut rng, 3, 2);
    assert_eq!(targets.len(), 3);
    for (user, indices) in targets.iter() {
        let len = users.iter().find(|entry| entry.0 == *user).unwrap().1.len();
        assert_eq!(indices.len(), 2.min(len - len / 2));
        assert!(distinct(indices));
        for index in indices {
            assert!(*index >= len / 2 && *index < len);
        }
    }
}

#[test]
fn targets_of_more_users_than_there_are_cover_all_users() {
    let users = population(&[4, 6, 8]);
    let mut rng = StdRng::seed_from_u64(1);
    let targets = gen_user_to_target_idx_map(&users, &mut rng, 400, 1);
    assert_eq!(targets.len(), 3);
    for (user, traces) in users.iter() {
        let indices = &targets[user];
        assert_eq!(indices.len(), 1);
        assert!(indices[0] >= traces.len() / 2 && indices[0] < traces.len());
    }
    let mut none = StdRng::seed_from_u64(1);
    assert!(gen_user_to_target_idx_map(&users, &mut none, 0, 1).is_empty());
}

#[test]
fn samples_come_from_the_earlier_half() {
    let users = population(&[4, 7, 10, 1]);
    let mut rng = StdRng::seed_from_u64(3);
    let samples = gen_user_to_sample_idx_map(&users, &mut rng, 2);
    assert_eq!(samples.len(), 4);
    for (user, traces) in users.iter() {
        let indices = &samples[user];
        let half = traces.len() / 2;
        assert_eq!(indices.len(), 2.min(half));
        assert!(distinct(indices));
        assert!(indices.iter().all(|index| *index < half));
    }
}

#[test]
fn sample_size_of_zero_takes_the_whole_earlier_half() {
    let users = population(&[4, 7, 10, 1]);
    let mut rng = StdRng::seed_from_u64(3);
    let samples = gen_user_to_sample_idx_map(&users, &mut rng, 0);
    assert_eq!(samples[&0], vec![0, 1]);
    assert_eq!(samples[&10], vec![0, 1, 2]);
    assert_eq!(samples[&20], vec![0, 1, 2, 3, 4]);
    assert_eq!(samples[&30], Vec::<usize>::new());
}

#[test]
fn samples_and_targets_never_overlap() {
    let users = population(&[9, 12, 5, 8]);
    let mut rng = StdRng::seed_from_u64(99);
    let targets = gen_user_to_target_idx_map(&users, &mut rng, 4, 3);
    let samples = gen_user_to_sample_idx_map(&users, &mut rng, 3);
    for (user, indices) in targets.iter() {
        for index in indices {
            assert!(!samples[user].contains(index));
        }
    }
}

#[test]
fn test_index_is_one_of_the_samples() {
    let users = population(&[4, 7, 10, 1]);
    let mut rng = StdRng::seed_from_u64(5);
    let samples = gen_user_to_sample_idx_map(&users, &mut rng, 3);
    let tests = gen_user_to_test_idx_map(&users, &samples, &mut rng);
    assert_eq!(tests.len(), 3);
    assert!(!tests.contains_key(&30));
    for (user, test) in tests.iter() {
        assert!(samples[user].contains(test));
    }
}

#[test]
fn one_seed_gives_one_sample() {
    let users = population(&[20, 30, 40, 50, 60]);
    let mut first = StdRng::seed_from_u64(2024);
    let mut second = StdRng::seed_from_u64(2024);
    let targets_1 = gen_user_to_target_idx_map(&users, &mut first, 3, 4);
    let targets_2 = gen_user_to_target_idx_map(&users, &mut second, 3, 4);
    assert_eq!(targets_1, targets_2);
    let samples_1 = gen_user_to_sample_idx_map(&users, &mut first, 5);
    let samples_2 = gen_user_to_sample_idx_map(&users, &mut second, 5);
    assert_eq!(samples_1, samples_2);
    let tests_1 = gen_user_to_test_idx_map(&users, &samples_1, &mut first);
    let tests_2 = gen_user_to_test_idx_map(&users, &samples_2, &mut second);
    assert_eq!(tests_1, tests_2);
}
