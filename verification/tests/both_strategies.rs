use cos_lcs::comparison::compared_lengths;
use cos_lcs::cos_lcs::ClosestOffsetSumLcs;
use cos_lcs::lcs_trait::Lcs;
use cos_lcs::slow_lcs::SlowLcs;
use cos_lcs::stats::{generate_random_data, random_sequence};

fn is_subsequence(sub: &[u8], full: &[u8]) -> bool {
    let mut rest = full.iter();
    sub.iter().all(|byte| rest.any(|other| other == byte))
}

fn longest_by_enumeration(source: &[u8], target: &[u8]) -> usize {
    let mut longest: usize = 0;
    for picks in 0u32..(1u32 << source.len()) {
        let sub: Vec<u8> = source
            .iter()
            .enumerate()
            .filter(|(at, _)| picks & (1u32 << at) != 0)
            .map(|(_, byte)| *byte)
            .collect();
        if sub.len() > longest && is_subsequence(&sub, target) {
            longest = sub.len();
        }
    }
    longest
}

fn length_through_capability<L: Lcs<u8>>(strategy: &L) -> usize {
    strategy.len()
}

fn samples() -> Vec<(Vec<u8>, Vec<u8>)> {
    vec![
        (vec![2, 1, 0, 3], vec![0, 1, 2, 3]),
        (vec![0, 1, 0], vec![1, 0, 2]),
        (vec![1, 2, 3, 4, 1], vec![3, 4, 1, 2, 1, 3]),
        (vec![7, 7, 8], vec![8, 7, 7]),
        (vec![], vec![1, 2, 3]),
        (vec![9, 9, 9], vec![]),
        (vec![1, 2, 3], vec![4, 5, 6]),
        (vec![0, 1, 2, 0, 1, 7, 7, 3], vec![1, 0, 0, 2, 1, 3, 7]),
    ]
}

#[test]
fn results_are_common_subsequences() {
    for (source, target) in samples() {
        let approximate = ClosestOffsetSumLcs::new(&source, &target).subsequence();
        let exact = SlowLcs::new(&source, &target).subsequence();
        assert!(is_subsequence(&approximate, &source));
        assert!(is_subsequence(&approximate, &target));
        assert!(is_subsequence(&exact, &source));
        assert!(is_subsequence(&exact, &target));
    }
}

#[test]
fn len_is_length_of_subsequence() {
    for (source, target) in samples() {
        let approximate = ClosestOffsetSumLcs::new(&source, &target);
        let exact = SlowLcs::new(&source, &target);
        assert_eq!(approximate.len(), approximate.subsequence().len());
        assert_eq!(exact.len(), exact.subsequence().len());
        assert_eq!(approximate.is_empty(), approximate.len() == 0);
        assert_eq!(exact.is_empty(), exact.len() == 0);
    }
}

#[test]
fn exact_is_as_long_as_any_common_subsequence() {
    for (source, target) in samples() {
        let exact = SlowLcs::new(&source, &target);
        assert_eq!(exact.len(), longest_by_enumeration(&source, &target));
    }
}

#[test]
fn approximate_is_never_longer_than_exact() {
    for (source, target) in samples() {
        let approximate = ClosestOffsetSumLcs::new(&source, &target);
        let exact = SlowLcs::new(&source, &target);
        assert!(approximate.len() <= exact.len());
    }
}

#[test]
fn approximate_can_be_strictly_shorter() {
    let source = [0u8, 1, 0];
    let target = [1u8, 0, 2];
    let approximate = ClosestOffsetSumLcs::new(&source, &target);
    let exact = SlowLcs::new(&source, &target);
    assert_eq!(approximate.subsequence(), vec![0u8]);
    assert_eq!(exact.subsequence(), vec![1u8, 0]);
    assert!(approximate.len() < exact.len());
}

#[test]
fn reordered_bytes_give_two_with_both_strategies() {
    let source = [2u8, 1, 0, 3];
    let target = [0u8, 1, 2, 3];
    assert_eq!(ClosestOffsetSumLcs::new(&source, &target).len(), 2);
    assert_eq!(SlowLcs::new(&source, &target).len(), 2);
    assert_eq!(longest_by_enumeration(&source, &target), 2);
}

#[test]
fn strategies_are_interchangeable() {
    let source = [0u8, 1, 0];
    let target = [1u8, 0, 2];
    assert_eq!(length_through_capability(&ClosestOffsetSumLcs::new(&source, &target)), 1);
    assert_eq!(length_through_capability(&SlowLcs::new(&source, &target)), 2);
}

#[test]
fn random_data_has_requested_length_and_alphabet() {
    for alphabet_size in [0u8, 1, 2, 4, 16, 32, 64, 128, 255] {
        for length in [0usize, 1, 10, 50, 100] {
            let (source, target) = generate_random_data(length, alphabet_size);
            assert_eq!(source.len(), length);
            assert_eq!(target.len(), length);
            assert!(source.iter().all(|&byte| byte <= alphabet_size));
            assert!(target.iter().all(|&byte| byte <= alphabet_size));
        }
    }
}

#[test]
fn random_data_over_one_value_is_all_zero() {
    let (source, target) = generate_random_data(64, 0);
    assert_eq!(source, vec![0u8; 64]);
    assert_eq!(target, vec![0u8; 64]);
}

#[test]
fn random_sequence_draws_below_the_largest_value_too() {
    let data = random_sequence(4096, 255);
    assert_eq!(data.len(), 4096);
    assert!(data.iter().any(|&byte| byte != 255));
}

#[test]
fn strategies_hold_up_on_random_data() {
    for alphabet_size in [0u8, 1, 3, 16, 255] {
        let (source, target) = generate_random_data(60, alphabet_size);
        let approximate = ClosestOffsetSumLcs::new(&source, &target).subsequence();
        let exact = SlowLcs::new(&source, &target).subsequence();
        assert!(is_subsequence(&approximate, &source));
        assert!(is_subsequence(&approximate, &target));
        assert!(is_subsequence(&exact, &source));
        assert!(is_subsequence(&exact, &target));
        assert!(approximate.len() <= exact.len());
    }
}

#[test]
fn compared_lengths_gives_approximate_then_exact() {
    assert_eq!(compared_lengths(&[0, 1, 0], &[1, 0, 2]), (1, 2));
    assert_eq!(compared_lengths(&[2, 1, 0, 3], &[0, 1, 2, 3]), (2, 2));
    assert_eq!(compared_lengths(&[], &[1, 2, 3]), (0, 0));
    assert_eq!(compared_lengths(&[5], &[5]), (1, 1));
    assert_eq!(compared_lengths(&[0u8; 100], &[0u8; 100]), (100, 100));
}

#[test]
fn one_shared_byte_is_found_by_both() {
    let source = [1u8, 2, 3, 9];
    let target = [9u8, 4, 5, 6, 7];
    assert_eq!(ClosestOffsetSumLcs::new(&source, &target).subsequence(), vec![9u8]);
    assert_eq!(SlowLcs::new(&source, &target).subsequence(), vec![9u8]);
}
