use cos_lcs::cos_lcs::ClosestOffsetSumLcs;
use cos_lcs::lcs_trait::Lcs;

#[test]
fn new() {
    let source = vec![0u8; 100];
    let target = source.clone();
    _ = ClosestOffsetSumLcs::new(&source, &target);
}

#[test]
fn next_pair_offsets() {
    let source = [2, 1, 0, 3];
    let target = [0, 1, 2, 3];
    let next_pair_offsets = ClosestOffsetSumLcs::<'_>::next_pair_offsets(&source, &target);
    assert_eq!(next_pair_offsets, Some((0, 2)));
}

#[test]
fn subsequence() {
    let source = [2, 1, 0, 3];
    let target = [0, 1, 2, 3];
    let closest_offset_sum_lcs = ClosestOffsetSumLcs::new(&source, &target);
    assert_eq!(closest_offset_sum_lcs.subsequence(), vec![2, 3]);
}

#[test]
fn next_pair_offsets_without_common_byte() {
    let source = [1u8, 2, 3];
    let target = [4u8, 5, 6];
    assert_eq!(ClosestOffsetSumLcs::next_pair_offsets(&source, &target), None);
}

#[test]
fn next_pair_offsets_on_empty_windows() {
    let empty: [u8; 0] = [];
    let other = [1u8, 2, 3];
    assert_eq!(ClosestOffsetSumLcs::next_pair_offsets(&empty, &other), None);
    assert_eq!(ClosestOffsetSumLcs::next_pair_offsets(&other, &empty), None);
    assert_eq!(ClosestOffsetSumLcs::next_pair_offsets(&empty, &empty), None);
}

#[test]
fn next_pair_offsets_prefers_smaller_source_offset_on_equal_sums() {
    let source = [5u8, 6, 7];
    let target = [7u8, 6, 5];
    assert_eq!(ClosestOffsetSumLcs::next_pair_offsets(&source, &target), Some((0, 2)));
    let source = [1u8, 2];
    let target = [2u8, 1];
    assert_eq!(ClosestOffsetSumLcs::next_pair_offsets(&source, &target), Some((0, 1)));
}

#[test]
fn next_pair_offsets_takes_smaller_sum_over_earlier_source_offset() {
    let source = [9u8, 4, 4];
    let target = [4u8, 1, 1, 9];
    assert_eq!(ClosestOffsetSumLcs::next_pair_offsets(&source, &target), Some((1, 0)));
}

#[test]
fn next_pair_offsets_uses_first_occurrence_in_target() {
    let source = [8u8];
    let target = [3u8, 8, 8, 8];
    assert_eq!(ClosestOffsetSumLcs::next_pair_offsets(&source, &target), Some((0, 1)));
}

#[test]
fn next_pair_offsets_finds_late_match() {
    let source = [1u8, 1, 1, 1, 200];
    let target = [2u8, 2, 2, 200];
    assert_eq!(ClosestOffsetSumLcs::next_pair_offsets(&source, &target), Some((4, 3)));
}

#[test]
fn first_occurrences_of_a_window() {
    let window = [3u8, 0, 3, 255, 0];
    let table = ClosestOffsetSumLcs::first_occurrences(&window);
    assert_eq!(table.len(), 256);
    assert_eq!(table[0], 1);
    assert_eq!(table[3], 0);
    assert_eq!(table[255], 3);
    for value in 0..256usize {
        if value != 0 && value != 3 && value != 255 {
            assert_eq!(table[value], usize::MAX);
        }
    }
}

#[test]
fn first_occurrences_of_an_empty_window() {
    let window: [u8; 0] = [];
    let table = ClosestOffsetSumLcs::first_occurrences(&window);
    assert!(table.iter().all(|&slot| slot == usize::MAX));
}

#[test]
fn approximate_on_equal_runs_of_zeros() {
    let source = vec![0u8; 100];
    let target = vec![0u8; 100];
    let lcs = ClosestOffsetSumLcs::new(&source, &target);
    assert_eq!(lcs.subsequence(), vec![0u8; 100]);
    assert_eq!(lcs.len(), 100);
    assert!(!lcs.is_empty());
}

#[test]
fn approximate_on_empty_source() {
    let source: [u8; 0] = [];
    let target = [1u8, 2, 3];
    let lcs = ClosestOffsetSumLcs::new(&source, &target);
    assert_eq!(lcs.subsequence(), Vec::<u8>::new());
    assert_eq!(lcs.len(), 0);
    assert!(lcs.is_empty());
}

#[test]
fn approximate_on_empty_target() {
    let source = [1u8, 2, 3];
    let target: [u8; 0] = [];
    let lcs = ClosestOffsetSumLcs::new(&source, &target);
    assert_eq!(lcs.subsequence(), Vec::<u8>::new());
    assert!(lcs.is_empty());
}

#[test]
fn approximate_on_single_equal_byte() {
    let source = [5u8];
    let target = [5u8];
    let lcs = ClosestOffsetSumLcs::new(&source, &target);
    assert_eq!(lcs.subsequence(), vec![5u8]);
    assert_eq!(lcs.len(), 1);
}

#[test]
fn approximate_without_common_byte() {
    let source = [1u8, 2, 3, 1];
    let target = [4u8, 5, 6, 7, 8];
    let lcs = ClosestOffsetSumLcs::new(&source, &target);
    assert_eq!(lcs.subsequence(), Vec::<u8>::new());
    assert_eq!(lcs.len(), 0);
    assert!(lcs.is_empty());
}

#[test]
fn approximate_consumes_both_sequences_after_each_match() {
    let source = [1u8, 2, 3, 4, 1];
    let target = [3u8, 4, 1, 2, 1, 3];
    let lcs = ClosestOffsetSumLcs::new(&source, &target);
    assert_eq!(lcs.subsequence(), vec![1u8, 2, 3]);
    assert_eq!(lcs.len(), 3);
}

#[test]
fn approximate_repeated_calls_agree() {
    let source = [0u8, 1, 2, 0, 1, 7, 7, 3];
    let target = [1u8, 0, 0, 2, 1, 3, 7];
    let lcs = ClosestOffsetSumLcs::new(&source, &target);
    let first = lcs.subsequence();
    let second = lcs.subsequence();
    assert_eq!(first, second);
    assert_eq!(lcs.len(), lcs.len());
    assert_eq!(lcs.len(), first.len());
    assert_eq!(lcs.is_empty(), first.is_empty());
}
