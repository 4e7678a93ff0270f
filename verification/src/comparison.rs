use crate::cos_lcs::{
    closest_match, greedy_subsequence, lemma_greedy_is_common, lemma_match_has_closest,
    lemma_no_match_no_closest, ClosestOffsetSumLcs,
};
use crate::lcs_trait::{
    embeds_within, has_match, is_common_subsequence, is_match,
    lemma_common_subsequence_needs_match, Lcs,
};
use crate::slow_lcs::{exact_subsequence, lemma_exact_is_longest, lemma_lcs_len_bounded, SlowLcs};
use vstd::prelude::*;

verus! {

/// The approximate strategy never yields a longer subsequence than the exact
/// strategy does on the same two sequences.
pub proof fn lemma_approximate_not_longer(source: Seq<u8>, target: Seq<u8>)
    ensures
        greedy_subsequence(source, target).len() <= exact_subsequence(source, target).len(),
{
    lemma_greedy_is_common(source, target);
    lemma_exact_is_longest(source, target);
}

/// Whatever the strategy, what it yields is no longer than what the exact
/// strategy yields on the same two sequences.
pub proof fn lemma_no_strategy_beats_exact<L: Lcs<u8>>(strategy: &L)
    ensures
        strategy.chosen().len() <= exact_subsequence(
            strategy.source_view(),
            strategy.target_view(),
        ).len(),
{
    strategy.lemma_chosen_is_common();
    lemma_exact_is_longest(strategy.source_view(), strategy.target_view());
}

/// Where source and target share no byte value, both strategies yield the
/// empty subsequence.
pub proof fn lemma_no_overlap_gives_empty(source: Seq<u8>, target: Seq<u8>)
    requires
        !has_match(source, target),
    ensures
        greedy_subsequence(source, target) == Seq::<u8>::empty(),
        exact_subsequence(source, target) == Seq::<u8>::empty(),
{
    lemma_no_match_no_closest(source, target);
    lemma_exact_is_longest(source, target);
    lemma_common_subsequence_needs_match(exact_subsequence(source, target), source, target);
    assert(exact_subsequence(source, target) =~= Seq::<u8>::empty());
}

/// Where source or target is empty, both strategies yield the empty
/// subsequence.
pub proof fn lemma_empty_input_gives_empty(source: Seq<u8>, target: Seq<u8>)
    requires
        source.len() == 0 || target.len() == 0,
    ensures
        greedy_subsequence(source, target) == Seq::<u8>::empty(),
        exact_subsequence(source, target) == Seq::<u8>::empty(),
{
    assert forall|i: int, j: int| !is_match(source, target, i, j) by {}
    lemma_no_overlap_gives_empty(source, target);
}

/// Where source and target share a byte value, neither strategy yields the
/// empty subsequence.
pub proof fn lemma_overlap_gives_nonempty(source: Seq<u8>, target: Seq<u8>)
    requires
        has_match(source, target),
    ensures
        greedy_subsequence(source, target).len() > 0,
        exact_subsequence(source, target).len() > 0,
{
    let (i, j) = choose|i: int, j: int| is_match(source, target, i, j);
    lemma_match_has_closest(source, target, i, j);
    assert(closest_match(source, target) is Some);
    let single = seq![source[i]];
    assert(embeds_within(single, source, source.len() as int, seq![i]));
    assert(embeds_within(single, target, target.len() as int, seq![j]));
    assert(is_common_subsequence(single, source, target));
    lemma_exact_is_longest(source, target);
}

/// Runs both strategies on the same two sequences and gives the lengths of
/// their results, the approximate one first.
pub fn compared_lengths(source: &[u8], target: &[u8]) -> (lengths: (usize, usize))
    ensures
        lengths.0 == greedy_subsequence(source@, target@).len(),
        lengths.1 == exact_subsequence(source@, target@).len(),
        lengths.0 <= lengths.1,
        lengths.1 <= source@.len(),
        lengths.1 <= target@.len(),
{
    let approximate = ClosestOffsetSumLcs::new(source, target);
    let exact = SlowLcs::new(source, target);
    proof {
        lemma_approximate_not_longer(source@, target@);
        lemma_exact_is_longest(source@, target@);
        lemma_lcs_len_bounded(source@, target@, source@.len() as int, target@.len() as int);
    }
    (approximate.len(), exact.len())
}

} // verus!
