use crate::lcs_trait::{
    embeds_within, has_match, is_common_subsequence, is_match, lemma_subsequence_prepend, Lcs,
};
use vstd::prelude::*;
use vstd::slice::slice_subrange;

verus! {

/// The pair `p` comes no later than the pair `q`: its offsets add up to less,
/// or to the same and its source offset is not the larger one.
pub open spec fn precedes(p: (int, int), q: (int, int)) -> bool {
    p.0 + p.1 < q.0 + q.1 || (p.0 + p.1 == q.0 + q.1 && p.0 <= q.0)
}

/// `p` is the pair of offsets of equal bytes whose sum is the smallest; among
/// pairs with that sum, the one with the smallest source offset.
pub open spec fn is_closest_match(source: Seq<u8>, target: Seq<u8>, p: (int, int)) -> bool {
    &&& is_match(source, target, p.0, p.1)
    &&& forall|a: int, b: int| #[trigger] is_match(source, target, a, b) ==> precedes(p, (a, b))
}

/// The closest match of the two windows, if they share a byte value.
pub open spec fn closest_match(source: Seq<u8>, target: Seq<u8>) -> Option<(int, int)> {
    if exists|p: (int, int)| is_closest_match(source, target, p) {
        Some(choose|p: (int, int)| is_closest_match(source, target, p))
    } else {
        None
    }
}

/// The subsequence that the greedy strategy yields: the byte of the closest
/// match, followed by what the strategy yields for the rest of both sequences
/// after that match; empty where the two share no byte value.
pub open spec fn greedy_subsequence(source: Seq<u8>, target: Seq<u8>) -> Seq<u8>
    decreases source.len(),
{
    match closest_match(source, target) {
        Some(p) => seq![source[p.0]] + greedy_subsequence(
            source.skip(p.0 + 1),
            target.skip(p.1 + 1),
        ),
        None => Seq::empty(),
    }
}

/// `table` maps each byte value to the first position below `upto` at which
/// `window` holds it, and to `usize::MAX` where it holds it at none.
pub open spec fn is_first_occurrence_table(table: Seq<usize>, window: Seq<u8>, upto: int) -> bool {
    &&& table.len() == 256
    &&& forall|v: int|
        0 <= v < 256 ==> if #[trigger] table[v] == usize::MAX {
            forall|k: int| 0 <= k < upto ==> #[trigger] window[k] != v
        } else {
            &&& 0 <= table[v] < upto
            &&& window[table[v] as int] == v
            &&& forall|k: int| 0 <= k < table[v] ==> #[trigger] window[k] != v
        }
}

/// There is only one closest match.
pub proof fn lemma_closest_match_unique(source: Seq<u8>, target: Seq<u8>, p: (int, int))
    requires
        is_closest_match(source, target, p),
    ensures
        closest_match(source, target) == Some(p),
{
    let q = choose|q: (int, int)| is_closest_match(source, target, q);
    assert(is_match(source, target, p.0, p.1) && is_match(source, target, q.0, q.1));
    assert(precedes(p, (q.0, q.1)) && precedes(q, (p.0, p.1)));
    assert(p.0 == q.0 && p.1 == q.1);
}

/// Where some pair of offsets holds equal bytes, there is a closest match.
pub proof fn lemma_match_has_closest(source: Seq<u8>, target: Seq<u8>, a: int, b: int)
    requires
        is_match(source, target, a, b),
    ensures
        closest_match(source, target) is Some,
    decreases a + b, a,
{
    if exists|c: int, d: int| is_match(source, target, c, d) && !precedes((a, b), (c, d)) {
        let (c, d) = choose|c: int, d: int|
            is_match(source, target, c, d) && !precedes((a, b), (c, d));
        lemma_match_has_closest(source, target, c, d);
    } else {
        assert(is_closest_match(source, target, (a, b)));
    }
}

/// Two sequences that share no byte value have no closest match.
pub proof fn lemma_no_match_no_closest(source: Seq<u8>, target: Seq<u8>)
    requires
        !has_match(source, target),
    ensures
        closest_match(source, target) is None,
        greedy_subsequence(source, target) =~= Seq::<u8>::empty(),
{
    assert forall|p: (int, int)| !is_closest_match(source, target, p) by {
        if is_closest_match(source, target, p) {
            assert(is_match(source, target, p.0, p.1));
        }
    }
}

/// What the greedy strategy yields is a common subsequence of its inputs.
pub proof fn lemma_greedy_is_common(source: Seq<u8>, target: Seq<u8>)
    ensures
        is_common_subsequence(greedy_subsequence(source, target), source, target),
    decreases source.len(),
{
    match closest_match(source, target) {
        Some(p) => {
            assert(is_closest_match(source, target, p));
            let rest_source = source.skip(p.0 + 1);
            let rest_target = target.skip(p.1 + 1);
            lemma_greedy_is_common(rest_source, rest_target);
            let rest = greedy_subsequence(rest_source, rest_target);
            lemma_subsequence_prepend(rest, source, p.0);
            lemma_subsequence_prepend(rest, target, p.1);
        },
        None => {
            let none = Seq::<int>::empty();
            let sub = greedy_subsequence(source, target);
            assert(embeds_within(sub, source, source.len() as int, none));
            assert(embeds_within(sub, target, target.len() as int, none));
        },
    }
}

/// The approximate strategy: a common subsequence of two byte sequences, built
/// greedily from the closest match of what is left of both.
#[derive(Debug, PartialEq, Eq, Clone, Copy, Default)]
pub struct ClosestOffsetSumLcs<'a> {
    source: &'a [u8],
    target: &'a [u8],
}

impl<'a> ClosestOffsetSumLcs<'a> {
    /// An instance over the two given sequences.
    pub fn new(source: &'a [u8], target: &'a [u8]) -> (lcs: Self)
        ensures
            lcs.source_view() == source@,
            lcs.target_view() == target@,
    {
        Self { source, target }
    }

    /// For each byte value, the first position at which `window` holds it, or
    /// `usize::MAX` where it does not occur.
    pub fn first_occurrences(window: &[u8]) -> (table: [usize; 256])
        ensures
            is_first_occurrence_table(table@, window@, window@.len() as int),
    {
        let mut table = [usize::MAX; 256];
        let mut j: usize = 0;
        while j < window.len()
            invariant
                j <= window.len(),
                is_first_occurrence_table(table@, window@, j as int),
            decreases window.len() - j,
        {
            let byte = window[j];
            let slot = byte as usize;
            if table[slot] == usize::MAX {
                table[slot] = j;
            }
            j += 1;
        }
        table
    }

    /// Finds the pair of offsets `(i, j)` with `source[i] == target[j]` whose
    /// sum `i + j` is the smallest; of several pairs with that sum, the one
    /// with the smallest `i`. `None` where the two share no byte value.
    pub fn next_pair_offsets(source: &[u8], target: &[u8]) -> (pair: Option<(usize, usize)>)
        ensures
            pair is None <==> !has_match(source@, target@),
            match pair {
                Some((i, j)) => {
                    &&& is_closest_match(source@, target@, (i as int, j as int))
                    &&& closest_match(source@, target@) == Some((i as int, j as int))
                },
                None => closest_match(source@, target@) is None,
            },
    {
        let first_occurrence_in_target = Self::first_occurrences(target);
        let ghost s = source@;
        let ghost t = target@;
        let mut result: Option<(usize, usize)> = None;
        let mut i: usize = 0;
        while i < source.len()
            invariant_except_break
                i <= source.len(),
                match result {
                    Some((bi, bj)) => {
                        &&& bi < i
                        &&& is_match(s, t, bi as int, bj as int)
                        &&& forall|a: int, b: int| #[trigger]
                            is_match(s, t, a, b) && a < i ==> precedes(
                                (bi as int, bj as int),
                                (a, b),
                            )
                    },
                    None => forall|a: int, b: int| #[trigger] is_match(s, t, a, b) ==> a >= i,
                },
            invariant
                s == source@,
                t == target@,
                is_first_occurrence_table(first_occurrence_in_target@, t, t.len() as int),
            ensures
                match result {
                    Some((bi, bj)) => is_closest_match(s, t, (bi as int, bj as int)),
                    None => !has_match(s, t),
                },
            decreases source.len() - i,
        {
            let byte = source[i];
            let target_idx: usize = first_occurrence_in_target[byte as usize];
            if target_idx != usize::MAX {
                // The sums `i + target_idx` are compared without being formed:
                // the scan only moves forward, so `i` is past the best so far.
                let (best_i, best_j): (usize, usize) = match result {
                    Some((bi, bj)) => if target_idx < bj && i - bi < bj - target_idx {
                        (i, target_idx)
                    } else {
                        (bi, bj)
                    },
                    None => (i, target_idx),
                };
                result = Some((best_i, best_j));
                assert forall|a: int, b: int| #[trigger]
                    is_match(s, t, a, b) && a < i + 1 implies precedes(
                    (best_i as int, best_j as int),
                    (a, b),
                ) by {
                    if a == i {
                        assert(b >= target_idx);
                    }
                }
                // No later source offset can give a smaller sum than the best.
                if i - best_i >= best_j {
                    break ;
                }
            } else {
                assert forall|a: int, b: int| #[trigger] is_match(s, t, a, b) implies a != i by {}
            }
            i += 1;
        }
        proof {
            match result {
                Some((bi, bj)) => {
                    lemma_closest_match_unique(s, t, (bi as int, bj as int));
                },
                None => {
                    lemma_no_match_no_closest(s, t);
                },
            }
        }
        result
    }
}

impl<'a> Lcs<u8> for ClosestOffsetSumLcs<'a> {
    closed spec fn source_view(&self) -> Seq<u8> {
        self.source@
    }

    closed spec fn target_view(&self) -> Seq<u8> {
        self.target@
    }

    open spec fn chosen(&self) -> Seq<u8> {
        greedy_subsequence(self.source_view(), self.target_view())
    }

    proof fn lemma_chosen_is_common(&self) {
        lemma_greedy_is_common(self.source_view(), self.target_view());
    }

    /// Builds the strategy's subsequence: again and again the closest match of
    /// what is left of source and target gives the next byte, and both move on
    /// to just after that match, until nothing matches.
    fn subsequence(&self) -> (out: Vec<u8>) {
        let n = self.source.len();
        let m = self.target.len();
        let ghost s = self.source@;
        let ghost t = self.target@;
        let mut last_source_pair_index: usize = 0;
        let mut last_target_pair_index: usize = 0;
        let mut lcs: Vec<u8> = Vec::new();
        proof {
            assert(s.skip(0) =~= s);
            assert(t.skip(0) =~= t);
            assert(lcs@ + greedy_subsequence(s, t) =~= greedy_subsequence(s, t));
        }
        loop
            invariant
                n == s.len(),
                m == t.len(),
                s == self.source@,
                t == self.target@,
                last_source_pair_index <= n,
                last_target_pair_index <= m,
                greedy_subsequence(s, t) =~= lcs@ + greedy_subsequence(
                    s.skip(last_source_pair_index as int),
                    t.skip(last_target_pair_index as int),
                ),
            ensures
                lcs@ =~= greedy_subsequence(s, t),
            decreases n - last_source_pair_index,
        {
            let rest_of_source = slice_subrange(self.source, last_source_pair_index, n);
            let rest_of_target = slice_subrange(self.target, last_target_pair_index, m);
            let ghost window_source = s.skip(last_source_pair_index as int);
            let ghost window_target = t.skip(last_target_pair_index as int);
            let ghost so_far = lcs@;
            match Self::next_pair_offsets(rest_of_source, rest_of_target) {
                Some((source_pair_offset, target_pair_offset)) => {
                    proof {
                        assert(is_match(
                            window_source,
                            window_target,
                            source_pair_offset as int,
                            target_pair_offset as int,
                        ));
                        assert(window_source.skip(source_pair_offset + 1) =~= s.skip(
                            last_source_pair_index + source_pair_offset + 1,
                        ));
                        assert(window_target.skip(target_pair_offset + 1) =~= t.skip(
                            last_target_pair_index + target_pair_offset + 1,
                        ));
                    }
                    last_source_pair_index += source_pair_offset + 1;
                    last_target_pair_index += target_pair_offset + 1;
                    let byte = self.source[last_source_pair_index - 1];
                    lcs.push(byte);
                    proof {
                        let rest = greedy_subsequence(
                            s.skip(last_source_pair_index as int),
                            t.skip(last_target_pair_index as int),
                        );
                        assert(byte == window_source[source_pair_offset as int]);
                        assert(so_far + (seq![byte] + rest) =~= so_far.push(byte) + rest);
                    }
                },
                None => {
                    assert(lcs@ + Seq::<u8>::empty() =~= lcs@);
                    break ;
                },
            }
        }
        proof {
            self.lemma_chosen_is_common();
        }
        lcs
    }

    /// The number of bytes of `subsequence()`.
    fn len(&self) -> (n: usize) {
        self.subsequence().len()
    }

    /// Whether `subsequence()` is empty.
    fn is_empty(&self) -> (b: bool) {
        self.len() == 0
    }
}

} // verus!
