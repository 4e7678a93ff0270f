use crate::lcs_trait::{
    embeds_within, is_common_subsequence, is_subsequence_within, lemma_embedding_drop_last,
    lemma_embedding_narrows, lemma_embedding_push, lemma_embedding_widens, Lcs,
};
use vstd::prelude::*;

verus! {

/// The length of a longest common subsequence of the first `i` bytes of
/// `source` and the first `j` bytes of `target`, by the classic recurrence.
pub open spec fn lcs_len(source: Seq<u8>, target: Seq<u8>, i: int, j: int) -> nat
    decreases i + j,
{
    if i <= 0 || j <= 0 {
        0
    } else if source[i - 1] == target[j - 1] {
        lcs_len(source, target, i - 1, j - 1) + 1
    } else if lcs_len(source, target, i - 1, j) >= lcs_len(source, target, i, j - 1) {
        lcs_len(source, target, i - 1, j)
    } else {
        lcs_len(source, target, i, j - 1)
    }
}

/// The subsequence found by walking the table back from `(i, j)`: where the
/// bytes just before the two positions are equal, that byte is the last one
/// of the result and both positions step back; otherwise the walk moves to the
/// neighbour with the larger length, and on a tie it steps back in `source`.
pub open spec fn lcs_walk(source: Seq<u8>, target: Seq<u8>, i: int, j: int) -> Seq<u8>
    decreases i + j,
{
    if i <= 0 || j <= 0 {
        Seq::empty()
    } else if source[i - 1] == target[j - 1] {
        lcs_walk(source, target, i - 1, j - 1).push(source[i - 1])
    } else if lcs_len(source, target, i - 1, j) >= lcs_len(source, target, i, j - 1) {
        lcs_walk(source, target, i - 1, j)
    } else {
        lcs_walk(source, target, i, j - 1)
    }
}

/// The subsequence that the exact strategy yields for two whole sequences.
pub open spec fn exact_subsequence(source: Seq<u8>, target: Seq<u8>) -> Seq<u8> {
    lcs_walk(source, target, source.len() as int, target.len() as int)
}

/// `sub` is a common subsequence of `source` and `target`, and no common
/// subsequence of the two is longer.
pub open spec fn is_longest_common_subsequence(
    sub: Seq<u8>,
    source: Seq<u8>,
    target: Seq<u8>,
) -> bool {
    &&& is_common_subsequence(sub, source, target)
    &&& forall|other: Seq<u8>| #[trigger]
        is_common_subsequence(other, source, target) ==> other.len() <= sub.len()
}

/// `table` holds, for every row up to and including `rows - 1` and every
/// column up to `target.len()`, the length that the recurrence gives.
pub open spec fn table_holds_lengths(
    table: Seq<Vec<usize>>,
    source: Seq<u8>,
    target: Seq<u8>,
    rows: int,
) -> bool {
    &&& table.len() == rows
    &&& forall|r: int| 0 <= r < rows ==> (#[trigger] table[r]).len() == target.len() + 1
    &&& forall|r: int, c: int|
        0 <= r < rows && 0 <= c <= target.len() ==> #[trigger] table[r]@[c] == lcs_len(
            source,
            target,
            r,
            c,
        )
}

/// A common subsequence of two prefixes is no longer than either prefix.
pub proof fn lemma_lcs_len_bounded(source: Seq<u8>, target: Seq<u8>, i: int, j: int)
    requires
        0 <= i,
        0 <= j,
    ensures
        lcs_len(source, target, i, j) <= i,
        lcs_len(source, target, i, j) <= j,
    decreases i + j,
{
    if i > 0 && j > 0 {
        lemma_lcs_len_bounded(source, target, i - 1, j - 1);
        lemma_lcs_len_bounded(source, target, i - 1, j);
        lemma_lcs_len_bounded(source, target, i, j - 1);
    }
}

/// The walk from `(i, j)` yields a common subsequence of the two prefixes, of
/// the length that the recurrence gives.
pub proof fn lemma_walk_is_common(source: Seq<u8>, target: Seq<u8>, i: int, j: int)
    requires
        0 <= i <= source.len(),
        0 <= j <= target.len(),
    ensures
        lcs_walk(source, target, i, j).len() == lcs_len(source, target, i, j),
        is_subsequence_within(lcs_walk(source, target, i, j), source, i),
        is_subsequence_within(lcs_walk(source, target, i, j), target, j),
    decreases i + j,
{
    let walk = lcs_walk(source, target, i, j);
    let pi = i - 1;
    let pj = j - 1;
    if i <= 0 || j <= 0 {
        let none = Seq::<int>::empty();
        assert(embeds_within(walk, source, i, none));
        assert(embeds_within(walk, target, j, none));
    } else if source[i - 1] == target[j - 1] {
        lemma_walk_is_common(source, target, i - 1, j - 1);
        let before = lcs_walk(source, target, i - 1, j - 1);
        let in_source = choose|idx: Seq<int>| embeds_within(before, source, pi, idx);
        let in_target = choose|idx: Seq<int>| embeds_within(before, target, pj, idx);
        lemma_embedding_push(before, source, i - 1, in_source, i - 1);
        lemma_embedding_push(before, target, j - 1, in_target, j - 1);
        assert(embeds_within(walk, source, i, in_source.push(i - 1)));
        assert(embeds_within(walk, target, j, in_target.push(j - 1)));
    } else if lcs_len(source, target, i - 1, j) >= lcs_len(source, target, i, j - 1) {
        lemma_walk_is_common(source, target, i - 1, j);
        let in_source = choose|idx: Seq<int>| embeds_within(walk, source, pi, idx);
        lemma_embedding_widens(walk, source, i - 1, i, in_source);
    } else {
        lemma_walk_is_common(source, target, i, j - 1);
        let in_target = choose|idx: Seq<int>| embeds_within(walk, target, pj, idx);
        lemma_embedding_widens(walk, target, j - 1, j, in_target);
    }
}

/// No common subsequence of the first `i` bytes of `source` and the first `j`
/// bytes of `target` is longer than the recurrence says.
pub proof fn lemma_lcs_len_is_upper_bound(
    sub: Seq<u8>,
    source: Seq<u8>,
    target: Seq<u8>,
    i: int,
    j: int,
)
    requires
        0 <= i <= source.len(),
        0 <= j <= target.len(),
        is_subsequence_within(sub, source, i),
        is_subsequence_within(sub, target, j),
    ensures
        sub.len() <= lcs_len(source, target, i, j),
    decreases i + j,
{
    if sub.len() > 0 {
        let in_source = choose|idx: Seq<int>| embeds_within(sub, source, i, idx);
        let in_target = choose|idx: Seq<int>| embeds_within(sub, target, j, idx);
        let last = sub.len() - 1;
        let last_source = in_source[last];
        let last_target = in_target[last];
        assert(0 <= last_source < i && source[last_source] == sub[last]);
        assert(0 <= last_target < j && target[last_target] == sub[last]);
        if source[i - 1] == target[j - 1] {
            let shorter = sub.drop_last();
            lemma_embedding_drop_last(sub, source, i, in_source);
            lemma_embedding_drop_last(sub, target, j, in_target);
            lemma_embedding_widens(shorter, source, last_source, i - 1, in_source.drop_last());
            lemma_embedding_widens(shorter, target, last_target, j - 1, in_target.drop_last());
            lemma_lcs_len_is_upper_bound(shorter, source, target, i - 1, j - 1);
        } else if last_source < i - 1 {
            lemma_embedding_narrows(sub, source, i, i - 1, in_source);
            lemma_lcs_len_is_upper_bound(sub, source, target, i - 1, j);
        } else {
            assert(last_target < j - 1);
            lemma_embedding_narrows(sub, target, j, j - 1, in_target);
            lemma_lcs_len_is_upper_bound(sub, source, target, i, j - 1);
        }
    }
}

/// The exact strategy's subsequence is a longest common subsequence: it is a
/// common subsequence of the two sequences, and none is longer.
pub proof fn lemma_exact_is_longest(source: Seq<u8>, target: Seq<u8>)
    ensures
        is_longest_common_subsequence(exact_subsequence(source, target), source, target),
        exact_subsequence(source, target).len() == lcs_len(
            source,
            target,
            source.len() as int,
            target.len() as int,
        ),
{
    let n = source.len() as int;
    let m = target.len() as int;
    lemma_walk_is_common(source, target, n, m);
    assert forall|other: Seq<u8>| #[trigger]
        is_common_subsequence(other, source, target) implies other.len() <= exact_subsequence(
        source,
        target,
    ).len() by {
        lemma_lcs_len_is_upper_bound(other, source, target, n, m);
    }
}

/// The exact strategy: a longest common subsequence of two byte sequences,
/// found with the full dynamic-programming table.
#[derive(Debug, Clone, Copy)]
pub struct SlowLcs<'a> {
    source: &'a [u8],
    target: &'a [u8],
}

impl<'a> SlowLcs<'a> {
    /// An instance over the two given sequences.
    pub fn new(source: &'a [u8], target: &'a [u8]) -> (lcs: Self)
        ensures
            lcs.source_view() == source@,
            lcs.target_view() == target@,
    {
        Self { source, target }
    }

    /// The table of the recurrence: entry `[i][j]` is the length of a longest
    /// common subsequence of the first `i` bytes of `source` and the first
    /// `j` bytes of `target`.
    pub fn length_table(source: &[u8], target: &[u8]) -> (table: Vec<Vec<usize>>)
        ensures
            table_holds_lengths(table@, source@, target@, source@.len() as int + 1),
    {
        let n = source.len();
        let m = target.len();
        let ghost s = source@;
        let ghost t = target@;
        let mut first: Vec<usize> = Vec::new();
        first.push(0);
        let mut j: usize = 0;
        while j < m
            invariant
                j <= m,
                first.len() == j + 1,
                forall|c: int| 0 <= c <= j ==> first@[c] == 0,
            decreases m - j,
        {
            first.push(0);
            j += 1;
        }
        let mut table: Vec<Vec<usize>> = Vec::new();
        table.push(first);
        let mut i: usize = 0;
        while i < n
            invariant
                i <= n,
                n == s.len(),
                m == t.len(),
                s == source@,
                t == target@,
                table_holds_lengths(table@, s, t, i + 1),
            decreases n - i,
        {
            let mut row: Vec<usize> = Vec::new();
            row.push(0);
            let mut j: usize = 0;
            while j < m
                invariant
                    i < n,
                    j <= m,
                    n == s.len(),
                    m == t.len(),
                    s == source@,
                    t == target@,
                    table_holds_lengths(table@, s, t, i + 1),
                    row.len() == j + 1,
                    forall|c: int| 0 <= c <= j ==> #[trigger] row@[c] == lcs_len(s, t, i + 1, c),
                decreases m - j,
            {
                proof {
                    lemma_lcs_len_bounded(s, t, i as int, j as int);
                }
                let ghost above = table@[i as int];
                assert(above@[j as int] == lcs_len(s, t, i as int, j as int));
                assert(above@[j + 1] == lcs_len(s, t, i as int, j + 1));
                let entry: usize = if source[i] == target[j] {
                    table[i][j] + 1
                } else {
                    let up: usize = table[i][j + 1];
                    let left: usize = row[j];
                    if up >= left {
                        up
                    } else {
                        left
                    }
                };
                row.push(entry);
                j += 1;
            }
            table.push(row);
            i += 1;
        }
        table
    }
}

impl<'a> Lcs<u8> for SlowLcs<'a> {
    closed spec fn source_view(&self) -> Seq<u8> {
        self.source@
    }

    closed spec fn target_view(&self) -> Seq<u8> {
        self.target@
    }

    open spec fn chosen(&self) -> Seq<u8> {
        exact_subsequence(self.source_view(), self.target_view())
    }

    proof fn lemma_chosen_is_common(&self) {
        lemma_exact_is_longest(self.source_view(), self.target_view());
    }

    /// A longest common subsequence of source and target: the one that the
    /// walk back through the table yields.
    fn subsequence(&self) -> (out: Vec<u8>)
        ensures
            is_longest_common_subsequence(out@, self.source_view(), self.target_view()),
    {
        let n = self.source.len();
        let m = self.target.len();
        let ghost s = self.source@;
        let ghost t = self.target@;
        let table = Self::length_table(self.source, self.target);
        let total: usize = table[n][m];
        let mut out: Vec<u8> = vec![0u8; total];
        let mut i: usize = n;
        let mut j: usize = m;
        let mut pos: usize = total;
        while i > 0 && j > 0
            invariant
                i <= n,
                j <= m,
                n == s.len(),
                m == t.len(),
                s == self.source@,
                t == self.target@,
                table_holds_lengths(table@, s, t, n + 1),
                out.len() == total,
                pos <= total,
                pos == lcs_len(s, t, i as int, j as int),
                exact_subsequence(s, t) =~= lcs_walk(s, t, i as int, j as int) + out@.subrange(
                    pos as int,
                    total as int,
                ),
            decreases i + j,
        {
            let ghost tail = out@.subrange(pos as int, total as int);
            assert(table@[i as int]@[j as int] == lcs_len(s, t, i as int, j as int));
            assert(table@[i - 1]@[j as int] == lcs_len(s, t, i - 1, j as int));
            assert(table@[i as int]@[j - 1] == lcs_len(s, t, i as int, j - 1));
            if self.source[i - 1] == self.target[j - 1] {
                let byte: u8 = self.source[i - 1];
                pos -= 1;
                out.set(pos, byte);
                i -= 1;
                j -= 1;
                assert(out@.subrange(pos as int, total as int) =~= seq![byte] + tail);
                assert(lcs_walk(s, t, i as int, j as int).push(byte) + tail =~= lcs_walk(
                    s,
                    t,
                    i as int,
                    j as int,
                ) + (seq![byte] + tail));
            } else if table[i - 1][j] >= table[i][j - 1] {
                i -= 1;
            } else {
                j -= 1;
            }
        }
        proof {
            assert(pos == 0);
            assert(out@.subrange(0, total as int) =~= out@);
            lemma_exact_is_longest(s, t);
        }
        out
    }

    /// The length of a longest common subsequence, read off the table
    /// without walking back through it.
    fn len(&self) -> (n: usize)
        ensures
            n == lcs_len(
                self.source_view(),
                self.target_view(),
                self.source_view().len() as int,
                self.target_view().len() as int,
            ),
            forall|other: Seq<u8>| #[trigger]
                is_common_subsequence(other, self.source_view(), self.target_view())
                    ==> other.len() <= n,
    {
        let table = Self::length_table(self.source, self.target);
        proof {
            lemma_exact_is_longest(self.source@, self.target@);
        }
        table[self.source.len()][self.target.len()]
    }
}

} // verus!
