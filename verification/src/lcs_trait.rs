use vstd::prelude::*;

verus! {

/// `idx` embeds `sub` into the first `bound` positions of `full`: the indices
/// are strictly increasing, lie below `bound`, and pick out exactly the
/// elements of `sub`, in order.
pub open spec fn embeds_within<T>(sub: Seq<T>, full: Seq<T>, bound: int, idx: Seq<int>) -> bool {
    &&& idx.len() == sub.len()
    &&& bound <= full.len()
    &&& forall|k: int|
        0 <= k < idx.len() ==> 0 <= #[trigger] idx[k] < bound && full[idx[k]] == sub[k]
    &&& forall|k: int, l: int| 0 <= k < l < idx.len() ==> idx[k] < idx[l]
}

/// `sub` can be obtained from the first `bound` elements of `full` by deleting
/// elements without reordering the rest.
pub open spec fn is_subsequence_within<T>(sub: Seq<T>, full: Seq<T>, bound: int) -> bool {
    exists|idx: Seq<int>| embeds_within(sub, full, bound, idx)
}

/// `sub` can be obtained from `full` by deleting elements without reordering
/// the rest: some strictly increasing index sequence into `full` reproduces it.
pub open spec fn is_subsequence_of<T>(sub: Seq<T>, full: Seq<T>) -> bool {
    is_subsequence_within(sub, full, full.len() as int)
}

/// `sub` is a subsequence of both `source` and `target`.
pub open spec fn is_common_subsequence<T>(sub: Seq<T>, source: Seq<T>, target: Seq<T>) -> bool {
    is_subsequence_of(sub, source) && is_subsequence_of(sub, target)
}

/// Position `i` of `source` and position `j` of `target` hold the same element.
pub open spec fn is_match<T>(source: Seq<T>, target: Seq<T>, i: int, j: int) -> bool {
    0 <= i < source.len() && 0 <= j < target.len() && source[i] == target[j]
}

/// The two sequences share at least one element value.
pub open spec fn has_match<T>(source: Seq<T>, target: Seq<T>) -> bool {
    exists|i: int, j: int| is_match(source, target, i, j)
}

/// An embedding below `bound` is also an embedding below any larger bound.
pub proof fn lemma_embedding_widens<T>(
    sub: Seq<T>,
    full: Seq<T>,
    bound: int,
    wider: int,
    idx: Seq<int>,
)
    requires
        embeds_within(sub, full, bound, idx),
        bound <= wider <= full.len(),
    ensures
        embeds_within(sub, full, wider, idx),
{
}

/// An embedding whose last index lies below `tighter` is an embedding below
/// `tighter`.
pub proof fn lemma_embedding_narrows<T>(
    sub: Seq<T>,
    full: Seq<T>,
    bound: int,
    tighter: int,
    idx: Seq<int>,
)
    requires
        embeds_within(sub, full, bound, idx),
        tighter <= bound,
        sub.len() > 0 ==> idx[idx.len() - 1] < tighter,
    ensures
        embeds_within(sub, full, tighter, idx),
{
    assert forall|k: int| 0 <= k < idx.len() implies 0 <= #[trigger] idx[k] < tighter && full[idx[k]]
        == sub[k] by {
        if k < idx.len() - 1 {
            assert(idx[k] < idx[idx.len() - 1]);
        }
    }
}

/// Dropping the last element of an embedded sequence leaves a sequence that
/// embeds strictly below the position of that last element.
pub proof fn lemma_embedding_drop_last<T>(sub: Seq<T>, full: Seq<T>, bound: int, idx: Seq<int>)
    requires
        embeds_within(sub, full, bound, idx),
        sub.len() > 0,
    ensures
        embeds_within(sub.drop_last(), full, idx[idx.len() - 1], idx.drop_last()),
{
    let last = idx[idx.len() - 1];
    let shorter = idx.drop_last();
    assert forall|k: int| 0 <= k < shorter.len() implies 0 <= #[trigger] shorter[k] < last
        && full[shorter[k]] == sub.drop_last()[k] by {
        assert(shorter[k] == idx[k]);
        assert(idx[k] < idx[idx.len() - 1]);
    }
    assert forall|k: int, l: int| 0 <= k < l < shorter.len() implies shorter[k] < shorter[l] by {
        assert(shorter[k] == idx[k] && shorter[l] == idx[l]);
    }
}

/// Appending one more matching position to an embedding gives an embedding of
/// the extended sequence.
pub proof fn lemma_embedding_push<T>(sub: Seq<T>, full: Seq<T>, bound: int, idx: Seq<int>, at: int)
    requires
        embeds_within(sub, full, bound, idx),
        0 <= at < full.len(),
        bound <= at,
    ensures
        embeds_within(sub.push(full[at]), full, at + 1, idx.push(at)),
{
    let longer = idx.push(at);
    let grown = sub.push(full[at]);
    assert forall|k: int| 0 <= k < longer.len() implies 0 <= #[trigger] longer[k] < at + 1
        && full[longer[k]] == grown[k] by {
        if k < idx.len() {
            assert(longer[k] == idx[k]);
        }
    }
    assert forall|k: int, l: int| 0 <= k < l < longer.len() implies longer[k] < longer[l] by {
        assert(longer[k] == idx[k]);
        if l < idx.len() {
            assert(longer[l] == idx[l]);
        }
    }
}

/// Putting the element at position `at` in front of a subsequence of what
/// follows position `at` gives a subsequence of the whole.
pub proof fn lemma_subsequence_prepend<T>(sub: Seq<T>, full: Seq<T>, at: int)
    requires
        0 <= at < full.len(),
        is_subsequence_of(sub, full.skip(at + 1)),
    ensures
        is_subsequence_of(seq![full[at]] + sub, full),
{
    let rest = full.skip(at + 1);
    let idx = choose|idx: Seq<int>| embeds_within(sub, rest, rest.len() as int, idx);
    let grown = seq![full[at]] + sub;
    let shifted = Seq::new(
        sub.len() + 1,
        |n: int|
            if n == 0 {
                at
            } else {
                idx[n - 1] + at + 1
            },
    );
    assert forall|k: int| 0 <= k < shifted.len() implies 0 <= #[trigger] shifted[k] < full.len()
        && full[shifted[k]] == grown[k] by {
        if k > 0 {
            assert(0 <= idx[k - 1] < rest.len());
            assert(rest[idx[k - 1]] == sub[k - 1]);
        }
    }
    assert forall|k: int, l: int| 0 <= k < l < shifted.len() implies shifted[k] < shifted[l] by {
        assert(0 <= idx[l - 1]);
        if k > 0 {
            assert(idx[k - 1] < idx[l - 1]);
        }
    }
    assert(embeds_within(grown, full, full.len() as int, shifted));
}

/// A common subsequence of two sequences that share no element value is empty.
/// In particular this holds when either sequence is empty.
pub proof fn lemma_common_subsequence_needs_match<T>(sub: Seq<T>, source: Seq<T>, target: Seq<T>)
    requires
        is_common_subsequence(sub, source, target),
        !has_match(source, target),
    ensures
        sub.len() == 0,
{
    if sub.len() > 0 {
        let in_source = choose|idx: Seq<int>| embeds_within(sub, source, source.len() as int, idx);
        let in_target = choose|idx: Seq<int>| embeds_within(sub, target, target.len() as int, idx);
        assert(source[in_source[0]] == sub[0]);
        assert(target[in_target[0]] == sub[0]);
        assert(is_match(source, target, in_source[0], in_target[0]));
    }
}

/// The capability shared by every strategy: it is built over a source and a
/// target sequence and yields one common subsequence of the two.
pub trait Lcs<Item> {
    /// The source sequence this instance was built over.
    spec fn source_view(&self) -> Seq<Item>;

    /// The target sequence this instance was built over.
    spec fn target_view(&self) -> Seq<Item>;

    /// The subsequence this strategy yields for its two sequences. It depends
    /// on nothing but the two sequences, so every call yields the same one.
    spec fn chosen(&self) -> Seq<Item>;

    /// What the strategy yields is a common subsequence of its two sequences.
    proof fn lemma_chosen_is_common(&self)
        ensures
            is_common_subsequence(self.chosen(), self.source_view(), self.target_view()),
    ;

    /// Computes the strategy's common subsequence of source and target.
    fn subsequence(&self) -> (out: Vec<Item>)
        ensures
            out@ == self.chosen(),
            is_common_subsequence(out@, self.source_view(), self.target_view()),
    ;

    /// The number of elements of `subsequence()`.
    fn len(&self) -> (n: usize) where Self: Sized
        ensures
            n == self.chosen().len(),
    {
        self.subsequence().len()
    }

    /// Whether `subsequence()` is empty.
    fn is_empty(&self) -> (b: bool) where Self: Sized
        ensures
            b == (self.chosen().len() == 0),
    {
        self.len() == 0
    }
}

} // verus!
