//! Weighted sums over sequences, and how they change under `push` and
//! `update`. The pool invariants of the settlement engine are stated as such
//! sums.

use vstd::prelude::*;

verus! {

/// The sum of `f` over all elements of `s`.
pub open spec fn sum_by<T>(s: Seq<T>, f: spec_fn(T) -> int) -> int
    decreases s.len(),
{
    if s.len() == 0 {
        0
    } else {
        sum_by(s.drop_last(), f) + f(s.last())
    }
}

/// Appending an element adds its weight to the sum.
pub proof fn lemma_sum_by_push<T>(s: Seq<T>, x: T, f: spec_fn(T) -> int)
    ensures
        sum_by(s.push(x), f) == sum_by(s, f) + f(x),
{
    assert(s.push(x).drop_last() =~= s);
}

/// Replacing the element at `i` shifts the sum by the difference of weights.
pub proof fn lemma_sum_by_update<T>(s: Seq<T>, i: int, x: T, f: spec_fn(T) -> int)
    requires
        0 <= i < s.len(),
    ensures
        sum_by(s.update(i, x), f) == sum_by(s, f) - f(s[i]) + f(x),
    decreases s.len(),
{
    if i == s.len() - 1 {
        assert(s.update(i, x).drop_last() =~= s.drop_last());
    } else {
        assert(s.update(i, x).drop_last() =~= s.drop_last().update(i, x));
        lemma_sum_by_update(s.drop_last(), i, x, f);
    }
}

/// A sum of all-zero weights is zero.
pub proof fn lemma_sum_by_all_zero<T>(s: Seq<T>, f: spec_fn(T) -> int)
    requires
        forall|k: int| 0 <= k < s.len() ==> f(#[trigger] s[k]) == 0,
    ensures
        sum_by(s, f) == 0,
    decreases s.len(),
{
    if s.len() > 0 {
        assert(s.last() == s[s.len() - 1]);
        lemma_sum_by_all_zero(s.drop_last(), f);
    }
}

/// Pointwise-equal weights give equal sums.
pub proof fn lemma_sum_by_congruence<T>(s: Seq<T>, f1: spec_fn(T) -> int, f2: spec_fn(T) -> int)
    requires
        forall|k: int| 0 <= k < s.len() ==> f1(#[trigger] s[k]) == f2(s[k]),
    ensures
        sum_by(s, f1) == sum_by(s, f2),
    decreases s.len(),
{
    if s.len() > 0 {
        assert(s.last() == s[s.len() - 1]);
        lemma_sum_by_congruence(s.drop_last(), f1, f2);
    }
}

/// Weights that differ at one position alone shift the sum by exactly the
/// difference there.
pub proof fn lemma_sum_by_single_delta<T>(
    s: Seq<T>,
    f1: spec_fn(T) -> int,
    f2: spec_fn(T) -> int,
    j: int,
)
    requires
        0 <= j < s.len(),
        forall|k: int| 0 <= k < s.len() && k != j ==> f1(#[trigger] s[k]) == f2(s[k]),
    ensures
        sum_by(s, f1) - sum_by(s, f2) == f1(s[j]) - f2(s[j]),
    decreases s.len(),
{
    assert(s.last() == s[s.len() - 1]);
    if j == s.len() - 1 {
        lemma_sum_by_congruence(s.drop_last(), f1, f2);
    } else {
        lemma_sum_by_single_delta(s.drop_last(), f1, f2, j);
    }
}

/// Pointwise-bounded weights give bounded sums.
pub proof fn lemma_sum_by_le<T>(s: Seq<T>, f: spec_fn(T) -> int, g: spec_fn(T) -> int)
    requires
        forall|k: int| 0 <= k < s.len() ==> f(#[trigger] s[k]) <= g(s[k]),
    ensures
        sum_by(s, f) <= sum_by(s, g),
    decreases s.len(),
{
    if s.len() > 0 {
        assert(s.last() == s[s.len() - 1]);
        lemma_sum_by_le(s.drop_last(), f, g);
    }
}

/// A sum of non-negative weights is non-negative.
pub proof fn lemma_sum_by_nonneg<T>(s: Seq<T>, f: spec_fn(T) -> int)
    requires
        forall|t: T| #[trigger] f(t) >= 0,
    ensures
        sum_by(s, f) >= 0,
    decreases s.len(),
{
    if s.len() > 0 {
        lemma_sum_by_nonneg(s.drop_last(), f);
    }
}

/// Every single weight is bounded by the sum, when all weights are
/// non-negative.
pub proof fn lemma_sum_by_bounds_element<T>(s: Seq<T>, i: int, f: spec_fn(T) -> int)
    requires
        forall|t: T| #[trigger] f(t) >= 0,
        0 <= i < s.len(),
    ensures
        f(s[i]) <= sum_by(s, f),
    decreases s.len(),
{
    if i == s.len() - 1 {
        lemma_sum_by_nonneg(s.drop_last(), f);
    } else {
        lemma_sum_by_bounds_element(s.drop_last(), i, f);
    }
}

} // verus!
