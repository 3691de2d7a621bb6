//! Sums over tables, and the facts about them that the ledger's proofs use.
use vstd::prelude::*;

verus! {

/// The sum of `f` over the rows of `s`.
pub open spec fn seq_sum<T>(s: Seq<T>, f: spec_fn(T) -> int) -> int
    decreases s.len(),
{
    if s.len() == 0 {
        0
    } else {
        seq_sum(s.drop_last(), f) + f(s.last())
    }
}

/// Summing one more row.
pub proof fn lemma_sum_take_step<T>(s: Seq<T>, f: spec_fn(T) -> int, i: int)
    requires
        0 <= i < s.len(),
    ensures
        seq_sum(s.take(i + 1), f) == seq_sum(s.take(i), f) + f(s[i]),
{
    assert(s.take(i + 1).drop_last() =~= s.take(i));
}

/// The sum over a whole table is the sum over its full prefix.
pub proof fn lemma_sum_take_all<T>(s: Seq<T>, f: spec_fn(T) -> int)
    ensures
        seq_sum(s.take(s.len() as int), f) == seq_sum(s, f),
{
    assert(s.take(s.len() as int) =~= s);
}

/// Appending a row adds its value.
pub proof fn lemma_sum_push<T>(s: Seq<T>, f: spec_fn(T) -> int, x: T)
    ensures
        seq_sum(s.push(x), f) == seq_sum(s, f) + f(x),
{
    assert(s.push(x).drop_last() =~= s);
}

/// Replacing a row changes the sum by the difference.
pub proof fn lemma_sum_update<T>(s: Seq<T>, f: spec_fn(T) -> int, j: int, x: T)
    requires
        0 <= j < s.len(),
    ensures
        seq_sum(s.update(j, x), f) == seq_sum(s, f) - f(s[j]) + f(x),
    decreases s.len(),
{
    if j == s.len() - 1 {
        assert(s.update(j, x).drop_last() =~= s.drop_last());
    } else {
        lemma_sum_update(s.drop_last(), f, j, x);
        assert(s.update(j, x).drop_last() =~= s.drop_last().update(j, x));
    }
}

/// Inserting a row adds its value.
pub proof fn lemma_sum_insert<T>(s: Seq<T>, f: spec_fn(T) -> int, j: int, x: T)
    requires
        0 <= j <= s.len(),
    ensures
        seq_sum(s.insert(j, x), f) == seq_sum(s, f) + f(x),
    decreases s.len(),
{
    if j == s.len() {
        assert(s.insert(j, x) =~= s.push(x));
        lemma_sum_push(s, f, x);
    } else {
        lemma_sum_insert(s.drop_last(), f, j, x);
        assert(s.insert(j, x).drop_last() =~= s.drop_last().insert(j, x));
        assert(s.insert(j, x).last() == s.last());
    }
}

/// Removing a row subtracts its value.
pub proof fn lemma_sum_remove<T>(s: Seq<T>, f: spec_fn(T) -> int, j: int)
    requires
        0 <= j < s.len(),
    ensures
        seq_sum(s.remove(j), f) == seq_sum(s, f) - f(s[j]),
{
    assert(s.remove(j).insert(j, s[j]) =~= s);
    lemma_sum_insert(s.remove(j), f, j, s[j]);
}

/// Tables that agree row by row under `f` and `g` sum alike.
pub proof fn lemma_sum_ext<T>(s: Seq<T>, f: spec_fn(T) -> int, g: spec_fn(T) -> int)
    requires
        forall|k: int| 0 <= k < s.len() ==> #[trigger] f(s[k]) == g(s[k]),
    ensures
        seq_sum(s, f) == seq_sum(s, g),
    decreases s.len(),
{
    if s.len() > 0 {
        lemma_sum_ext(s.drop_last(), f, g);
    }
}

/// Tables of one length whose rows agree under `f` sum alike.
pub proof fn lemma_sum_pointwise<T>(s: Seq<T>, t: Seq<T>, f: spec_fn(T) -> int)
    requires
        s.len() == t.len(),
        forall|k: int| 0 <= k < s.len() ==> f(#[trigger] s[k]) == f(t[k]),
    ensures
        seq_sum(s, f) == seq_sum(t, f),
    decreases s.len(),
{
    if s.len() > 0 {
        lemma_sum_pointwise(s.drop_last(), t.drop_last(), f);
    }
}

/// A sum of terms each within `[lo, hi]` lies within `[n lo, n hi]`.
pub proof fn lemma_sum_bounds<T>(s: Seq<T>, f: spec_fn(T) -> int, lo: int, hi: int)
    requires
        forall|k: int| 0 <= k < s.len() ==> lo <= #[trigger] f(s[k]) <= hi,
    ensures
        s.len() * lo <= seq_sum(s, f) <= s.len() * hi,
    decreases s.len(),
{
    if s.len() > 0 {
        lemma_sum_bounds(s.drop_last(), f, lo, hi);
        assert((s.len() - 1) * lo + lo == s.len() * lo) by (nonlinear_arith);
        assert((s.len() - 1) * hi + hi == s.len() * hi) by (nonlinear_arith);
    }
}

/// A sum of terms that are not negative is at least each of its terms.
pub proof fn lemma_sum_element_le<T>(s: Seq<T>, f: spec_fn(T) -> int, i: int)
    requires
        0 <= i < s.len(),
        forall|k: int| 0 <= k < s.len() ==> 0 <= #[trigger] f(s[k]),
    ensures
        f(s[i]) <= seq_sum(s, f),
    decreases s.len(),
{
    let t = s.drop_last();
    assert forall|k: int| 0 <= k < t.len() implies 0 <= #[trigger] f(t[k]) by {
        assert(t[k] == s[k]);
    }
    if i == s.len() - 1 {
        lemma_sum_nonneg_terms(t, f);
    } else {
        assert(t[i] == s[i]);
        lemma_sum_element_le(t, f, i);
    }
}

/// A sum of terms that are not negative is not negative.
pub proof fn lemma_sum_nonneg_terms<T>(s: Seq<T>, f: spec_fn(T) -> int)
    requires
        forall|k: int| 0 <= k < s.len() ==> 0 <= #[trigger] f(s[k]),
    ensures
        0 <= seq_sum(s, f),
    decreases s.len(),
{
    if s.len() > 0 {
        let t = s.drop_last();
        assert forall|k: int| 0 <= k < t.len() implies 0 <= #[trigger] f(t[k]) by {
            assert(t[k] == s[k]);
        }
        lemma_sum_nonneg_terms(t, f);
    }
}

} // verus!
