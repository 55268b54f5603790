//! Sums over integer sequences and over worklists of slot indices,
//! with the lemmas the construction proof needs.

use vstd::prelude::*;

verus! {

/// Sum of a sequence of integers.
pub open spec fn sum_int(s: Seq<int>) -> int
    decreases s.len(),
{
    if s.len() == 0 {
        0
    } else {
        sum_int(s.drop_last()) + s.last()
    }
}

/// Extending a prefix by one element adds that element to the prefix sum.
pub proof fn lemma_sum_int_take_step(s: Seq<int>, k: int)
    requires
        0 <= k < s.len(),
    ensures
        sum_int(s.take(k + 1)) == sum_int(s.take(k)) + s[k],
{
    assert(s.take(k + 1).drop_last() =~= s.take(k));
    assert(s.take(k + 1).last() == s[k]);
}

/// A sum of nonnegative values is nonnegative.
pub proof fn lemma_sum_int_nonneg(s: Seq<int>)
    requires
        forall|i: int| 0 <= i < s.len() ==> s[i] >= 0,
    ensures
        sum_int(s) >= 0,
    decreases s.len(),
{
    if s.len() > 0 {
        lemma_sum_int_nonneg(s.drop_last());
    }
}

/// With nonnegative values, a prefix sum never exceeds the full sum.
pub proof fn lemma_sum_int_take_le(s: Seq<int>, m: int)
    requires
        forall|i: int| 0 <= i < s.len() ==> s[i] >= 0,
        0 <= m <= s.len(),
    ensures
        sum_int(s.take(m)) <= sum_int(s),
    decreases s.len() - m,
{
    if m == s.len() {
        assert(s.take(m) =~= s);
    } else {
        lemma_sum_int_take_step(s, m);
        lemma_sum_int_take_le(s, m + 1);
    }
}

/// With nonnegative values, each element is at most the sum.
pub proof fn lemma_sum_int_element(s: Seq<int>, j: int)
    requires
        forall|i: int| 0 <= i < s.len() ==> s[i] >= 0,
        0 <= j < s.len(),
    ensures
        s[j] <= sum_int(s),
    decreases s.len(),
{
    if j == s.len() - 1 {
        lemma_sum_int_nonneg(s.drop_last());
    } else {
        lemma_sum_int_element(s.drop_last(), j);
    }
}

/// Scaling every element scales the sum.
pub proof fn lemma_sum_int_scale(s: Seq<int>, k: int)
    ensures
        sum_int(s.map(|i: int, x: int| k * x)) == k * sum_int(s),
    decreases s.len(),
{
    let scaled = s.map(|i: int, x: int| k * x);
    if s.len() == 0 {
        assert(k * 0 == 0) by (nonlinear_arith);
    } else {
        lemma_sum_int_scale(s.drop_last(), k);
        assert(scaled.drop_last() =~= s.drop_last().map(|i: int, x: int| k * x));
        assert(scaled.last() == k * s.last());
        assert(k * (sum_int(s.drop_last()) + s.last()) == k * sum_int(s.drop_last()) + k * s.last())
            by (nonlinear_arith);
    }
}

/// Whether the index `i` occurs in the worklist `s`.
pub open spec fn in_idx(s: Seq<usize>, i: int) -> bool {
    exists|m: int| 0 <= m < s.len() && s[m] as int == i
}

/// Pushing an index onto a worklist adds exactly that index to its members.
pub proof fn lemma_in_idx_push(s: Seq<usize>, x: usize, i: int)
    ensures
        in_idx(s.push(x), i) <==> (in_idx(s, i) || i == x as int),
{
    let s2 = s.push(x);
    if i == x as int {
        assert(s2[s.len() as int] as int == i);
    }
    if in_idx(s, i) {
        let m = choose|m: int| 0 <= m < s.len() && s[m] as int == i;
        assert(s2[m] as int == i);
    }
    if in_idx(s2, i) && i != x as int {
        let m = choose|m: int| 0 <= m < s2.len() && s2[m] as int == i;
        assert(m < s.len());
        assert(s[m] as int == i);
    }
}

/// Popping the last index from a duplicate-free worklist removes exactly
/// that index from its members.
pub proof fn lemma_in_idx_drop_last(s: Seq<usize>, i: int)
    requires
        s.len() > 0,
        forall|a: int, b: int| 0 <= a < b < s.len() ==> s[a] != s[b],
    ensures
        in_idx(s.drop_last(), i) <==> (in_idx(s, i) && i != s.last() as int),
{
    let r = s.drop_last();
    if in_idx(r, i) {
        let m = choose|m: int| 0 <= m < r.len() && r[m] as int == i;
        assert(s[m] as int == i);
        assert(s[m] != s[s.len() - 1]);
    }
    if in_idx(s, i) && i != s.last() as int {
        let m = choose|m: int| 0 <= m < s.len() && s[m] as int == i;
        assert(m != s.len() - 1);
        assert(r[m] as int == i);
    }
}

/// Sum of `prob` over the indices listed in `s`.
pub open spec fn sum_at(s: Seq<usize>, prob: Seq<u64>) -> int
    decreases s.len(),
{
    if s.len() == 0 {
        0
    } else {
        sum_at(s.drop_last(), prob) + prob[s.last() as int]
    }
}

/// The sum over a worklist reads `prob` only at the listed indices.
pub proof fn lemma_sum_at_agree(s: Seq<usize>, p1: Seq<u64>, p2: Seq<u64>)
    requires
        forall|m: int| 0 <= m < s.len() ==> p1[s[m] as int] == p2[s[m] as int],
    ensures
        sum_at(s, p1) == sum_at(s, p2),
    decreases s.len(),
{
    if s.len() > 0 {
        lemma_sum_at_agree(s.drop_last(), p1, p2);
    }
}

/// A lower bound on each listed value bounds the sum from below.
pub proof fn lemma_sum_at_ge(s: Seq<usize>, prob: Seq<u64>, t: int)
    requires
        forall|m: int| 0 <= m < s.len() ==> prob[s[m] as int] >= t,
    ensures
        sum_at(s, prob) >= s.len() * t,
    decreases s.len(),
{
    if s.len() == 0 {
        assert(0 * t == 0) by (nonlinear_arith);
    } else {
        lemma_sum_at_ge(s.drop_last(), prob, t);
        assert(s.len() * t == (s.len() - 1) * t + t) by (nonlinear_arith);
    }
}

/// A strict upper bound on each listed value bounds the sum from above.
pub proof fn lemma_sum_at_le(s: Seq<usize>, prob: Seq<u64>, t: int)
    requires
        forall|m: int| 0 <= m < s.len() ==> prob[s[m] as int] <= t,
    ensures
        sum_at(s, prob) <= s.len() * t,
    decreases s.len(),
{
    if s.len() == 0 {
        assert(0 * t == 0) by (nonlinear_arith);
    } else {
        lemma_sum_at_le(s.drop_last(), prob, t);
        assert(s.len() * t == (s.len() - 1) * t + t) by (nonlinear_arith);
    }
}

/// If every listed value is at least `t` and the sum is exactly the count
/// times `t`, then every listed value is exactly `t`.
pub proof fn lemma_sum_at_all_eq(s: Seq<usize>, prob: Seq<u64>, t: int)
    requires
        forall|m: int| 0 <= m < s.len() ==> prob[s[m] as int] >= t,
        sum_at(s, prob) == s.len() * t,
    ensures
        forall|m: int| 0 <= m < s.len() ==> prob[s[m] as int] == t,
    decreases s.len(),
{
    if s.len() > 0 {
        let rest = s.drop_last();
        lemma_sum_at_ge(rest, prob, t);
        assert(s.len() * t == (s.len() - 1) * t + t) by (nonlinear_arith);
        assert(prob[s.last() as int] == t);
        assert(sum_at(rest, prob) == rest.len() * t);
        lemma_sum_at_all_eq(rest, prob, t);
        assert forall|m: int| 0 <= m < s.len() implies prob[s[m] as int] == t by {
            if m < s.len() - 1 {
                assert(rest[m] == s[m]);
            }
        }
    }
}

} // verus!
