//! Sums over sequences of integers, and what a change to one member does to
//! the sum.

use vstd::prelude::*;

verus! {

/// The sum of all members.
pub open spec fn sum(s: Seq<int>) -> int
    decreases s.len(),
{
    if s.len() == 0 {
        0
    } else {
        sum(s.drop_last()) + s.last()
    }
}

/// A member more adds itself to the sum.
pub proof fn lemma_sum_push(s: Seq<int>, v: int)
    ensures
        sum(s.push(v)) == sum(s) + v,
{
    assert(s.push(v).drop_last() =~= s);
}

/// A changed member changes the sum by as much as it changed.
pub proof fn lemma_sum_update(s: Seq<int>, i: int, v: int)
    requires
        0 <= i < s.len(),
    ensures
        sum(s.update(i, v)) == sum(s) - s[i] + v,
    decreases s.len(),
{
    let t = s.update(i, v);
    if i == s.len() - 1 {
        assert(t.drop_last() =~= s.drop_last());
    } else {
        lemma_sum_update(s.drop_last(), i, v);
        assert(t.drop_last() =~= s.drop_last().update(i, v));
    }
}

/// Where no member is negative, the sum is not negative, and no member is
/// greater than the sum.
pub proof fn lemma_sum_bounds(s: Seq<int>)
    requires
        forall|i: int| 0 <= i < s.len() ==> s[i] >= 0,
    ensures
        sum(s) >= 0,
        forall|i: int| 0 <= i < s.len() ==> s[i] <= sum(s),
    decreases s.len(),
{
    if s.len() > 0 {
        lemma_sum_bounds(s.drop_last());
        assert forall|i: int| 0 <= i < s.len() implies s[i] <= sum(s) by {
            if i < s.len() - 1 {
                assert(s.drop_last()[i] == s[i]);
            }
        }
    }
}

/// A sum of zeros is zero.
pub proof fn lemma_sum_zeros(s: Seq<int>)
    requires
        forall|i: int| 0 <= i < s.len() ==> s[i] == 0,
    ensures
        sum(s) == 0,
    decreases s.len(),
{
    if s.len() > 0 {
        lemma_sum_zeros(s.drop_last());
    }
}

/// The sum of `a[i] + q * b[i]` is the sum of `a` plus `q` times the sum of
/// `b`.
pub proof fn lemma_sum_linear(a: Seq<int>, b: Seq<int>, q: int, c: Seq<int>)
    requires
        a.len() == b.len(),
        a.len() == c.len(),
        forall|i: int| 0 <= i < c.len() ==> c[i] == a[i] + q * b[i],
    ensures
        sum(c) == sum(a) + q * sum(b),
    decreases c.len(),
{
    if c.len() == 0 {
        assert(q * 0 == 0);
    } else {
        lemma_sum_linear(a.drop_last(), b.drop_last(), q, c.drop_last());
        let (x, y) = (sum(b.drop_last()), b.last());
        assert(q * (x + y) == q * x + q * y) by (nonlinear_arith);
    }
}

} // verus!
