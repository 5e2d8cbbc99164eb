//! Sums over sequences of machine integers, and their bounds.

use vstd::prelude::*;

verus! {

/// The mathematical sum of a sequence of `u64` values.
pub open spec fn sum_of(s: Seq<u64>) -> int
    decreases s.len(),
{
    if s.len() == 0 {
        0
    } else {
        sum_of(s.drop_last()) + s.last()
    }
}

pub proof fn lemma_sum_of_push(s: Seq<u64>, x: u64)
    ensures
        sum_of(s.push(x)) == sum_of(s) + x,
{
    assert(s.push(x).drop_last() =~= s);
}

/// A sum of `u64` values is bounded by the length times the largest value.
pub proof fn lemma_sum_of_bounds(s: Seq<u64>)
    ensures
        0 <= sum_of(s) <= s.len() * u64::MAX,
    decreases s.len(),
{
    if s.len() > 0 {
        lemma_sum_of_bounds(s.drop_last());
        assert((s.len() - 1) * u64::MAX + u64::MAX == s.len() * u64::MAX) by (nonlinear_arith);
    }
}

/// Sum a vector of `u64` values.
///
/// The total must fit in `u64`; the caller owes that bound.
pub fn sum_u64(values: &Vec<u64>) -> (r: u64)
    requires
        sum_of(values@) <= u64::MAX,
    ensures
        r == sum_of(values@),
{
    let mut total: u64 = 0;
    let mut i: usize = 0;
    while i < values.len()
        invariant
            i <= values@.len(),
            total == sum_of(values@.subrange(0, i as int)),
            sum_of(values@) <= u64::MAX,
        decreases values@.len() - i,
    {
        proof {
            assert(values@.subrange(0, i + 1).drop_last() =~= values@.subrange(0, i as int));
            lemma_sum_prefix_le(values@, i + 1);
        }
        total = total + values[i];
        i = i + 1;
    }
    proof {
        assert(values@.subrange(0, values@.len() as int) =~= values@);
    }
    total
}

/// A prefix sum of non-negative values is at most the whole sum.
pub proof fn lemma_sum_prefix_le(s: Seq<u64>, n: int)
    requires
        0 <= n <= s.len(),
    ensures
        sum_of(s.subrange(0, n)) <= sum_of(s),
    decreases s.len() - n,
{
    if n < s.len() {
        lemma_sum_prefix_le(s, n + 1);
        assert(s.subrange(0, n + 1).drop_last() =~= s.subrange(0, n));
        assert(sum_of(s.subrange(0, n)) <= sum_of(s.subrange(0, n + 1)));
    } else {
        assert(s.subrange(0, n) =~= s);
    }
}

} // verus!
