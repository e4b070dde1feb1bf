//! The aggregation function: arithmetic mean of the collected values.
//!
//! Values are fixed-point scalars (ten-thousandths) carried as `i64`.  The
//! mean is the Euclidean quotient of the exact sum by the number of values.

use vstd::arithmetic::div_mod::{
    lemma_div_is_ordered, lemma_div_multiples_vanish, lemma_fundamental_div_mod,
    lemma_fundamental_div_mod_converse, lemma_mod_bound,
};
use vstd::arithmetic::mul::lemma_mul_inequality;
use vstd::prelude::*;

verus! {

/// Exact sum of a sequence of fixed-point values, as an unbounded integer.
pub open spec fn spec_sum(s: Seq<i64>) -> int
    decreases s.len(),
{
    if s.len() == 0 {
        0
    } else {
        spec_sum(s.drop_last()) + s.last()
    }
}

/// Arithmetic mean of a non-empty sequence: the Euclidean quotient of the
/// sum by the length.
pub open spec fn spec_mean(s: Seq<i64>) -> int
    recommends
        s.len() > 0,
{
    spec_sum(s) / s.len() as int
}

/// The aggregate of a round: no value for an empty collection, otherwise
/// the arithmetic mean.
pub open spec fn spec_aggregate(s: Seq<i64>) -> Option<int> {
    if s.len() == 0 {
        None
    } else {
        Some(spec_mean(s))
    }
}

/// The sum of `n` values, each within `i64` range, lies between
/// `n * i64::MIN` and `n * i64::MAX`.
pub proof fn lemma_sum_bounds(s: Seq<i64>)
    ensures
        s.len() * (i64::MIN as int) <= spec_sum(s) <= s.len() * (i64::MAX as int),
    decreases s.len(),
{
    if s.len() == 0 {
    } else {
        lemma_sum_bounds(s.drop_last());
        assert((s.len() - 1) * (i64::MIN as int) + i64::MIN == s.len() * (i64::MIN as int))
            by (nonlinear_arith);
        assert((s.len() - 1) * (i64::MAX as int) + i64::MAX == s.len() * (i64::MAX as int))
            by (nonlinear_arith);
    }
}

/// The mean of a non-empty sequence of `i64` values is itself within
/// `i64` range.
pub proof fn lemma_mean_in_range(s: Seq<i64>)
    requires
        s.len() > 0,
    ensures
        i64::MIN <= spec_mean(s) <= i64::MAX,
{
    let n = s.len() as int;
    lemma_sum_bounds(s);
    lemma_div_is_ordered(n * (i64::MIN as int), spec_sum(s), n);
    lemma_div_is_ordered(spec_sum(s), n * (i64::MAX as int), n);
    lemma_div_multiples_vanish(i64::MIN as int, n);
    lemma_div_multiples_vanish(i64::MAX as int, n);
}

/// Arithmetic mean of a collection of fixed-point values.  Returns `None`
/// exactly when the collection is empty (never divides by zero).
pub fn calculate_average(values: &Vec<i64>) -> (r: Option<i64>)
    ensures
        r is Some <==> values@.len() > 0,
        r matches Some(m) ==> m == spec_mean(values@),
{
    let n = values.len();
    if n == 0 {
        return None;
    }
    let mut sum: i128 = 0;
    let mut i: usize = 0;
    proof {
        // the running sum always fits in i128: |sum| <= n * 2^63 < 2^127
        assert(n * (i64::MAX as int) <= 0xffff_ffff_ffff_ffff * (i64::MAX as int)) by {
            lemma_mul_inequality(n as int, 0xffff_ffff_ffff_ffff, i64::MAX as int);
        }
        assert(0xffff_ffff_ffff_ffff * (i64::MIN as int) <= n * (i64::MIN as int)) by {
            lemma_mul_inequality(n as int, 0xffff_ffff_ffff_ffff, -(i64::MIN as int));
        }
    }
    while i < n
        invariant
            0 < n == values@.len(),
            0 <= i <= n,
            sum == spec_sum(values@.take(i as int)),
            n * (i64::MAX as int) <= 0xffff_ffff_ffff_ffff * (i64::MAX as int),
            0xffff_ffff_ffff_ffff * (i64::MIN as int) <= n * (i64::MIN as int),
        decreases n - i,
    {
        proof {
            let t = values@.take(i as int + 1);
            lemma_sum_bounds(t);
            assert(t.drop_last() =~= values@.take(i as int));
            assert(t.last() == values@[i as int]);
            lemma_mul_inequality(t.len() as int, n as int, i64::MAX as int);
            lemma_mul_inequality(t.len() as int, n as int, -(i64::MIN as int));
        }
        sum = sum + (values[i] as i128);
        i = i + 1;
    }
    proof {
        assert(values@.take(n as int) =~= values@);
        lemma_sum_bounds(values@);
        lemma_mean_in_range(values@);
    }
    let divisor: u128 = n as u128;
    let nn: Ghost<int> = Ghost(n as int);
    if sum >= 0 {
        let qq: u128 = (sum as u128) / divisor;
        proof {
            assert(qq == spec_sum(values@) / nn@);
            assert(qq <= i64::MAX as u128);
        }
        Some(qq as i64)
    } else {
        let neg: u128 = (-sum) as u128;
        let qq: u128 = (neg + divisor - 1) / divisor;
        proof {
            let a = sum as int;
            let rr = (neg as int + nn@ - 1) % nn@;
            lemma_fundamental_div_mod(neg as int + nn@ - 1, nn@);
            lemma_mod_bound(neg as int + nn@ - 1, nn@);
            assert(a == nn@ * (-(qq as int)) + (nn@ - 1 - rr)) by (nonlinear_arith)
                requires
                    neg as int == -a,
                    neg as int + nn@ - 1 == nn@ * (qq as int) + rr,
            ;
            lemma_fundamental_div_mod_converse(a, nn@, -(qq as int), nn@ - 1 - rr);
            assert(-(qq as int) == spec_mean(values@));
            assert(qq as int <= -(i64::MIN as int));
        }
        Some((-(qq as i128)) as i64)
    }
}

} // verus!
