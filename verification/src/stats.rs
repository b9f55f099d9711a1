//! Convergence estimator for Monte-Carlo price estimates.
//!
//! The standard error of a set of independent estimates is the sample
//! standard deviation divided by the square root of the sample size; it
//! shrinks like one over that square root as the sample grows.  Fewer
//! than two samples admit no variance estimate, so the standard error is
//! defined as zero there rather than failing.

use crate::fixed::{isqrt_u128, isqrt_v, lemma_u64_mul_fits, sum_prefix};
use vstd::arithmetic::div_mod::{
    lemma_div_is_ordered, lemma_div_multiples_vanish, lemma_div_pos_is_pos,
};
use vstd::prelude::*;

verus! {

/// Largest accepted magnitude of one estimate, in scaled units.
pub const VAL_MAX: u64 = 1_000_000_000_000;

/// Largest accepted number of estimates.
pub const N_MAX: usize = 100_000_000;

/// Mean of the estimates, rounded down.
pub open spec fn mean_v(s: Seq<u64>) -> int
    recommends
        s.len() >= 1,
{
    sum_prefix(s, s.len()) / (s.len() as int)
}

/// Sum of squared deviations of the first `k` estimates from `mu`.
pub open spec fn sq_dev_sum(s: Seq<u64>, mu: int, k: nat) -> int
    decreases k,
{
    if k == 0 {
        0
    } else {
        sq_dev_sum(s, mu, (k - 1) as nat) + (s[k - 1] - mu) * (s[k - 1] - mu)
    }
}

/// The standard error of the mean: the sample variance (with one degree
/// of freedom removed) divided by the sample size, square-rooted; zero
/// when fewer than two estimates are given.
pub open spec fn standard_error_v(s: Seq<u64>) -> int {
    if s.len() <= 1 {
        0
    } else {
        let q = sq_dev_sum(s, mean_v(s), s.len());
        isqrt_v(((q / (s.len() - 1)) / (s.len() as int)) as nat) as int
    }
}

/// Mean of a non-empty set of estimates, rounded down.
pub fn mean_estimate(values: &Vec<u64>) -> (r: u64)
    requires
        values.len() >= 1,
    ensures
        r as int == mean_v(values@),
{
    let n: usize = values.len();
    let mut acc: u128 = 0;
    let mut i: usize = 0;
    while i < n
        invariant
            0 <= i <= n,
            n == values.len(),
            acc == sum_prefix(values@, i as nat),
            acc <= (i as int) * (u64::MAX as int),
        decreases n - i,
    {
        proof {
            assert((i as int) * (u64::MAX as int) + u64::MAX <= (i as int + 1) * (
            u64::MAX as int)) by (nonlinear_arith);
            assert((n as int) * (u64::MAX as int) < u128::MAX) by (nonlinear_arith)
                requires n <= u64::MAX;
        }
        acc = acc + (values[i] as u128);
        i = i + 1;
    }
    proof {
        lemma_div_pos_is_pos(acc as int, n as int);
        lemma_div_is_ordered(acc as int, (n as int) * (u64::MAX as int), n as int);
        lemma_div_multiples_vanish(u64::MAX as int, n as int);
        assert((n as int) * (u64::MAX as int) == (u64::MAX as int) * (n as int))
            by (nonlinear_arith);
    }
    (acc / (n as u128)) as u64
}

/// Standard error of a set of independent estimates.
///
/// Returns zero for fewer than two estimates; otherwise the exact scaled
/// square root of the unbiased sample variance over the sample size.
pub fn monte_carlo_standard_error(values: &Vec<u64>) -> (r: u64)
    requires
        values.len() <= N_MAX,
        forall|i: int| 0 <= i < values.len() ==> #[trigger] values[i] <= VAL_MAX,
    ensures
        r as int == standard_error_v(values@),
        values.len() <= 1 ==> r == 0,
{
    let n: usize = values.len();
    if n <= 1 {
        return 0;
    }
    let mu: u64 = mean_estimate(values);
    proof {
        // The mean of bounded estimates is itself bounded.
        sum_prefix_bound(values@, n as nat);
        lemma_div_is_ordered(
            sum_prefix(values@, n as nat),
            (n as int) * (VAL_MAX as int),
            n as int,
        );
        assert((n as int) * (VAL_MAX as int) == (VAL_MAX as int) * (n as int))
            by (nonlinear_arith);
        lemma_div_multiples_vanish(VAL_MAX as int, n as int);
        lemma_div_pos_is_pos(sum_prefix(values@, n as nat), n as int);
    }
    let mut acc: u128 = 0;
    let mut i: usize = 0;
    while i < n
        invariant
            0 <= i <= n,
            2 <= n <= N_MAX,
            n == values.len(),
            forall|q: int| 0 <= q < values.len() ==> #[trigger] values[q] <= VAL_MAX,
            mu <= VAL_MAX,
            mu as int == mean_v(values@),
            acc == sq_dev_sum(values@, mu as int, i as nat),
            acc <= (i as int) * ((VAL_MAX as int) * (VAL_MAX as int)),
        decreases n - i,
    {
        let x: u64 = values[i];
        let dev: u64 = if x >= mu {
            x - mu
        } else {
            mu - x
        };
        proof {
            lemma_u64_mul_fits(dev as int, dev as int);
            assert((dev as int) * (dev as int) == (x - mu) * (x - mu)) by (nonlinear_arith)
                requires
                    dev as int == if x >= mu { x - mu } else { mu - x };
            assert((dev as int) * (dev as int) <= (VAL_MAX as int) * (VAL_MAX as int))
                by (nonlinear_arith)
                requires 0 <= dev as int <= VAL_MAX as int;
            assert((i as int) * ((VAL_MAX as int) * (VAL_MAX as int)) + (VAL_MAX as int) * (
            VAL_MAX as int) == (i as int + 1) * ((VAL_MAX as int) * (VAL_MAX as int)))
                by (nonlinear_arith);
            assert((N_MAX as int) * ((VAL_MAX as int) * (VAL_MAX as int)) < u128::MAX)
                by (nonlinear_arith)
                requires
                    N_MAX as int == 100_000_000,
                    VAL_MAX as int == 1_000_000_000_000;
            assert((i as int) * ((VAL_MAX as int) * (VAL_MAX as int)) <= (N_MAX as int) * ((
            VAL_MAX as int) * (VAL_MAX as int))) by (nonlinear_arith)
                requires
                    0 <= i as int <= N_MAX as int,
                    0 <= (VAL_MAX as int) * (VAL_MAX as int);
        }
        let sq: u128 = (dev as u128) * (dev as u128);
        acc = acc + sq;
        i = i + 1;
    }
    let q1: u128 = acc / ((n - 1) as u128);
    let q2: u128 = q1 / (n as u128);
    proof {
        lemma_div_pos_is_pos(acc as int, n as int - 1);
        lemma_div_pos_is_pos(q1 as int, n as int);
        vstd::arithmetic::div_mod::lemma_div_is_ordered_by_denominator(acc as int, 1, n as int - 1);
        vstd::arithmetic::div_mod::lemma_div_basics(acc as int);
        vstd::arithmetic::div_mod::lemma_div_is_ordered_by_denominator(q1 as int, 1, n as int);
        vstd::arithmetic::div_mod::lemma_div_basics(q1 as int);
    }
    let root: u128 = isqrt_u128(q2);
    proof {
        assert(root <= u64::MAX) by (nonlinear_arith)
            requires
                root * root <= q2,
                q2 <= (N_MAX as int) * ((VAL_MAX as int) * (VAL_MAX as int)),
                N_MAX as int == 100_000_000,
                VAL_MAX as int == 1_000_000_000_000,
                root >= 0;
    }
    root as u64
}

/// The prefix sums of bounded values are bounded.
proof fn sum_prefix_bound(s: Seq<u64>, k: nat)
    requires
        forall|i: int| 0 <= i < s.len() ==> #[trigger] s[i] <= VAL_MAX,
        k <= s.len(),
    ensures
        sum_prefix(s, k) <= (k as int) * (VAL_MAX as int),
        sum_prefix(s, k) >= 0,
    decreases k,
{
    if k == 0 {
    } else {
        sum_prefix_bound(s, (k - 1) as nat);
        assert((k as int - 1) * (VAL_MAX as int) + VAL_MAX == (k as int) * (VAL_MAX as int))
            by (nonlinear_arith);
    }
}

} // verus!
