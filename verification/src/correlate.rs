//! Correlated pairs of standard-normal deviates.
//!
//! Given two independent deviate streams, the second correlated stream is
//! built as `Z2 = rho * Z1 + sqrt(1 - rho^2) * Z2_independent`, the 2x2
//! Cholesky factorization of the unit correlation matrix.  The correlation
//! is a scaled value in `[-SCALE, SCALE]`; anything outside that range is
//! rejected before any computation.

use crate::fixed::{
    abs_i64, abs_v, fmul, fmul_v, fsqrt, isqrt_v, lemma_fmul_le_left, lemma_fmul_mono,
    lemma_isqrt_bounds, lemma_tmul_abs, tmul_checked, tmul_v, SCALE,
};
use crate::PricingError;
use vstd::prelude::*;

verus! {

/// Largest magnitude accepted for a standard-normal deviate, in scaled
/// units: one thousand standard deviations, far beyond anything a quantile
/// function produces.
pub const Z_MAX: i64 = 1_000_000_000;

/// The scaled value of `rho^2`.
pub open spec fn rho_sq_v(rho: int) -> int {
    fmul_v(abs_v(rho), abs_v(rho))
}

/// The scaled value of `sqrt(1 - rho^2)`.
pub open spec fn sqrt_term_v(rho: int) -> int
    recommends
        abs_v(rho) <= SCALE,
{
    isqrt_v((((SCALE as int) - rho_sq_v(rho)) * (SCALE as int)) as nat) as int
}

/// The second deviate of a correlated pair.
pub open spec fn correlated_v(rho: int, z1: int, z2_independent: int) -> int {
    tmul_v(rho, z1) + tmul_v(sqrt_term_v(rho), z2_independent)
}

/// A deviate within the accepted magnitude.
pub open spec fn z_ok(z: i64) -> bool {
    abs_v(z as int) <= Z_MAX
}

/// Scaled `sqrt(1 - rho^2)`, the lower-triangular Cholesky entry.
pub fn sqrt_term(rho: i64) -> (r: u64)
    requires
        abs_v(rho as int) <= SCALE,
    ensures
        r == sqrt_term_v(rho as int),
        r <= SCALE,
{
    let rm: u64 = abs_i64(rho);
    proof {
        lemma_fmul_le_left(rm as int, rm as int);
    }
    let rr: u64 = fmul(rm, rm);
    let root: u64 = fsqrt(SCALE - rr);
    proof {
        let s = SCALE as int;
        let q = rho_sq_v(rho as int);
        assert(q == rr as int);
        let argi = (s - q) * s;
        assert(0 <= argi && argi <= s * s) by (nonlinear_arith)
            requires
                argi == (s - q) * s,
                0 <= q <= s;
        lemma_isqrt_bounds(argi as nat);
        let rt = isqrt_v(argi as nat) as int;
        assert(rt <= s) by (nonlinear_arith)
            requires
                rt * rt <= argi,
                argi <= s * s,
                rt >= 0,
                s > 0;
    }
    root
}

/// Build the correlated second stream from two independent streams.
///
/// Rejects a correlation outside `[-SCALE, SCALE]` or streams of unequal
/// length; otherwise returns exactly the Cholesky combination of each
/// pair.
pub fn correlated_pairs(rho: i64, z1: &Vec<i64>, z2_independent: &Vec<i64>) -> (r: Result<
    Vec<i64>,
    PricingError,
>)
    requires
        forall|k: int| 0 <= k < z1.len() ==> z_ok(#[trigger] z1[k]),
        forall|k: int| 0 <= k < z2_independent.len() ==> z_ok(#[trigger] z2_independent[k]),
    ensures
        r is Ok <==> (abs_v(rho as int) <= SCALE && z1.len() == z2_independent.len()),
        r is Err ==> r == Err::<Vec<i64>, PricingError>(PricingError::InvalidParameter),
        r matches Ok(z2) ==> {
            &&& z2.len() == z1.len()
            &&& forall|k: int|
                0 <= k < z1.len() ==> #[trigger] z2[k] as int == correlated_v(
                    rho as int,
                    z1[k] as int,
                    z2_independent[k] as int,
                )
        },
{
    if rho > SCALE as i64 || rho < -(SCALE as i64) {
        return Err(PricingError::InvalidParameter);
    }
    if z1.len() != z2_independent.len() {
        return Err(PricingError::InvalidParameter);
    }
    let st: u64 = sqrt_term(rho);
    let n: usize = z1.len();
    let mut out: Vec<i64> = Vec::new();
    let mut k: usize = 0;
    while k < n
        invariant
            0 <= k <= n,
            n == z1.len(),
            n == z2_independent.len(),
            abs_v(rho as int) <= SCALE,
            st == sqrt_term_v(rho as int),
            st <= SCALE,
            forall|q: int| 0 <= q < n ==> z_ok(#[trigger] z1[q]),
            forall|q: int| 0 <= q < n ==> z_ok(#[trigger] z2_independent[q]),
            out.len() == k,
            forall|q: int|
                0 <= q < k ==> #[trigger] out[q] as int == correlated_v(
                    rho as int,
                    z1[q] as int,
                    z2_independent[q] as int,
                ),
        decreases n - k,
    {
        let a: i64 = z1[k];
        let b: i64 = z2_independent[k];
        proof {
            lemma_tmul_abs(rho as int, a as int);
            lemma_tmul_abs(st as int, b as int);
            lemma_fmul_mono(abs_v(rho as int), abs_v(a as int), SCALE as int, Z_MAX as int);
            lemma_fmul_mono(abs_v(st as int), abs_v(b as int), SCALE as int, Z_MAX as int);
            vstd::arithmetic::div_mod::lemma_div_multiples_vanish(Z_MAX as int, SCALE as int);
            assert((SCALE as int) * (Z_MAX as int) == (Z_MAX as int) * (SCALE as int))
                by (nonlinear_arith);
        }
        let t1: i64 = match tmul_checked(rho, a) {
            Some(v) => v,
            None => {
                proof {
                    assert(false);
                }
                return Err(PricingError::InvalidParameter);
            },
        };
        let t2: i64 = match tmul_checked(st as i64, b) {
            Some(v) => v,
            None => {
                proof {
                    assert(false);
                }
                return Err(PricingError::InvalidParameter);
            },
        };
        out.push(t1 + t2);
        k = k + 1;
    }
    Ok(out)
}

} // verus!
