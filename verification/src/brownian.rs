//! Brownian-motion path generator.
//!
//! A path is the running sum of increments `sqrt(dt) * Z` over an equally
//! spaced grid, starting at zero.  The caller supplies the standard-normal
//! deviates; this module performs the exact scaled accumulation, including
//! the antithetic pair built from the negated deviates, whose mirror
//! property is proved below.

use crate::correlate::z_ok;
use crate::fixed::{
    abs_v, fmul_v, isqrt_v, lemma_fmul_mono, lemma_isqrt_bounds, lemma_tmul_abs, lemma_tmul_neg,
    tmul_checked, tmul_v, SCALE,
};
use crate::grid::{dt_v, grid_dt, grid_sqrt_dt, time_grid, MAX_GRID_STEPS};
use crate::PricingError;
use vstd::prelude::*;

verus! {

/// A Brownian path generator over an equally spaced time grid.
#[derive(Clone, Copy, Debug, PartialEq, Eq, Structural)]
pub struct BrownianMotion {
    pub time_horizon: u64,
    pub num_steps: usize,
}

/// The scaled square root of the step width.
pub open spec fn sd_v(time_horizon: u64, num_steps: usize) -> int {
    isqrt_v((dt_v(time_horizon, num_steps) * SCALE) as nat) as int
}

/// One accumulation step: add the scaled increment, or report that the
/// value left the symmetric representable range.
pub open spec fn bm_next(w: i64, sd: int, z: i64) -> Option<i64> {
    let w2 = w + tmul_v(sd, z as int);
    if abs_v(w2) <= i64::MAX {
        Some(w2 as i64)
    } else {
        None
    }
}

/// Path value after `k` increments, starting at zero.
pub open spec fn bm_value(sd: int, z: Seq<i64>, k: nat) -> Option<i64>
    decreases k,
{
    if k == 0 {
        Some(0)
    } else {
        match bm_value(sd, z, (k - 1) as nat) {
            None => None,
            Some(w) => bm_next(w, sd, z[k - 1]),
        }
    }
}

/// Every prefix value up to `n` is representable.
pub open spec fn bm_all_ok(sd: int, z: Seq<i64>, n: nat) -> bool {
    forall|k: nat| k <= n ==> (#[trigger] bm_value(sd, z, k)) is Some
}

/// Pointwise negation of an optional value.
pub open spec fn neg_opt(o: Option<i64>) -> Option<i64> {
    match o {
        None => None,
        Some(w) => Some((-(w as int)) as i64),
    }
}

/// Antithetic mirror: the path driven by the negated deviates is the
/// pointwise negation of the original path, overflow behaviour included.
pub proof fn lemma_antithetic_mirror(sd: int, z1: Seq<i64>, z2: Seq<i64>, k: nat)
    requires
        z2.len() == z1.len(),
        k <= z1.len(),
        forall|q: int| 0 <= q < z1.len() ==> #[trigger] z2[q] as int == -(z1[q] as int),
        forall|q: int| 0 <= q < z1.len() ==> z_ok(#[trigger] z1[q]),
    ensures
        bm_value(sd, z2, k) == neg_opt(bm_value(sd, z1, k)),
        bm_value(sd, z1, k) matches Some(w) ==> abs_v(w as int) <= i64::MAX,
    decreases k,
{
    if k == 0 {
    } else {
        lemma_antithetic_mirror(sd, z1, z2, (k - 1) as nat);
        match bm_value(sd, z1, (k - 1) as nat) {
            None => {},
            Some(w) => {
                lemma_tmul_neg(sd, z1[k - 1] as int);
                assert(z2[k - 1] as int == -(z1[k - 1] as int));
            },
        }
    }
}

impl BrownianMotion {
    /// Validity of the grid: a positive horizon and a supported step count.
    pub open spec fn wf(self) -> bool {
        &&& self.time_horizon >= 1
        &&& 1 <= self.num_steps <= MAX_GRID_STEPS
    }

    /// Create a path generator; rejects a non-positive horizon or an
    /// unsupported step count.
    pub fn new(time_horizon: u64, num_steps: usize) -> (r: Result<Self, PricingError>)
        ensures
            r is Ok <==> (time_horizon >= 1 && 1 <= num_steps <= MAX_GRID_STEPS),
            r matches Ok(b) ==> b == (BrownianMotion { time_horizon, num_steps }) && b.wf(),
            r is Err ==> r == Err::<BrownianMotion, PricingError>(PricingError::InvalidParameter),
    {
        if time_horizon >= 1 && num_steps >= 1 && num_steps <= MAX_GRID_STEPS {
            Ok(BrownianMotion { time_horizon, num_steps })
        } else {
            Err(PricingError::InvalidParameter)
        }
    }

    /// Step width of the grid.
    pub fn dt(&self) -> (r: u64)
        requires
            self.wf(),
        ensures
            r == dt_v(self.time_horizon, self.num_steps),
    {
        grid_dt(self.time_horizon, self.num_steps)
    }

    /// The grid points.
    pub fn time_grid(&self) -> (r: Vec<u64>)
        requires
            self.wf(),
        ensures
            r.len() == self.num_steps + 1,
            forall|i: int|
                0 <= i <= self.num_steps ==> #[trigger] r[i] as int == i * dt_v(
                    self.time_horizon,
                    self.num_steps,
                ),
    {
        time_grid(self.time_horizon, self.num_steps)
    }

    /// The horizon.
    pub fn get_time_horizon(&self) -> (r: u64)
        ensures
            r == self.time_horizon,
    {
        self.time_horizon
    }

    /// The step count.
    pub fn get_num_steps(&self) -> (r: usize)
        ensures
            r == self.num_steps,
    {
        self.num_steps
    }

    /// Accumulate one path from the given deviates.
    ///
    /// Rejects a deviate count different from the step count; reports
    /// overflow exactly when some running sum leaves the representable
    /// range; otherwise the result starts at zero and follows the scaled
    /// recurrence exactly.
    pub fn generate_path(&self, z: &Vec<i64>) -> (r: Result<Vec<i64>, PricingError>)
        requires
            self.wf(),
            forall|q: int| 0 <= q < z.len() ==> z_ok(#[trigger] z[q]),
        ensures
            z.len() != self.num_steps ==> r == Err::<Vec<i64>, PricingError>(
                PricingError::InvalidParameter,
            ),
            z.len() == self.num_steps ==> {
                let sd = sd_v(self.time_horizon, self.num_steps);
                &&& (r is Ok <==> bm_all_ok(sd, z@, self.num_steps as nat))
                &&& (r matches Ok(p) ==> p.len() == self.num_steps + 1 && forall|k: nat|
                    k <= self.num_steps ==> #[trigger] bm_value(sd, z@, k) == Some(p[k as int]))
                &&& (r is Err ==> r == Err::<Vec<i64>, PricingError>(PricingError::Overflow))
            },
    {
        if z.len() != self.num_steps {
            return Err(PricingError::InvalidParameter);
        }
        let n: usize = self.num_steps;
        let sd: u64 = grid_sqrt_dt(self.time_horizon, n);
        proof {
            lemma_isqrt_bounds((dt_v(self.time_horizon, n) * SCALE) as nat);
            assert(sd as int <= 0x4_0000_0000_0000) by (nonlinear_arith)
                requires
                    (sd as int) * (sd as int) <= dt_v(self.time_horizon, n) * (SCALE as int),
                    dt_v(self.time_horizon, n) <= u64::MAX,
                    SCALE as int == 1_000_000,
                    sd as int >= 0;
        }
        let mut out: Vec<i64> = Vec::new();
        out.push(0);
        let mut w: i64 = 0;
        let mut k: usize = 0;
        while k < n
            invariant
                0 <= k <= n,
                n == self.num_steps,
                n == z.len(),
                self.wf(),
                sd as int == sd_v(self.time_horizon, self.num_steps),
                sd <= 0x4_0000_0000_0000,
                forall|q: int| 0 <= q < z.len() ==> z_ok(#[trigger] z[q]),
                out.len() == k + 1,
                forall|j: nat|
                    j <= k ==> #[trigger] bm_value(sd as int, z@, j) == Some(out[j as int]),
                bm_value(sd as int, z@, k as nat) == Some(w),
            decreases n - k,
        {
            proof {
                lemma_tmul_abs(sd as int, z[k as int] as int);
                lemma_fmul_mono(
                    abs_v(sd as int),
                    abs_v(z[k as int] as int),
                    0x4_0000_0000_0000,
                    crate::correlate::Z_MAX as int,
                );
                assert(fmul_v(0x4_0000_0000_0000, crate::correlate::Z_MAX as int) < i64::MAX);
            }
            let t: i64 = match tmul_checked(sd as i64, z[k]) {
                Some(v) => v,
                None => {
                    proof {
                        assert(false);
                    }
                    return Err(PricingError::Overflow);
                },
            };
            let wide: i128 = (w as i128) + (t as i128);
            if wide > i64::MAX as i128 || wide < -(i64::MAX as i128) {
                proof {
                    assert(bm_value(sd as int, z@, (k + 1) as nat) is None);
                    assert(!bm_all_ok(sd as int, z@, self.num_steps as nat)) by {
                        if bm_all_ok(sd as int, z@, self.num_steps as nat) {
                            assert(bm_value(sd as int, z@, (k + 1) as nat) is Some);
                        }
                    }
                }
                return Err(PricingError::Overflow);
            }
            w = wide as i64;
            out.push(w);
            k = k + 1;
        }
        proof {
            assert forall|j: nat| j <= self.num_steps implies (#[trigger] bm_value(
                sd as int,
                z@,
                j,
            )) is Some by {
                assert(bm_value(sd as int, z@, j) == Some(out[j as int]));
            }
        }
        Ok(out)
    }

    /// The antithetic pair: the path of the given deviates and the path of
    /// their negation, for variance reduction by averaging.
    pub fn generate_antithetic_paths(&self, z: &Vec<i64>) -> (r: Result<
        (Vec<i64>, Vec<i64>),
        PricingError,
    >)
        requires
            self.wf(),
            forall|q: int| 0 <= q < z.len() ==> z_ok(#[trigger] z[q]),
        ensures
            z.len() != self.num_steps ==> r == Err::<(Vec<i64>, Vec<i64>), PricingError>(
                PricingError::InvalidParameter,
            ),
            z.len() == self.num_steps ==> {
                let sd = sd_v(self.time_horizon, self.num_steps);
                &&& (r is Ok <==> bm_all_ok(sd, z@, self.num_steps as nat))
                &&& (r is Err ==> r == Err::<(Vec<i64>, Vec<i64>), PricingError>(
                    PricingError::Overflow,
                ))
                &&& (r matches Ok(pair) ==> {
                    &&& pair.0.len() == self.num_steps + 1
                    &&& pair.1.len() == self.num_steps + 1
                    &&& forall|k: nat|
                        k <= self.num_steps ==> #[trigger] bm_value(sd, z@, k) == Some(
                            pair.0[k as int],
                        )
                    &&& forall|k: nat|
                        k <= self.num_steps ==> #[trigger] pair.1[k as int] as int == -(
                        pair.0[k as int] as int)
                })
            },
    {
        if z.len() != self.num_steps {
            return Err(PricingError::InvalidParameter);
        }
        let n: usize = self.num_steps;
        let mut zneg: Vec<i64> = Vec::new();
        let mut k: usize = 0;
        while k < n
            invariant
                0 <= k <= n,
                n == z.len(),
                forall|q: int| 0 <= q < z.len() ==> z_ok(#[trigger] z[q]),
                zneg.len() == k,
                forall|q: int| 0 <= q < k ==> #[trigger] zneg[q] as int == -(z[q] as int),
                forall|q: int| 0 <= q < k ==> z_ok(#[trigger] zneg[q]),
            decreases n - k,
        {
            zneg.push(-z[k]);
            k = k + 1;
        }
        let first = self.generate_path(z);
        let second = self.generate_path(&zneg);
        match (first, second) {
            (Ok(p1), Ok(p2)) => {
                proof {
                    let sd = sd_v(self.time_horizon, self.num_steps);
                    assert forall|j: nat| j <= self.num_steps implies #[trigger] p2[j as int]
                        as int == -(p1[j as int] as int) by {
                        lemma_antithetic_mirror(sd, z@, zneg@, j);
                        assert(bm_value(sd, z@, j) == Some(p1[j as int]));
                        assert(bm_value(sd, zneg@, j) == Some(p2[j as int]));
                    }
                }
                Ok((p1, p2))
            },
            (Ok(_), Err(e)) => {
                proof {
                    let sd = sd_v(self.time_horizon, self.num_steps);
                    assert forall|k: nat| k <= self.num_steps implies (#[trigger] bm_value(
                        sd,
                        zneg@,
                        k,
                    )) is Some by {
                        lemma_antithetic_mirror(sd, z@, zneg@, k);
                        assert(bm_value(sd, z@, k) is Some);
                    }
                    assert(false);
                }
                Err(e)
            },
            (Err(e), _) => Err(e),
        }
    }
}

} // verus!
