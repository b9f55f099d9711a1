//! Stochastic-volatility price paths (Euler-Maruyama with absorption).
//!
//! Two coupled state variables evolve per step: the variance follows a
//! mean-reverting square-root process and the price diffuses with the
//! current variance, driven by a correlated pair of deviates.  The
//! variance (and the price) is floored at zero before and after every
//! update, so it can never go negative; the mean-reversion stability
//! condition is reported as a non-fatal flag rather than an error.  The
//! caller supplies the two independent deviate streams; the correlation
//! is applied inside with the verified Cholesky combination.

use crate::correlate::{correlated_pairs, correlated_v, z_ok};
use crate::fixed::{abs_v, add_i64_checked, addc_v, fsqrt, isqrt_v, tmul_checked, tmulc_v, SCALE};
use crate::grid::{dt_v, grid_dt, grid_sqrt_dt, time_grid, MAX_GRID_STEPS};
use crate::PricingError;
use vstd::prelude::*;

verus! {

/// A stochastic-volatility path generator.
///
/// All fields are scaled fixed-point values: `initial_variance` is the
/// starting variance, `kappa` the mean-reversion speed, `theta` the
/// long-run variance, `vol_of_vol` the volatility of the variance and
/// `correlation` the (signed) correlation of the two driving noises.
#[derive(Clone, Copy, Debug, PartialEq, Eq, Structural)]
pub struct HestonProcess {
    pub spot: u64,
    pub initial_variance: u64,
    pub drift: i64,
    pub kappa: u64,
    pub theta: u64,
    pub vol_of_vol: u64,
    pub correlation: i64,
    pub time_horizon: u64,
    pub num_steps: usize,
}

/// One Euler step of the two coupled state variables, or a report that a
/// value left the representable range.  The variance is used as floored,
/// updated, floored again; the price uses the pre-update variance and is
/// floored at zero, exactly as the discretization prescribes.
pub open spec fn hstep(
    p: HestonProcess,
    dt: i64,
    sd: i64,
    s: u64,
    v: u64,
    z1: i64,
    z2: i64,
) -> Option<(u64, u64)> {
    if s > i64::MAX || v > i64::MAX {
        None
    } else {
        let sqrt_v = isqrt_v((v * SCALE) as nat) as i64;
        match tmulc_v(p.kappa as i64, ((p.theta - v) as i64)) {
            None => None,
            Some(t1) => match tmulc_v(t1, dt) {
                None => None,
                Some(rev) => match tmulc_v(p.vol_of_vol as i64, sqrt_v) {
                    None => None,
                    Some(u1) => match tmulc_v(u1, sd) {
                        None => None,
                        Some(u2) => match tmulc_v(u2, z2) {
                            None => None,
                            Some(shock_v) => match addc_v(rev, shock_v) {
                                None => None,
                                Some(dv) => match tmulc_v(p.drift, s as i64) {
                                    None => None,
                                    Some(w1) => match tmulc_v(w1, dt) {
                                        None => None,
                                        Some(grow) => match tmulc_v(sqrt_v, s as i64) {
                                            None => None,
                                            Some(x1) => match tmulc_v(x1, sd) {
                                                None => None,
                                                Some(x2) => match tmulc_v(x2, z1) {
                                                    None => None,
                                                    Some(shock_s) => match addc_v(
                                                        grow,
                                                        shock_s,
                                                    ) {
                                                        None => None,
                                                        Some(ds) => {
                                                            let v2 = if v + dv >= 0 {
                                                                (v + dv) as u64
                                                            } else {
                                                                0
                                                            };
                                                            let s2 = if s + ds >= 0 {
                                                                (s + ds) as u64
                                                            } else {
                                                                0
                                                            };
                                                            Some((s2, v2))
                                                        },
                                                    },
                                                },
                                            },
                                        },
                                    },
                                },
                            },
                        },
                    },
                },
            },
        }
    }
}

/// The correlated second deviate of step `k`, from the two independent
/// streams.
pub open spec fn zc_at(p: HestonProcess, z1: Seq<i64>, z2i: Seq<i64>, k: int) -> i64 {
    correlated_v(p.correlation as int, z1[k] as int, z2i[k] as int) as i64
}

/// State (price, variance) after `k` Euler steps.
pub open spec fn hstate(
    p: HestonProcess,
    dt: i64,
    sd: i64,
    z1: Seq<i64>,
    z2i: Seq<i64>,
    k: nat,
) -> Option<(u64, u64)>
    decreases k,
{
    if k == 0 {
        Some((p.spot, p.initial_variance))
    } else {
        match hstate(p, dt, sd, z1, z2i, (k - 1) as nat) {
            None => None,
            Some(sv) => hstep(p, dt, sd, sv.0, sv.1, z1[k - 1], zc_at(p, z1, z2i, k - 1)),
        }
    }
}

/// Every state up to `n` is representable.
pub open spec fn h_all_ok(
    p: HestonProcess,
    dt: i64,
    sd: i64,
    z1: Seq<i64>,
    z2i: Seq<i64>,
    n: nat,
) -> bool {
    forall|k: nat| k <= n ==> (#[trigger] hstate(p, dt, sd, z1, z2i, k)) is Some
}

/// Absorption at zero, as the discretization guarantees it: whatever the
/// parameters and the draws, every reachable state has a non-negative
/// variance and a non-negative price.
pub proof fn lemma_variance_absorbed(
    p: HestonProcess,
    dt: i64,
    sd: i64,
    z1: Seq<i64>,
    z2i: Seq<i64>,
    k: nat,
)
    ensures
        hstate(p, dt, sd, z1, z2i, k) matches Some(sv) ==> sv.1 >= 0 && sv.0 >= 0,
{
}

impl HestonProcess {
    /// Validity of the parameters: positive spot, horizon, reversion
    /// speed and step count, a correlation within `[-SCALE, SCALE]`, and
    /// magnitudes within the signed fixed-point range.
    pub open spec fn wf(self) -> bool {
        &&& 1 <= self.spot <= i64::MAX
        &&& self.initial_variance <= i64::MAX
        &&& 1 <= self.kappa <= i64::MAX
        &&& self.theta <= i64::MAX
        &&& self.vol_of_vol <= i64::MAX
        &&& abs_v(self.correlation as int) <= SCALE
        &&& 1 <= self.time_horizon <= i64::MAX
        &&& 1 <= self.num_steps <= MAX_GRID_STEPS
    }

    /// Create a path generator; rejects parameters outside [`Self::wf`].
    pub fn new(
        spot: u64,
        initial_variance: u64,
        drift: i64,
        kappa: u64,
        theta: u64,
        vol_of_vol: u64,
        correlation: i64,
        time_horizon: u64,
        num_steps: usize,
    ) -> (r: Result<Self, PricingError>)
        ensures
            r matches Ok(p) ==> p == (HestonProcess {
                spot,
                initial_variance,
                drift,
                kappa,
                theta,
                vol_of_vol,
                correlation,
                time_horizon,
                num_steps,
            }) && p.wf(),
            r is Ok <==> (HestonProcess {
                spot,
                initial_variance,
                drift,
                kappa,
                theta,
                vol_of_vol,
                correlation,
                time_horizon,
                num_steps,
            }).wf(),
            r is Err ==> r == Err::<HestonProcess, PricingError>(PricingError::InvalidParameter),
    {
        let limit: u64 = i64::MAX as u64;
        if spot >= 1 && spot <= limit && initial_variance <= limit && kappa >= 1 && kappa <= limit
            && theta <= limit && vol_of_vol <= limit && correlation <= SCALE as i64 && correlation
            >= -(SCALE as i64) && time_horizon >= 1 && time_horizon <= limit && num_steps >= 1
            && num_steps <= MAX_GRID_STEPS {
            Ok(
                HestonProcess {
                    spot,
                    initial_variance,
                    drift,
                    kappa,
                    theta,
                    vol_of_vol,
                    correlation,
                    time_horizon,
                    num_steps,
                },
            )
        } else {
            Err(PricingError::InvalidParameter)
        }
    }

    /// Whether the mean-reversion stability condition `2 kappa theta >=
    /// vol_of_vol^2` holds.  When it does not, the variance process leans
    /// on the absorption floor; this is advisory, never an error.
    pub fn feller_ok(&self) -> (r: bool)
        ensures
            r == (2 * (self.kappa as int) * (self.theta as int) >= (self.vol_of_vol as int) * (
            self.vol_of_vol as int)),
    {
        proof {
            crate::fixed::lemma_u64_mul_fits(self.kappa as int, self.theta as int);
            crate::fixed::lemma_u64_mul_fits(self.vol_of_vol as int, self.vol_of_vol as int);
            assert(2 * (self.kappa as int) * (self.theta as int) == 2 * ((self.kappa as int) * (
            self.theta as int))) by (nonlinear_arith);
        }
        let lhs: u128 = (self.kappa as u128) * (self.theta as u128);
        let rhs: u128 = (self.vol_of_vol as u128) * (self.vol_of_vol as u128);
        if lhs >= rhs {
            true
        } else {
            lhs >= rhs - lhs
        }
    }

    /// Step width of the grid.
    pub fn dt(&self) -> (r: u64)
        requires
            self.wf(),
        ensures
            r == dt_v(self.time_horizon, self.num_steps),
    {
        grid_dt(self.time_horizon, self.num_steps)
    }

    /// The grid points.
    pub fn time_grid(&self) -> (r: Vec<u64>)
        requires
            self.wf(),
        ensures
            r.len() == self.num_steps + 1,
            forall|i: int|
                0 <= i <= self.num_steps ==> #[trigger] r[i] as int == i * dt_v(
                    self.time_horizon,
                    self.num_steps,
                ),
    {
        time_grid(self.time_horizon, self.num_steps)
    }

    /// Advance one Euler step.
    fn step(&self, dt: i64, sd: i64, s: u64, v: u64, z1: i64, z2: i64) -> (r: Option<(u64, u64)>)
        requires
            self.wf(),
        ensures
            r == hstep(*self, dt, sd, s, v, z1, z2),
    {
        if s > i64::MAX as u64 || v > i64::MAX as u64 {
            return None;
        }
        let sqrt_v_u: u64 = fsqrt(v);
        proof {
            crate::fixed::lemma_isqrt_bounds((v * SCALE) as nat);
            assert(sqrt_v_u as int <= 0x4_0000_0000_0000) by (nonlinear_arith)
                requires
                    (sqrt_v_u as int) * (sqrt_v_u as int) <= (v as int) * (SCALE as int),
                    v <= u64::MAX,
                    SCALE as int == 1_000_000,
                    sqrt_v_u as int >= 0;
        }
        let sqrt_v: i64 = sqrt_v_u as i64;
        let t1: i64 = match tmul_checked(self.kappa as i64, (self.theta as i64) - (v as i64)) {
            Some(x) => x,
            None => {
                return None;
            },
        };
        let rev: i64 = match tmul_checked(t1, dt) {
            Some(x) => x,
            None => {
                return None;
            },
        };
        let u1: i64 = match tmul_checked(self.vol_of_vol as i64, sqrt_v) {
            Some(x) => x,
            None => {
                return None;
            },
        };
        let u2: i64 = match tmul_checked(u1, sd) {
            Some(x) => x,
            None => {
                return None;
            },
        };
        let shock_v: i64 = match tmul_checked(u2, z2) {
            Some(x) => x,
            None => {
                return None;
            },
        };
        let dv: i64 = match add_i64_checked(rev, shock_v) {
            Some(x) => x,
            None => {
                return None;
            },
        };
        let w1: i64 = match tmul_checked(self.drift, s as i64) {
            Some(x) => x,
            None => {
                return None;
            },
        };
        let grow: i64 = match tmul_checked(w1, dt) {
            Some(x) => x,
            None => {
                return None;
            },
        };
        let x1: i64 = match tmul_checked(sqrt_v, s as i64) {
            Some(x) => x,
            None => {
                return None;
            },
        };
        let x2: i64 = match tmul_checked(x1, sd) {
            Some(x) => x,
            None => {
                return None;
            },
        };
        let shock_s: i64 = match tmul_checked(x2, z1) {
            Some(x) => x,
            None => {
                return None;
            },
        };
        let ds: i64 = match add_i64_checked(grow, shock_s) {
            Some(x) => x,
            None => {
                return None;
            },
        };
        let v_wide: i128 = (v as i128) + (dv as i128);
        let v2: u64 = if v_wide >= 0 {
            v_wide as u64
        } else {
            0
        };
        let s_wide: i128 = (s as i128) + (ds as i128);
        let s2: u64 = if s_wide >= 0 {
            s_wide as u64
        } else {
            0
        };
        Some((s2, v2))
    }

    /// Generate one path of prices and variances from two independent
    /// deviate streams.
    ///
    /// Rejects streams whose length differs from the step count; reports
    /// overflow exactly when some state leaves the representable range;
    /// otherwise both sequences have `num_steps + 1` entries, start at the
    /// spot and the initial variance, and follow the Euler recurrence with
    /// the correlated draws exactly.  Every variance on the path is
    /// non-negative.
    pub fn generate_path(&self, z1: &Vec<i64>, z2_independent: &Vec<i64>) -> (r: Result<
        (Vec<u64>, Vec<u64>),
        PricingError,
    >)
        requires
            self.wf(),
            forall|q: int| 0 <= q < z1.len() ==> z_ok(#[trigger] z1[q]),
            forall|q: int| 0 <= q < z2_independent.len() ==> z_ok(#[trigger] z2_independent[q]),
        ensures
            (z1.len() != self.num_steps || z2_independent.len() != self.num_steps) ==> r == Err::<
                (Vec<u64>, Vec<u64>),
                PricingError,
            >(PricingError::InvalidParameter),
            (z1.len() == self.num_steps && z2_independent.len() == self.num_steps) ==> {
                let dt = dt_v(self.time_horizon, self.num_steps) as i64;
                let sd = isqrt_v((dt_v(self.time_horizon, self.num_steps) * SCALE) as nat) as i64;
                &&& (r is Ok <==> h_all_ok(
                    *self,
                    dt,
                    sd,
                    z1@,
                    z2_independent@,
                    self.num_steps as nat,
                ))
                &&& (r matches Ok(pair) ==> {
                    &&& pair.0.len() == self.num_steps + 1
                    &&& pair.1.len() == self.num_steps + 1
                    &&& forall|k: nat|
                        k <= self.num_steps ==> #[trigger] hstate(
                            *self,
                            dt,
                            sd,
                            z1@,
                            z2_independent@,
                            k,
                        ) == Some((pair.0[k as int], pair.1[k as int]))
                    &&& forall|k: int| 0 <= k <= self.num_steps ==> #[trigger] pair.1[k] >= 0
                })
                &&& (r is Err ==> r == Err::<(Vec<u64>, Vec<u64>), PricingError>(
                    PricingError::Overflow,
                ))
            },
    {
        if z1.len() != self.num_steps || z2_independent.len() != self.num_steps {
            return Err(PricingError::InvalidParameter);
        }
        let n: usize = self.num_steps;
        let zc: Vec<i64> = match correlated_pairs(self.correlation, z1, z2_independent) {
            Ok(v) => v,
            Err(_) => {
                proof {
                    assert(false);
                }
                return Err(PricingError::InvalidParameter);
            },
        };
        let dt_u: u64 = grid_dt(self.time_horizon, n);
        let dt: i64 = dt_u as i64;
        let sd_u: u64 = grid_sqrt_dt(self.time_horizon, n);
        proof {
            crate::fixed::lemma_isqrt_bounds((dt_v(self.time_horizon, n) * SCALE) as nat);
            assert(sd_u as int <= 0x4_0000_0000_0000) by (nonlinear_arith)
                requires
                    (sd_u as int) * (sd_u as int) <= dt_v(self.time_horizon, n) * (SCALE as int),
                    dt_v(self.time_horizon, n) <= u64::MAX,
                    SCALE as int == 1_000_000,
                    sd_u as int >= 0;
        }
        let sd: i64 = sd_u as i64;
        let mut prices: Vec<u64> = Vec::new();
        let mut variances: Vec<u64> = Vec::new();
        prices.push(self.spot);
        variances.push(self.initial_variance);
        let mut s: u64 = self.spot;
        let mut v: u64 = self.initial_variance;
        let mut k: usize = 0;
        while k < n
            invariant
                0 <= k <= n,
                n == self.num_steps,
                n == z1.len(),
                n == z2_independent.len(),
                self.wf(),
                zc.len() == n,
                forall|q: int|
                    0 <= q < n ==> #[trigger] zc[q] == zc_at(*self, z1@, z2_independent@, q),
                dt as int == dt_v(self.time_horizon, self.num_steps),
                sd as int == isqrt_v((dt_v(self.time_horizon, self.num_steps) * SCALE) as nat),
                prices.len() == k + 1,
                variances.len() == k + 1,
                forall|j: nat|
                    j <= k ==> #[trigger] hstate(*self, dt, sd, z1@, z2_independent@, j) == Some(
                        (prices[j as int], variances[j as int]),
                    ),
                hstate(*self, dt, sd, z1@, z2_independent@, k as nat) == Some((s, v)),
            decreases n - k,
        {
            match self.step(dt, sd, s, v, z1[k], zc[k]) {
                Some(sv) => {
                    s = sv.0;
                    v = sv.1;
                    prices.push(s);
                    variances.push(v);
                },
                None => {
                    proof {
                        assert(hstate(*self, dt, sd, z1@, z2_independent@, (k + 1) as nat)
                            is None);
                        assert(!h_all_ok(
                            *self,
                            dt,
                            sd,
                            z1@,
                            z2_independent@,
                            self.num_steps as nat,
                        )) by {
                            if h_all_ok(*self, dt, sd, z1@, z2_independent@,
                            self.num_steps as nat) {
                                assert(hstate(
                                    *self,
                                    dt,
                                    sd,
                                    z1@,
                                    z2_independent@,
                                    (k + 1) as nat,
                                ) is Some);
                            }
                        }
                    }
                    return Err(PricingError::Overflow);
                },
            }
            k = k + 1;
        }
        proof {
            assert forall|j: nat| j <= self.num_steps implies (#[trigger] hstate(
                *self,
                dt,
                sd,
                z1@,
                z2_independent@,
                j,
            )) is Some by {
                assert(hstate(*self, dt, sd, z1@, z2_independent@, j) == Some(
                    (prices[j as int], variances[j as int]),
                ));
            }
        }
        Ok((prices, variances))
    }
}

} // verus!
