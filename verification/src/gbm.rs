//! Geometric Brownian motion price paths.
//!
//! The exact lognormal update `S(t+dt) = S(t) * exp((mu - sigma^2/2) dt
//! + sigma sqrt(dt) Z)` factors into one multiplicative growth factor per
//! step.  The caller derives those factors (the only transcendental part);
//! this module validates the contract parameters and performs the exact
//! scaled cumulative product, so a path starts at the spot and every later
//! price is pinned by the recurrence.

use crate::fixed::{fmul_checked, fmul_v, SCALE};
use crate::grid::{dt_v, grid_dt, time_grid, MAX_GRID_STEPS};
use crate::PricingError;
use vstd::prelude::*;

verus! {

/// A lognormal price-path generator over an equally spaced grid.
#[derive(Clone, Copy, Debug, PartialEq, Eq, Structural)]
pub struct GeometricBrownianMotion {
    pub spot: u64,
    pub drift: i64,
    pub volatility: u64,
    pub time_horizon: u64,
    pub num_steps: usize,
}

/// One multiplicative step, or a report that the price left the
/// representable range.
pub open spec fn gbm_next(s: u64, factor: u64) -> Option<u64> {
    if fmul_v(s as int, factor as int) <= u64::MAX {
        Some(fmul_v(s as int, factor as int) as u64)
    } else {
        None
    }
}

/// Price after `k` steps of the cumulative product.
pub open spec fn gbm_value(spot: u64, factors: Seq<u64>, k: nat) -> Option<u64>
    decreases k,
{
    if k == 0 {
        Some(spot)
    } else {
        match gbm_value(spot, factors, (k - 1) as nat) {
            None => None,
            Some(s) => gbm_next(s, factors[k - 1]),
        }
    }
}

/// Every prefix price up to `n` is representable.
pub open spec fn gbm_all_ok(spot: u64, factors: Seq<u64>, n: nat) -> bool {
    forall|k: nat| k <= n ==> (#[trigger] gbm_value(spot, factors, k)) is Some
}

impl GeometricBrownianMotion {
    /// Validity of the contract parameters: positive spot and horizon and
    /// a supported step count (the volatility and drift are unrestricted).
    pub open spec fn wf(self) -> bool {
        &&& self.spot >= 1
        &&& self.time_horizon >= 1
        &&& 1 <= self.num_steps <= MAX_GRID_STEPS
    }

    /// Create a generator; rejects a non-positive spot or horizon or an
    /// unsupported step count.
    pub fn new(spot: u64, drift: i64, volatility: u64, time_horizon: u64, num_steps: usize) -> (r:
        Result<Self, PricingError>)
        ensures
            r is Ok <==> (spot >= 1 && time_horizon >= 1 && 1 <= num_steps <= MAX_GRID_STEPS),
            r matches Ok(g) ==> g == (GeometricBrownianMotion {
                spot,
                drift,
                volatility,
                time_horizon,
                num_steps,
            }) && g.wf(),
            r is Err ==> r == Err::<GeometricBrownianMotion, PricingError>(
                PricingError::InvalidParameter,
            ),
    {
        if spot >= 1 && time_horizon >= 1 && num_steps >= 1 && num_steps <= MAX_GRID_STEPS {
            Ok(GeometricBrownianMotion { spot, drift, volatility, time_horizon, num_steps })
        } else {
            Err(PricingError::InvalidParameter)
        }
    }

    /// Step width of the grid.
    pub fn dt(&self) -> (r: u64)
        requires
            self.wf(),
        ensures
            r == dt_v(self.time_horizon, self.num_steps),
    {
        grid_dt(self.time_horizon, self.num_steps)
    }

    /// The grid points.
    pub fn time_grid(&self) -> (r: Vec<u64>)
        requires
            self.wf(),
        ensures
            r.len() == self.num_steps + 1,
            forall|i: int|
                0 <= i <= self.num_steps ==> #[trigger] r[i] as int == i * dt_v(
                    self.time_horizon,
                    self.num_steps,
                ),
    {
        time_grid(self.time_horizon, self.num_steps)
    }

    /// The spot.
    pub fn get_spot(&self) -> (r: u64)
        ensures
            r == self.spot,
    {
        self.spot
    }

    /// The drift.
    pub fn get_drift(&self) -> (r: i64)
        ensures
            r == self.drift,
    {
        self.drift
    }

    /// The volatility.
    pub fn get_volatility(&self) -> (r: u64)
        ensures
            r == self.volatility,
    {
        self.volatility
    }

    /// The horizon.
    pub fn get_time_horizon(&self) -> (r: u64)
        ensures
            r == self.time_horizon,
    {
        self.time_horizon
    }

    /// The step count.
    pub fn get_num_steps(&self) -> (r: usize)
        ensures
            r == self.num_steps,
    {
        self.num_steps
    }

    /// Accumulate one price path from the per-step growth factors.
    ///
    /// Rejects a factor count different from the step count; reports
    /// overflow exactly when some price leaves the representable range;
    /// otherwise the result starts at the spot and follows the scaled
    /// cumulative product exactly.
    pub fn generate_path(&self, factors: &Vec<u64>) -> (r: Result<Vec<u64>, PricingError>)
        requires
            self.wf(),
        ensures
            factors.len() != self.num_steps ==> r == Err::<Vec<u64>, PricingError>(
                PricingError::InvalidParameter,
            ),
            factors.len() == self.num_steps ==> {
                &&& (r is Ok <==> gbm_all_ok(self.spot, factors@, self.num_steps as nat))
                &&& (r matches Ok(p) ==> p.len() == self.num_steps + 1 && forall|k: nat|
                    k <= self.num_steps ==> #[trigger] gbm_value(self.spot, factors@, k) == Some(
                        p[k as int],
                    ))
                &&& (r is Err ==> r == Err::<Vec<u64>, PricingError>(PricingError::Overflow))
            },
    {
        if factors.len() != self.num_steps {
            return Err(PricingError::InvalidParameter);
        }
        let n: usize = self.num_steps;
        let mut out: Vec<u64> = Vec::new();
        out.push(self.spot);
        let mut s: u64 = self.spot;
        let mut k: usize = 0;
        while k < n
            invariant
                0 <= k <= n,
                n == self.num_steps,
                n == factors.len(),
                self.wf(),
                out.len() == k + 1,
                forall|j: nat|
                    j <= k ==> #[trigger] gbm_value(self.spot, factors@, j) == Some(out[j as int]),
                gbm_value(self.spot, factors@, k as nat) == Some(s),
            decreases n - k,
        {
            match fmul_checked(s, factors[k]) {
                Some(next) => {
                    s = next;
                    out.push(s);
                },
                None => {
                    proof {
                        assert(gbm_value(self.spot, factors@, (k + 1) as nat) is None);
                        assert(!gbm_all_ok(self.spot, factors@, self.num_steps as nat)) by {
                            if gbm_all_ok(self.spot, factors@, self.num_steps as nat) {
                                assert(gbm_value(self.spot, factors@, (k + 1) as nat) is Some);
                            }
                        }
                    }
                    return Err(PricingError::Overflow);
                },
            }
            k = k + 1;
        }
        proof {
            assert forall|j: nat| j <= self.num_steps implies (#[trigger] gbm_value(
                self.spot,
                factors@,
                j,
            )) is Some by {
                assert(gbm_value(self.spot, factors@, j) == Some(out[j as int]));
            }
        }
        Ok(out)
    }

    /// The terminal price of one path: the last element of the cumulative
    /// product, without retaining the full path.
    pub fn terminal_price(&self, factors: &Vec<u64>) -> (r: Result<u64, PricingError>)
        requires
            self.wf(),
        ensures
            factors.len() != self.num_steps ==> r == Err::<u64, PricingError>(
                PricingError::InvalidParameter,
            ),
            factors.len() == self.num_steps ==> {
                &&& (r is Ok <==> gbm_all_ok(self.spot, factors@, self.num_steps as nat))
                &&& (r matches Ok(v) ==> gbm_value(self.spot, factors@, self.num_steps as nat)
                    == Some(v))
                &&& (r is Err ==> r == Err::<u64, PricingError>(PricingError::Overflow))
            },
    {
        match self.generate_path(factors) {
            Ok(path) => Ok(path[path.len() - 1]),
            Err(e) => Err(e),
        }
    }
}

} // verus!
