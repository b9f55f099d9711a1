//! Time-grid helpers shared by the path simulators.
//!
//! A horizon of `T` years is carried as the scaled value `T * SCALE`; an
//! equally spaced grid of `num_steps` intervals then has the exact step
//! width `time_horizon / num_steps` in scaled units.

use crate::fixed::{fsqrt, isqrt_v, SCALE};
use vstd::arithmetic::div_mod::{lemma_div_is_ordered_by_denominator, lemma_fundamental_div_mod};
use vstd::prelude::*;

verus! {

/// Largest supported number of grid intervals.
pub const MAX_GRID_STEPS: usize = 100_000_000;

/// Step width of an equally spaced grid over a scaled horizon.
pub open spec fn dt_v(time_horizon: u64, num_steps: usize) -> int
    recommends
        num_steps >= 1,
{
    (time_horizon as int) / (num_steps as int)
}

/// Step width in scaled units.
pub fn grid_dt(time_horizon: u64, num_steps: usize) -> (r: u64)
    requires
        num_steps >= 1,
    ensures
        r == dt_v(time_horizon, num_steps),
        r <= time_horizon,
{
    proof {
        if num_steps > 1 {
            lemma_div_is_ordered_by_denominator(time_horizon as int, 1, num_steps as int);
        }
        vstd::arithmetic::div_mod::lemma_div_basics(time_horizon as int);
    }
    time_horizon / (num_steps as u64)
}

/// Square root of the step width, in scaled units.
pub fn grid_sqrt_dt(time_horizon: u64, num_steps: usize) -> (r: u64)
    requires
        num_steps >= 1,
    ensures
        r == isqrt_v((dt_v(time_horizon, num_steps) * SCALE) as nat),
{
    let dt: u64 = grid_dt(time_horizon, num_steps);
    fsqrt(dt)
}

/// The grid points `0, dt, 2 dt, ..., num_steps * dt` in scaled units.
pub fn time_grid(time_horizon: u64, num_steps: usize) -> (r: Vec<u64>)
    requires
        1 <= num_steps < usize::MAX,
    ensures
        r.len() == num_steps + 1,
        forall|i: int|
            0 <= i <= num_steps ==> #[trigger] r[i] as int == i * dt_v(time_horizon, num_steps),
{
    let dt: u64 = grid_dt(time_horizon, num_steps);
    proof {
        lemma_fundamental_div_mod(time_horizon as int, num_steps as int);
        assert((num_steps as int) * (dt as int) <= time_horizon) by (nonlinear_arith)
            requires
                time_horizon as int == (num_steps as int) * (dt as int) + (time_horizon as int) % (
                num_steps as int),
                (time_horizon as int) % (num_steps as int) >= 0;
    }
    let mut out: Vec<u64> = Vec::new();
    let mut i: usize = 0;
    while i <= num_steps
        invariant
            0 <= i <= num_steps + 1,
            num_steps >= 1,
            num_steps < usize::MAX,
            dt == dt_v(time_horizon, num_steps),
            (num_steps as int) * (dt as int) <= time_horizon,
            out.len() == i,
            forall|j: int|
                0 <= j < i ==> #[trigger] out[j] as int == j * dt_v(time_horizon, num_steps),
        decreases num_steps + 1 - i,
    {
        proof {
            assert((i as int) * (dt as int) <= (num_steps as int) * (dt as int))
                by (nonlinear_arith)
                requires 0 <= i as int <= num_steps as int && 0 <= dt as int;
        }
        out.push((i as u64) * dt);
        i = i + 1;
    }
    out
}

} // verus!
