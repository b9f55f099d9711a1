//! Binomial-lattice pricer for early-exercise options.
//!
//! A purely deterministic dynamic program over a recombining tree of
//! `steps + 1` levels.  The caller derives the per-step up/down factors,
//! the risk-neutral probability and the per-step discount (all scaled by
//! [`crate::fixed::SCALE`]); this module precomputes power tables of the
//! two factors, fills the terminal payoffs and walks the tree backwards,
//! taking at every node the larger of the discounted expectation of the
//! two successors and the immediate exercise payoff.  The result is pinned
//! exactly by the contract, so pricing is bit-for-bit reproducible.

use crate::fixed::{
    fmul, fmul_checked, fmul_v, fpow_v, lemma_fmul_le_left, lemma_fmul_mono, SCALE,
};
use crate::PricingError;
use vstd::arithmetic::div_mod::{
    lemma_div_is_ordered, lemma_div_multiples_vanish, lemma_div_pos_is_pos,
};
use vstd::prelude::*;

verus! {

/// Scaled inputs of one lattice pricing call.
///
/// `up` and `down` are the multiplicative per-step factors, `prob` the
/// risk-neutral probability of an up-move and `disc` the per-step discount,
/// all scaled fixed-point values.
#[derive(Clone, Copy, Debug, PartialEq, Eq, Structural)]
pub struct LatticeParams {
    pub spot: u64,
    pub strike: u64,
    pub up: u64,
    pub down: u64,
    pub prob: u64,
    pub disc: u64,
    pub steps: usize,
    pub is_call: bool,
}

/// Largest supported tree depth.
pub const MAX_STEPS: usize = 100_000_000;

/// Domain of the pricer: positive prices, a step count that is at least
/// one and within the supported depth, an up factor of at least one unit,
/// a down factor and discount of at most one unit, and a probability that
/// is indeed a probability.
pub open spec fn params_valid(p: LatticeParams) -> bool {
    &&& p.spot >= 1
    &&& p.strike >= 1
    &&& 1 <= p.steps <= MAX_STEPS
    &&& p.up >= SCALE
    &&& 1 <= p.down <= SCALE
    &&& p.prob <= SCALE
    &&& p.disc <= SCALE
}

/// Immediate exercise payoff at underlying price `s`.
pub open spec fn intrinsic_v(s: int, strike: int, is_call: bool) -> int {
    if is_call {
        if s > strike {
            s - strike
        } else {
            0
        }
    } else {
        if strike > s {
            strike - s
        } else {
            0
        }
    }
}

/// Underlying price at node `(step, i)`: `i` up-moves and `step - i`
/// down-moves applied to the spot.
pub open spec fn node_price(p: LatticeParams, step: nat, i: nat) -> int
    recommends
        i <= step,
{
    fmul_v(
        fmul_v(p.spot as int, fpow_v(p.up as int, i)),
        fpow_v(p.down as int, (step - i) as nat),
    )
}

/// Discounted risk-neutral expectation of the two successor values.
pub open spec fn combine_v(p: LatticeParams, vup: int, vdown: int) -> int {
    fmul_v(p.disc as int, fmul_v(p.prob as int, vup) + fmul_v(SCALE - p.prob, vdown))
}

/// Option value at node `(step, i)` with the early-exercise condition
/// enforced at every node.
pub open spec fn amer_value(p: LatticeParams, step: nat, i: nat) -> int
    recommends
        i <= step <= p.steps,
    decreases p.steps - step,
{
    if step >= p.steps {
        intrinsic_v(node_price(p, p.steps as nat, i), p.strike as int, p.is_call)
    } else {
        let hold = combine_v(p, amer_value(p, (step + 1) as nat, (i + 1) as nat),
            amer_value(p, (step + 1) as nat, i));
        let ex = intrinsic_v(node_price(p, step, i), p.strike as int, p.is_call);
        if hold > ex {
            hold
        } else {
            ex
        }
    }
}

/// Value at node `(step, i)` when exercise is only allowed at maturity.
pub open spec fn euro_value(p: LatticeParams, step: nat, i: nat) -> int
    recommends
        i <= step <= p.steps,
    decreases p.steps - step,
{
    if step >= p.steps {
        intrinsic_v(node_price(p, p.steps as nat, i), p.strike as int, p.is_call)
    } else {
        combine_v(p, euro_value(p, (step + 1) as nat, (i + 1) as nat),
            euro_value(p, (step + 1) as nat, i))
    }
}

/// All powers of the up factor up to the tree depth stay representable.
pub open spec fn upow_fits(p: LatticeParams) -> bool {
    forall|j: nat| j <= p.steps ==> #[trigger] fpow_v(p.up as int, j) <= u64::MAX
}

/// The spot scaled by any power of the up factor stays representable.
pub open spec fn spot_up_fits(p: LatticeParams) -> bool {
    forall|j: nat|
        j <= p.steps ==> #[trigger] fmul_v(p.spot as int, fpow_v(p.up as int, j)) <= u64::MAX
}

/// Every quantity of the dynamic program stays in the `u64` range.
pub open spec fn lattice_fits(p: LatticeParams) -> bool {
    upow_fits(p) && spot_up_fits(p)
}

/// Exact contract of the lattice pricers: parameter rejection, overflow
/// reporting, and the value at the root node.
pub open spec fn price_result(
    p: LatticeParams,
    root: int,
    r: Result<u64, PricingError>,
) -> bool {
    if !params_valid(p) {
        r == Err::<u64, PricingError>(PricingError::InvalidParameter)
    } else if !lattice_fits(p) {
        r == Err::<u64, PricingError>(PricingError::Overflow)
    } else {
        &&& r is Ok
        &&& r->Ok_0 as int == root
    }
}

/// A convex combination with scaled weights of values bounded by `m` is
/// itself bounded by `m` and non-negative.
pub proof fn lemma_convex_bound(prob: int, a: int, b: int, m: int)
    requires
        0 <= prob <= SCALE,
        0 <= a <= m,
        0 <= b <= m,
    ensures
        0 <= fmul_v(prob, a) + fmul_v(SCALE - prob, b),
        fmul_v(prob, a) + fmul_v(SCALE - prob, b) <= m,
{
    let s = SCALE as int;
    lemma_div_pos_is_pos(prob * a, s);
    lemma_div_pos_is_pos((s - prob) * b, s);
    assert(prob * a >= 0) by (nonlinear_arith)
        requires 0 <= prob && 0 <= a;
    assert((s - prob) * b >= 0) by (nonlinear_arith)
        requires prob <= s && 0 <= b;
    // Sum of floors is at most the floor of the sum.
    let x = prob * a;
    let y = (s - prob) * b;
    vstd::arithmetic::div_mod::lemma_fundamental_div_mod(x, s);
    vstd::arithmetic::div_mod::lemma_fundamental_div_mod(y, s);
    let qx = x / s;
    let qy = y / s;
    assert(x + y >= s * (qx + qy)) by (nonlinear_arith)
        requires
            x == s * qx + x % s,
            y == s * qy + y % s,
            x % s >= 0,
            y % s >= 0;
    lemma_div_multiples_vanish(qx + qy, s);
    lemma_div_is_ordered(s * (qx + qy), x + y, s);
    // The exact sum is bounded by the scaled maximum.
    assert(x + y <= s * m) by (nonlinear_arith)
        requires
            x == prob * a,
            y == (s - prob) * b,
            0 <= prob <= s,
            0 <= a <= m,
            0 <= b <= m;
    lemma_div_multiples_vanish(m, s);
    lemma_div_is_ordered(x + y, s * m, s);
}

/// Discounted expectation is monotone in both successor values.
pub proof fn lemma_combine_mono(p: LatticeParams, a1: int, b1: int, a2: int, b2: int)
    requires
        params_valid(p),
        0 <= a1 <= a2,
        0 <= b1 <= b2,
    ensures
        combine_v(p, a1, b1) <= combine_v(p, a2, b2),
        0 <= combine_v(p, a1, b1),
{
    lemma_fmul_mono(p.prob as int, a1, p.prob as int, a2);
    lemma_fmul_mono(SCALE - p.prob, b1, SCALE - p.prob, b2);
    lemma_fmul_mono(
        p.disc as int,
        fmul_v(p.prob as int, a1) + fmul_v(SCALE - p.prob, b1),
        p.disc as int,
        fmul_v(p.prob as int, a2) + fmul_v(SCALE - p.prob, b2),
    );
    lemma_convex_bound(p.prob as int, a1, b1, a1 + b1);
    lemma_div_pos_is_pos(
        (p.disc as int) * (fmul_v(p.prob as int, a1) + fmul_v(SCALE - p.prob, b1)),
        SCALE as int,
    );
    assert((p.disc as int) * (fmul_v(p.prob as int, a1) + fmul_v(SCALE - p.prob, b1)) >= 0)
        by (nonlinear_arith)
        requires
            p.disc >= 0,
            fmul_v(p.prob as int, a1) + fmul_v(SCALE - p.prob, b1) >= 0;
}

/// Early exercise can only add value: at every node the American value
/// dominates the European value on the same grid, and both are
/// non-negative.
pub proof fn lemma_amer_geq_euro(p: LatticeParams, step: nat, i: nat)
    requires
        params_valid(p),
        i <= step <= p.steps,
    ensures
        amer_value(p, step, i) >= euro_value(p, step, i),
        euro_value(p, step, i) >= 0,
    decreases p.steps - step,
{
    if step >= p.steps {
    } else {
        lemma_amer_geq_euro(p, (step + 1) as nat, (i + 1) as nat);
        lemma_amer_geq_euro(p, (step + 1) as nat, i);
        lemma_combine_mono(
            p,
            euro_value(p, (step + 1) as nat, (i + 1) as nat),
            euro_value(p, (step + 1) as nat, i),
            amer_value(p, (step + 1) as nat, (i + 1) as nat),
            amer_value(p, (step + 1) as nat, i),
        );
    }
}

/// The non-negative early-exercise premium, stated at the root: pricing
/// with the early-exercise condition never returns less than pricing the
/// same contract as European on the same grid.
pub proof fn lemma_early_exercise_premium(p: LatticeParams)
    requires
        params_valid(p),
    ensures
        amer_value(p, 0, 0) >= euro_value(p, 0, 0) >= 0,
{
    lemma_amer_geq_euro(p, 0, 0);
}

/// The lattice pricer is a pure function of its inputs: two results that
/// both satisfy its contract for the same parameters are identical.
pub proof fn lemma_lattice_deterministic(
    p: LatticeParams,
    r1: Result<u64, PricingError>,
    r2: Result<u64, PricingError>,
)
    requires
        price_result(p, amer_value(p, 0, 0), r1),
        price_result(p, amer_value(p, 0, 0), r2),
    ensures
        r1 == r2,
{
}

/// Immediate exercise payoff.
fn intrinsic_exec(s: u64, strike: u64, is_call: bool) -> (r: u64)
    ensures
        r as int == intrinsic_v(s as int, strike as int, is_call),
{
    if is_call {
        if s > strike {
            s - strike
        } else {
            0
        }
    } else {
        if strike > s {
            strike - s
        } else {
            0
        }
    }
}

/// Discounted risk-neutral expectation of two node values.
fn combine_exec(p: &LatticeParams, vup: u64, vdown: u64) -> (r: u64)
    requires
        p.prob <= SCALE,
        p.disc <= SCALE,
    ensures
        r as int == combine_v(*p, vup as int, vdown as int),
{
    proof {
        lemma_fmul_le_left(vup as int, p.prob as int);
        lemma_fmul_le_left(vdown as int, SCALE - p.prob);
        assert((p.prob as int) * (vup as int) == (vup as int) * (p.prob as int))
            by (nonlinear_arith);
        assert((SCALE - p.prob) * (vdown as int) == (vdown as int) * (SCALE - p.prob))
            by (nonlinear_arith);
        lemma_convex_bound(p.prob as int, vup as int, vdown as int, u64::MAX as int);
    }
    let t1: u64 = fmul(p.prob, vup);
    let t2: u64 = fmul(SCALE - p.prob, vdown);
    let ht: u64 = t1 + t2;
    proof {
        lemma_fmul_le_left(ht as int, p.disc as int);
    }
    fmul(p.disc, ht)
}

/// Price an early-exercise contract by backward induction over the tree.
///
/// Rejects parameters outside [`params_valid`], reports [`PricingError::Overflow`]
/// when a node price would leave the representable range, and otherwise
/// returns exactly the root value of the dynamic program.
pub fn lattice_price(p: LatticeParams) -> (r: Result<u64, PricingError>)
    ensures
        price_result(p, amer_value(p, 0, 0), r),
{
    lattice_run(p, true)
}

/// Price the same contract without early exercise (the European value on
/// the same grid), used as a cross-check of the American pricer.
pub fn lattice_price_european(p: LatticeParams) -> (r: Result<u64, PricingError>)
    ensures
        price_result(p, euro_value(p, 0, 0), r),
{
    lattice_run(p, false)
}

/// Shared backward induction; `early` selects the American pricer.
fn lattice_run(p: LatticeParams, early: bool) -> (r: Result<u64, PricingError>)
    ensures
        early ==> price_result(p, amer_value(p, 0, 0), r),
        !early ==> price_result(p, euro_value(p, 0, 0), r),
{
    if !(p.spot >= 1 && p.strike >= 1 && p.steps >= 1 && p.steps <= MAX_STEPS && p.up >= SCALE
        && p.down >= 1
        && p.down <= SCALE && p.prob <= SCALE && p.disc <= SCALE) {
        return Err(PricingError::InvalidParameter);
    }
    let n: usize = p.steps;

    // Power tables of the two factors, for O(1) node-price lookup.
    let mut upows: Vec<u64> = Vec::new();
    upows.push(SCALE);
    let mut i: usize = 1;
    while i <= n
        invariant
            1 <= i <= n + 1,
            params_valid(p),
            n == p.steps,
            upows.len() == i,
            forall|j: int| 0 <= j < i ==> #[trigger] upows[j] as int == fpow_v(p.up as int, j as nat),
        decreases n + 1 - i,
    {
        let prev: u64 = upows[i - 1];
        match fmul_checked(prev, p.up) {
            Some(v) => {
                upows.push(v);
            },
            None => {
                proof {
                    assert(fpow_v(p.up as int, i as nat) == fmul_v(prev as int, p.up as int));
                    assert(!upow_fits(p));
                }
                return Err(PricingError::Overflow);
            },
        }
        i = i + 1;
    }

    let mut dpows: Vec<u64> = Vec::new();
    dpows.push(SCALE);
    let mut k: usize = 1;
    while k <= n
        invariant
            1 <= k <= n + 1,
            params_valid(p),
            n == p.steps,
            dpows.len() == k,
            forall|j: int| 0 <= j < k ==> #[trigger] dpows[j] as int == fpow_v(p.down as int, j as nat),
            forall|j: int| 0 <= j < k ==> #[trigger] dpows[j] <= SCALE,
        decreases n + 1 - k,
    {
        let prev: u64 = dpows[k - 1];
        proof {
            lemma_fmul_le_left(prev as int, p.down as int);
        }
        dpows.push(fmul(prev, p.down));
        k = k + 1;
    }

    // Terminal payoffs, checking that every node price is representable.
    let mut values: Vec<u64> = Vec::new();
    let mut t: usize = 0;
    while t <= n
        invariant
            0 <= t <= n + 1,
            params_valid(p),
            n == p.steps,
            upows.len() == n + 1,
            dpows.len() == n + 1,
            forall|j: int| 0 <= j <= n ==> #[trigger] upows[j] as int == fpow_v(p.up as int, j as nat),
            forall|j: int| 0 <= j <= n ==> #[trigger] dpows[j] as int == fpow_v(p.down as int, j as nat),
            forall|j: int| 0 <= j <= n ==> #[trigger] dpows[j] <= SCALE,
            forall|j: nat| j < t ==> #[trigger] fmul_v(p.spot as int, fpow_v(p.up as int, j)) <= u64::MAX,
            values.len() == t,
            forall|j: int|
                0 <= j < t ==> #[trigger] values[j] as int == intrinsic_v(
                    node_price(p, n as nat, j as nat),
                    p.strike as int,
                    p.is_call,
                ),
        decreases n + 1 - t,
    {
        match fmul_checked(p.spot, upows[t]) {
            Some(su) => {
                proof {
                    lemma_fmul_le_left(su as int, dpows[(n - t) as int] as int);
                }
                let sprice: u64 = fmul(su, dpows[n - t]);
                values.push(intrinsic_exec(sprice, p.strike, p.is_call));
            },
            None => {
                proof {
                    assert(!spot_up_fits(p));
                }
                return Err(PricingError::Overflow);
            },
        }
        t = t + 1;
    }
    proof {
        assert forall|j: nat| j <= p.steps implies #[trigger] fpow_v(p.up as int, j)
            <= u64::MAX by {
            assert(upows[j as int] as int == fpow_v(p.up as int, (j as int) as nat));
        }
        assert(upow_fits(p));
        assert(spot_up_fits(p));
    }

    // Backward induction with a rolling value buffer.
    let mut step: usize = n;
    while step > 0
        invariant
            0 <= step <= n,
            params_valid(p),
            lattice_fits(p),
            n == p.steps,
            upows.len() == n + 1,
            dpows.len() == n + 1,
            forall|j: int| 0 <= j <= n ==> #[trigger] upows[j] as int == fpow_v(p.up as int, j as nat),
            forall|j: int| 0 <= j <= n ==> #[trigger] dpows[j] as int == fpow_v(p.down as int, j as nat),
            forall|j: int| 0 <= j <= n ==> #[trigger] dpows[j] <= SCALE,
            values.len() == n + 1,
            forall|j: nat|
                j <= step ==> #[trigger] values[j as int] as int == if early {
                    amer_value(p, step as nat, j)
                } else {
                    euro_value(p, step as nat, j)
                },
        decreases step,
    {
        let level: usize = step - 1;
        let mut idx: usize = 0;
        while idx <= level
            invariant
                0 <= idx <= level + 1,
                level == step - 1,
                1 <= step <= n,
                params_valid(p),
                lattice_fits(p),
                n == p.steps,
                upows.len() == n + 1,
                dpows.len() == n + 1,
                forall|j: int|
                    0 <= j <= n ==> #[trigger] upows[j] as int == fpow_v(p.up as int, j as nat),
                forall|j: int|
                    0 <= j <= n ==> #[trigger] dpows[j] as int == fpow_v(p.down as int, j as nat),
                forall|j: int| 0 <= j <= n ==> #[trigger] dpows[j] <= SCALE,
                values.len() == n + 1,
                forall|j: nat|
                    j < idx ==> #[trigger] values[j as int] as int == if early {
                        amer_value(p, level as nat, j)
                    } else {
                        euro_value(p, level as nat, j)
                    },
                forall|j: nat|
                    idx <= j <= step ==> #[trigger] values[j as int] as int == if early {
                        amer_value(p, step as nat, j)
                    } else {
                        euro_value(p, step as nat, j)
                    },
            decreases level + 1 - idx,
        {
            let hold: u64 = combine_exec(&p, values[idx + 1], values[idx]);
            let newv: u64;
            if early {
                let su: u64 = fmul(p.spot, upows[idx]);
                proof {
                    lemma_fmul_le_left(su as int, dpows[(level - idx) as int] as int);
                }
                let sprice: u64 = fmul(su, dpows[level - idx]);
                let ex: u64 = intrinsic_exec(sprice, p.strike, p.is_call);
                newv = if hold > ex {
                    hold
                } else {
                    ex
                };
            } else {
                newv = hold;
            }
            values.set(idx, newv);
            idx = idx + 1;
        }
        step = level;
    }
    Ok(values[0])
}

} // verus!
