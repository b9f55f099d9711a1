//! Bookkeeping and decision layer of the Longstaff-Schwartz pricer.
//!
//! The regression pricer simulates price paths forward, then walks
//! backwards in time deciding at each step, for the in-the-money paths,
//! whether immediate exercise beats the fitted continuation value.  This
//! module holds everything in that sweep that is exact: the cash-flow
//! table (kept in its streaming form, the time of the single realized
//! cash flow per path), the in-the-money selection, the discounted
//! continuation targets handed to the regression, the exercise decision
//! against fitted values, the evaluation of a fitted polynomial with its
//! degenerate fallback to the target mean, and the final discounted
//! average.  Only the least-squares solve itself, an inherently
//! floating-point computation, is left to the caller, which hands back a
//! [`FitOutcome`].

use crate::fixed::{
    abs_v, add_i64_checked, fmul, fmul_v, fpow, fpow_v, lemma_fmul_le_left, sum_prefix,
    tmul_checked, tmul_v, SCALE,
};
use crate::lattice::intrinsic_v;
use crate::PricingError;
use vstd::prelude::*;

verus! {

/// No entry among the first `upto` elements of `itm` names path `i`.
pub open spec fn no_hit(itm: Seq<usize>, upto: int, i: int) -> bool {
    forall|q: int| 0 <= q < upto ==> (#[trigger] itm[q]) as int != i
}

/// Result of the least-squares fit of `continuation(S) = a + b S + c S^2`,
/// as reported by the caller's linear solver: either scaled coefficients
/// or the explicit degenerate outcome for a (near-)singular system.
#[derive(Clone, Copy, Debug, PartialEq, Eq, Structural)]
pub enum FitOutcome {
    Solved { a: i64, b: i64, c: i64 },
    Degenerate,
}

/// Backward sweep state over a set of simulated paths.
///
/// Cash flows are kept in streaming form: for each path, at most the time
/// of its one realized cash flow; the amount is always the intrinsic
/// payoff of that path at that time.
pub struct LsmSweep {
    pub paths: Vec<Vec<u64>>,
    pub strike: u64,
    pub disc: u64,
    pub num_steps: usize,
    pub is_call: bool,
    pub exercise: Vec<Option<usize>>,
}

impl LsmSweep {
    /// Well-formedness: consistent dimensions, a discount of at most one
    /// unit, and exercise times within the grid.
    pub open spec fn wf(self) -> bool {
        &&& self.num_steps >= 1
        &&& self.paths.len() >= 1
        &&& self.exercise.len() == self.paths.len()
        &&& forall|i: int|
            0 <= i < self.paths.len() ==> (#[trigger] self.paths[i]).len() == self.num_steps + 1
        &&& self.strike >= 1
        &&& self.disc <= SCALE
        &&& forall|i: int|
            0 <= i < self.exercise.len() ==> ((#[trigger] self.exercise[i]) matches Some(s)
                ==> s <= self.num_steps)
    }

    /// Number of paths.
    pub open spec fn spec_num_paths(self) -> int {
        self.paths.len() as int
    }

    /// Exercise time of a path, if any.
    pub open spec fn exercise_time(self, i: int) -> Option<usize> {
        self.exercise[i]
    }

    /// Intrinsic payoff of path `i` at time `t`.
    pub open spec fn intrinsic_at(self, i: int, t: int) -> int {
        intrinsic_v(self.paths[i][t] as int, self.strike as int, self.is_call)
    }

    /// The cash flow of path `i` at time `t`: the intrinsic payoff at the
    /// recorded exercise time, zero everywhere else.
    pub open spec fn cash_flow_at(self, i: int, t: int) -> int {
        match self.exercise[i] {
            Some(s) => if s == t {
                self.intrinsic_at(i, t)
            } else {
                0
            },
            None => 0,
        }
    }

    /// A path is in the money at `t` when immediate exercise has strictly
    /// positive payoff.
    pub open spec fn is_itm(self, t: int, i: int) -> bool {
        self.intrinsic_at(i, t) > 0
    }

    /// Indices of the first `n` paths that are in the money at `t`, in
    /// increasing order.
    pub open spec fn itm_seq(self, t: int, n: nat) -> Seq<usize>
        decreases n,
    {
        if n == 0 {
            Seq::empty()
        } else {
            let pre = self.itm_seq(t, (n - 1) as nat);
            if self.is_itm(t, n - 1) {
                pre.push((n - 1) as usize)
            } else {
                pre
            }
        }
    }

    /// Discounted future cash flow of path `i` seen from time `t`: the
    /// path's single cash flow, if it lies strictly after `t`, discounted
    /// back by one per-step factor per elapsed step.
    pub open spec fn continuation_target(self, t: int, i: int) -> int {
        match self.exercise[i] {
            Some(s) => if s > t {
                fmul_v(self.intrinsic_at(i, s as int), fpow_v(self.disc as int, (s - t) as nat))
            } else {
                0
            },
            None => 0,
        }
    }

    /// Present value of path `i`: its single cash flow discounted to time
    /// zero by one per-step factor per step.
    pub open spec fn path_pv(self, i: int) -> int {
        match self.exercise[i] {
            Some(s) => fmul_v(self.intrinsic_at(i, s as int), fpow_v(self.disc as int, s as nat)),
            None => 0,
        }
    }

    /// Sum of the present values of the first `n` paths.
    pub open spec fn pv_sum(self, n: nat) -> int
        decreases n,
    {
        if n == 0 {
            0
        } else {
            self.pv_sum((n - 1) as nat) + self.path_pv(n - 1)
        }
    }

    /// Start a sweep: record the terminal cash flows, an exercise at
    /// maturity for every path that finishes in the money.
    ///
    /// Rejects an empty path set, ragged or single-column rows, a zero
    /// strike, or a discount above one unit.
    pub fn new(paths: Vec<Vec<u64>>, strike: u64, disc: u64, is_call: bool) -> (r: Result<
        LsmSweep,
        PricingError,
    >)
        ensures
            r matches Ok(sw) ==> {
                &&& sw.wf()
                &&& sw.paths == paths
                &&& sw.strike == strike
                &&& sw.disc == disc
                &&& sw.is_call == is_call
                &&& sw.num_steps + 1 == paths[0].len()
                &&& forall|i: int|
                    0 <= i < paths.len() ==> #[trigger] sw.exercise[i] == (if intrinsic_v(
                        paths[i][sw.num_steps as int] as int,
                        strike as int,
                        is_call,
                    ) > 0 {
                        Some(sw.num_steps)
                    } else {
                        None::<usize>
                    })
            },
            r is Err ==> r == Err::<LsmSweep, PricingError>(PricingError::InvalidParameter),
            r is Ok <==> {
                &&& paths.len() >= 1
                &&& paths[0].len() >= 2
                &&& forall|i: int|
                    0 <= i < paths.len() ==> (#[trigger] paths[i]).len() == paths[0].len()
                &&& strike >= 1
                &&& disc <= SCALE
            },
    {
        if paths.len() < 1 || strike < 1 || disc > SCALE {
            return Err(PricingError::InvalidParameter);
        }
        let cols: usize = paths[0].len();
        if cols < 2 {
            return Err(PricingError::InvalidParameter);
        }
        let n: usize = paths.len();
        let mut i: usize = 0;
        while i < n
            invariant
                0 <= i <= n,
                n == paths.len(),
                cols == paths[0].len(),
                forall|j: int| 0 <= j < i ==> (#[trigger] paths[j]).len() == cols,
            decreases n - i,
        {
            if paths[i].len() != cols {
                return Err(PricingError::InvalidParameter);
            }
            i = i + 1;
        }
        let num_steps: usize = cols - 1;
        let mut exercise: Vec<Option<usize>> = Vec::new();
        let mut k: usize = 0;
        while k < n
            invariant
                0 <= k <= n,
                n == paths.len(),
                cols == paths[0].len(),
                cols >= 2,
                num_steps == cols - 1,
                strike >= 1,
                forall|j: int| 0 <= j < n ==> (#[trigger] paths[j]).len() == cols,
                exercise.len() == k,
                forall|j: int|
                    0 <= j < k ==> #[trigger] exercise[j] == (if intrinsic_v(
                        paths[j][num_steps as int] as int,
                        strike as int,
                        is_call,
                    ) > 0 {
                        Some(num_steps)
                    } else {
                        None::<usize>
                    }),
            decreases n - k,
        {
            let terminal: u64 = paths[k][num_steps];
            let itm: bool = if is_call {
                terminal > strike
            } else {
                terminal < strike
            };
            if itm {
                exercise.push(Some(num_steps));
            } else {
                exercise.push(None);
            }
            k = k + 1;
        }
        Ok(LsmSweep { paths, strike, disc, num_steps, is_call, exercise })
    }

    /// Number of paths.
    pub fn num_paths(&self) -> (r: usize)
        ensures
            r == self.spec_num_paths(),
    {
        self.paths.len()
    }

    /// Number of time intervals.
    pub fn num_steps(&self) -> (r: usize)
        ensures
            r == self.num_steps,
    {
        self.num_steps
    }

    /// Recorded exercise time of a path.
    pub fn exercise_step(&self, i: usize) -> (r: Option<usize>)
        requires
            self.wf(),
            i < self.spec_num_paths(),
        ensures
            r == self.exercise_time(i as int),
    {
        self.exercise[i]
    }

    /// The cash flow of a path at a time, as a concrete amount.
    pub fn cash_flow(&self, i: usize, t: usize) -> (r: u64)
        requires
            self.wf(),
            i < self.spec_num_paths(),
            t <= self.num_steps,
        ensures
            r as int == self.cash_flow_at(i as int, t as int),
    {
        match self.exercise[i] {
            Some(s) => if s == t {
                intrinsic_exec_local(self.paths[i][t], self.strike, self.is_call)
            } else {
                0
            },
            None => 0,
        }
    }

    /// Indices of the paths in the money at `t`, in increasing order.
    pub fn itm_paths(&self, t: usize) -> (r: Vec<usize>)
        requires
            self.wf(),
            1 <= t < self.num_steps,
        ensures
            r@ == self.itm_seq(t as int, self.paths.len() as nat),
    {
        let n: usize = self.paths.len();
        let mut out: Vec<usize> = Vec::new();
        let mut i: usize = 0;
        while i < n
            invariant
                0 <= i <= n,
                self.wf(),
                1 <= t < self.num_steps,
                n == self.paths.len(),
                out@ == self.itm_seq(t as int, i as nat),
            decreases n - i,
        {
            let s: u64 = self.paths[i][t];
            let itm: bool = if self.is_call {
                s > self.strike
            } else {
                s < self.strike
            };
            if itm {
                out.push(i);
            }
            i = i + 1;
        }
        out
    }

    /// Regression inputs at time `t` for the selected paths: the price of
    /// each path at `t`, and its discounted future cash flow.
    pub fn regression_inputs(&self, t: usize, itm: &Vec<usize>) -> (r: (Vec<u64>, Vec<u64>))
        requires
            self.wf(),
            1 <= t < self.num_steps,
            forall|j: int| 0 <= j < itm.len() ==> #[trigger] itm[j] < self.spec_num_paths(),
        ensures
            r.0.len() == itm.len(),
            r.1.len() == itm.len(),
            forall|j: int|
                0 <= j < itm.len() ==> #[trigger] r.0[j] == self.paths[itm[j] as int][t as int],
            forall|j: int|
                0 <= j < itm.len() ==> #[trigger] r.1[j] as int == self.continuation_target(
                    t as int,
                    itm[j] as int,
                ),
    {
        let m: usize = itm.len();
        let mut xs: Vec<u64> = Vec::new();
        let mut ys: Vec<u64> = Vec::new();
        let mut j: usize = 0;
        while j < m
            invariant
                0 <= j <= m,
                self.wf(),
                1 <= t < self.num_steps,
                m == itm.len(),
                forall|q: int| 0 <= q < m ==> #[trigger] itm[q] < self.paths.len(),
                xs.len() == j,
                ys.len() == j,
                forall|q: int|
                    0 <= q < j ==> #[trigger] xs[q] == self.paths[itm[q] as int][t as int],
                forall|q: int|
                    0 <= q < j ==> #[trigger] ys[q] as int == self.continuation_target(
                        t as int,
                        itm[q] as int,
                    ),
            decreases m - j,
        {
            let i: usize = itm[j];
            xs.push(self.paths[i][t]);
            let y: u64 = match self.exercise[i] {
                Some(s) => if s > t {
                    let amount: u64 = intrinsic_exec_local(
                        self.paths[i][s],
                        self.strike,
                        self.is_call,
                    );
                    let pw: u64 = fpow(self.disc, s - t);
                    proof {
                        lemma_fmul_le_left(amount as int, pw as int);
                    }
                    fmul(amount, pw)
                } else {
                    0
                },
                None => 0,
            };
            ys.push(y);
            j = j + 1;
        }
        (xs, ys)
    }

    /// Record the exercise decisions at time `t`: a selected path
    /// exercises exactly when its intrinsic payoff strictly exceeds the
    /// fitted continuation value, committing its single cash flow to `t`
    /// and erasing any later one.  Ties favor continuation.
    pub fn apply_exercise(&mut self, t: usize, itm: &Vec<usize>, cont: &Vec<i64>)
        requires
            old(self).wf(),
            1 <= t < old(self).num_steps,
            itm.len() == cont.len(),
            forall|j: int| 0 <= j < itm.len() ==> #[trigger] itm[j] < old(self).spec_num_paths(),
            forall|a: int, b: int| 0 <= a < b < itm.len() ==> itm[a] != itm[b],
        ensures
            final(self).wf(),
            final(self).paths == old(self).paths,
            final(self).strike == old(self).strike,
            final(self).disc == old(self).disc,
            final(self).num_steps == old(self).num_steps,
            final(self).is_call == old(self).is_call,
            final(self).exercise.len() == old(self).exercise.len(),
            forall|j: int|
                0 <= j < itm.len() ==> #[trigger] final(self).exercise[itm[j] as int] == (if old(
                    self,
                ).intrinsic_at(itm[j] as int, t as int) > cont[j] {
                    Some(t)
                } else {
                    old(self).exercise[itm[j] as int]
                }),
            forall|i: int|
                0 <= i < old(self).exercise.len() && no_hit(itm@, itm.len() as int, i)
                    ==> #[trigger] final(self).exercise[i] == old(self).exercise[i],
    {
        let m: usize = itm.len();
        let mut j: usize = 0;
        while j < m
            invariant
                0 <= j <= m,
                self.wf(),
                self.paths == old(self).paths,
                self.strike == old(self).strike,
                self.disc == old(self).disc,
                self.num_steps == old(self).num_steps,
                self.is_call == old(self).is_call,
                self.exercise.len() == old(self).exercise.len(),
                1 <= t < self.num_steps,
                m == itm.len(),
                itm.len() == cont.len(),
                forall|q: int| 0 <= q < m ==> #[trigger] itm[q] < old(self).spec_num_paths(),
                forall|a: int, b: int| 0 <= a < b < m ==> itm[a] != itm[b],
                forall|q: int|
                    0 <= q < j ==> #[trigger] self.exercise[itm[q] as int] == (if old(
                        self,
                    ).intrinsic_at(itm[q] as int, t as int) > cont[q] {
                        Some(t)
                    } else {
                        old(self).exercise[itm[q] as int]
                    }),
                forall|i: int|
                    0 <= i < old(self).exercise.len() && no_hit(itm@, j as int, i)
                        ==> #[trigger] self.exercise[i] == old(self).exercise[i],
            decreases m - j,
        {
            let i: usize = itm[j];
            let intr: u64 = intrinsic_exec_local(self.paths[i][t], self.strike, self.is_call);
            let cj: i64 = cont[j];
            let exercise_now: bool = if cj < 0 {
                true
            } else {
                intr > (cj as u64)
            };
            if exercise_now {
                self.exercise.set(i, Some(t));
            }
            proof {
                assert forall|i2: int|
                    0 <= i2 < old(self).exercise.len() && no_hit(itm@, j as int + 1, i2)
                        implies #[trigger] self.exercise[i2] == old(self).exercise[i2] by {
                    assert(itm[j as int] as int != i2);
                    assert(no_hit(itm@, j as int, i2));
                }
            }
            j = j + 1;
        }
    }

    /// Average of the discounted path cash flows: the price estimate.
    pub fn price(&self) -> (r: u64)
        requires
            self.wf(),
        ensures
            r as int == self.pv_sum(self.paths.len() as nat) / self.spec_num_paths(),
    {
        let n: usize = self.paths.len();
        let mut acc: u128 = 0;
        let mut i: usize = 0;
        while i < n
            invariant
                0 <= i <= n,
                self.wf(),
                n == self.paths.len(),
                acc == self.pv_sum(i as nat),
                acc <= (i as int) * (u64::MAX as int),
            decreases n - i,
        {
            let term: u64 = match self.exercise[i] {
                Some(s) => {
                    let amount: u64 = intrinsic_exec_local(
                        self.paths[i][s],
                        self.strike,
                        self.is_call,
                    );
                    let pw: u64 = fpow(self.disc, s);
                    proof {
                        lemma_fmul_le_left(amount as int, pw as int);
                    }
                    fmul(amount, pw)
                },
                None => 0,
            };
            proof {
                assert((i as int) * (u64::MAX as int) + u64::MAX <= (i as int + 1) * (
                u64::MAX as int)) by (nonlinear_arith);
                assert((n as int) * (u64::MAX as int) < u128::MAX) by (nonlinear_arith)
                    requires n <= u64::MAX;
            }
            acc = acc + (term as u128);
            i = i + 1;
        }
        proof {
            vstd::arithmetic::div_mod::lemma_div_pos_is_pos(acc as int, n as int);
            vstd::arithmetic::div_mod::lemma_div_is_ordered(
                acc as int,
                (n as int) * (u64::MAX as int),
                n as int,
            );
            vstd::arithmetic::div_mod::lemma_div_multiples_vanish(u64::MAX as int, n as int);
            assert((n as int) * (u64::MAX as int) == (u64::MAX as int) * (n as int))
                by (nonlinear_arith);
        }
        (acc / (n as u128)) as u64
    }

    /// The in-the-money selection enumerates exactly the paths whose
    /// immediate exercise pays, in strictly increasing order: every
    /// listed index is such a path, every such path among the first `n`
    /// is listed, and the listing is strictly increasing.
    pub proof fn lemma_itm_seq_characterization(self, t: int, n: nat)
        requires
            n <= self.paths.len(),
        ensures
            forall|j: int|
                0 <= j < self.itm_seq(t, n).len() ==> (#[trigger] self.itm_seq(t, n)[j]) < n
                    && self.is_itm(t, self.itm_seq(t, n)[j] as int),
            forall|i: int|
                0 <= i < n && self.is_itm(t, i) ==> self.itm_seq(t, n).contains(i as usize),
            forall|a: int, b: int|
                0 <= a < b < self.itm_seq(t, n).len() ==> self.itm_seq(t, n)[a] < self.itm_seq(
                    t,
                    n,
                )[b],
        decreases n,
    {
        if n == 0 {
        } else {
            self.lemma_itm_seq_characterization(t, (n - 1) as nat);
            let pre = self.itm_seq(t, (n - 1) as nat);
            let cur = self.itm_seq(t, n);
            if self.is_itm(t, n - 1) {
                assert(cur == pre.push((n - 1) as usize));
                assert forall|i: int|
                    0 <= i < n && self.is_itm(t, i) implies cur.contains(i as usize) by {
                    if i < n - 1 {
                        assert(pre.contains(i as usize));
                        let j = choose|j: int| 0 <= j < pre.len() && pre[j] == i as usize;
                        assert(cur[j] == i as usize);
                    } else {
                        assert(cur[cur.len() - 1] == (n - 1) as usize);
                    }
                }
            } else {
                assert(cur == pre);
            }
        }
    }

    /// After the sweep each path carries at most one cash flow: two
    /// non-zero entries of the cash-flow table for one path must share
    /// their time index.
    pub proof fn lemma_single_cash_flow(self, i: int, t1: int, t2: int)
        requires
            self.wf(),
            self.cash_flow_at(i, t1) != 0,
            self.cash_flow_at(i, t2) != 0,
        ensures
            t1 == t2,
    {
    }
}

/// Scaled polynomial evaluation `a + b x + c x^2`, rounded toward zero at
/// each product as the executable evaluation does.
pub open spec fn poly_eval_v(a: int, b: int, c: int, x: int) -> int {
    a + tmul_v(b, x) + tmul_v(tmul_v(c, x), x)
}

/// All intermediates of the scaled polynomial evaluation stay in `i64`.
pub open spec fn poly_eval_fits(a: int, b: int, c: int, x: int) -> bool {
    &&& abs_v(tmul_v(b, x)) <= i64::MAX
    &&& abs_v(tmul_v(c, x)) <= i64::MAX
    &&& abs_v(tmul_v(tmul_v(c, x), x)) <= i64::MAX
    &&& i64::MIN <= a + tmul_v(b, x) <= i64::MAX
    &&& i64::MIN <= a + tmul_v(b, x) + tmul_v(tmul_v(c, x), x) <= i64::MAX
}

/// Fitted continuation values for the selected paths.
///
/// For a solved fit, evaluates the polynomial at each path's price; for a
/// degenerate fit, falls back to the sample mean of the targets for every
/// path.  Reports [`PricingError::Overflow`] when a value leaves the
/// representable range.
/// One price is representable and its polynomial evaluation stays in range.
pub open spec fn fit_entry_ok(a: int, b: int, c: int, x: u64) -> bool {
    poly_eval_fits(a, b, c, x as int) && x <= i64::MAX
}

/// Every evaluation of the fitted polynomial over the given prices stays
/// within the representable range.
pub open spec fn eval_fits_all(a: int, b: int, c: int, xs: Seq<u64>) -> bool {
    forall|q: int| 0 <= q < xs.len() ==> #[trigger] fit_entry_ok(a, b, c, xs[q])
}

/// The output holds the fitted polynomial evaluated at every price.
pub open spec fn eval_solved_ok(a: int, b: int, c: int, xs: Seq<u64>, out: Seq<i64>) -> bool {
    &&& out.len() == xs.len()
    &&& forall|q: int|
        0 <= q < xs.len() ==> #[trigger] out[q] as int == poly_eval_v(a, b, c, xs[q] as int)
}

/// Fitted continuation values for the selected paths.
///
/// For a solved fit, evaluates the polynomial at each path's price; for a
/// degenerate fit, falls back to the sample mean of the targets for every
/// path.  Reports [`PricingError::Overflow`] exactly when a value leaves
/// the representable range.
pub fn eval_fit(xs: &Vec<u64>, ys: &Vec<u64>, fit: FitOutcome) -> (r: Result<
    Vec<i64>,
    PricingError,
>)
    requires
        xs.len() == ys.len(),
        xs.len() >= 1,
    ensures
        fit is Degenerate ==> {
            let mean = sum_prefix(ys@, ys.len() as nat) / (ys.len() as int);
            if mean <= i64::MAX {
                r matches Ok(out) && out.len() == xs.len() && forall|j: int|
                    0 <= j < out.len() ==> #[trigger] out[j] == mean
            } else {
                r == Err::<Vec<i64>, PricingError>(PricingError::Overflow)
            }
        },
        fit matches FitOutcome::Solved { a, b, c } ==> {
            &&& (eval_fits_all(a as int, b as int, c as int, xs@) <==> r is Ok)
            &&& (r matches Ok(out) ==> eval_solved_ok(a as int, b as int, c as int, xs@, out@))
            &&& (r is Err ==> r == Err::<Vec<i64>, PricingError>(PricingError::Overflow))
        },
{
    let m: usize = xs.len();
    match fit {
        FitOutcome::Degenerate => {
            let mut acc: u128 = 0;
            let mut i: usize = 0;
            while i < m
                invariant
                    0 <= i <= m,
                    m == ys.len(),
                    m == xs.len(),
                    m >= 1,
                    fit == FitOutcome::Degenerate,
                    acc == sum_prefix(ys@, i as nat),
                    acc <= (i as int) * (u64::MAX as int),
                decreases m - i,
            {
                proof {
                    assert((i as int) * (u64::MAX as int) + u64::MAX <= (i as int + 1) * (
                    u64::MAX as int)) by (nonlinear_arith);
                    assert((m as int) * (u64::MAX as int) < u128::MAX) by (nonlinear_arith)
                        requires m <= u64::MAX;
                }
                acc = acc + (ys[i] as u128);
                i = i + 1;
            }
            let mean_wide: u128 = acc / (m as u128);
            proof {
                assert(mean_wide as int == sum_prefix(ys@, ys.len() as nat) / (ys.len() as int));
            }
            if mean_wide > i64::MAX as u128 {
                return Err(PricingError::Overflow);
            }
            let mean: i64 = mean_wide as i64;
            let mut out: Vec<i64> = Vec::new();
            let mut j: usize = 0;
            while j < m
                invariant
                    0 <= j <= m,
                    m == xs.len(),
                    m == ys.len(),
                    m >= 1,
                    fit == FitOutcome::Degenerate,
                    mean as int == sum_prefix(ys@, ys.len() as nat) / (ys.len() as int),
                    out.len() == j,
                    forall|q: int| 0 <= q < j ==> #[trigger] out[q] == mean,
                decreases m - j,
            {
                out.push(mean);
                j = j + 1;
            }
            Ok(out)
        },
        FitOutcome::Solved { a, b, c } => {
            let mut out: Vec<i64> = Vec::new();
            let mut j: usize = 0;
            while j < m
                invariant
                    0 <= j <= m,
                    m == xs.len(),
                    fit == (FitOutcome::Solved { a, b, c }),
                    out.len() == j,
                    forall|q: int|
                        0 <= q < j ==> #[trigger] fit_entry_ok(a as int, b as int, c as int, xs[q]),
                    forall|q: int|
                        0 <= q < j ==> #[trigger] out[q] as int == poly_eval_v(
                            a as int,
                            b as int,
                            c as int,
                            xs[q] as int,
                        ),
                decreases m - j,
            {
                let xw: u64 = xs[j];
                let bad: bool;
                if xw > i64::MAX as u64 {
                    bad = true;
                } else {
                    let x: i64 = xw as i64;
                    let mut ok: bool = false;
                    match tmul_checked(b, x) {
                        Some(t1) => match tmul_checked(c, x) {
                            Some(cx) => match tmul_checked(cx, x) {
                                Some(t2) => match add_i64_checked(a, t1) {
                                    Some(s1) => match add_i64_checked(s1, t2) {
                                        Some(s2) => {
                                            proof {
                                                assert(poly_eval_fits(
                                                    a as int,
                                                    b as int,
                                                    c as int,
                                                    xs[j as int] as int,
                                                ));
                                            }
                                            out.push(s2);
                                            ok = true;
                                        },
                                        None => {},
                                    },
                                    None => {},
                                },
                                None => {},
                            },
                            None => {},
                        },
                        None => {},
                    }
                    bad = !ok;
                }
                if bad {
                    proof {
                        assert(!fit_entry_ok(a as int, b as int, c as int, xs[j as int]));
                        assert(!eval_fits_all(a as int, b as int, c as int, xs@)) by {
                            if eval_fits_all(a as int, b as int, c as int, xs@) {
                                assert(fit_entry_ok(a as int, b as int, c as int, xs[j as int]));
                            }
                        }
                    }
                    return Err(PricingError::Overflow);
                }
                proof {
                    assert(fit_entry_ok(a as int, b as int, c as int, xs[j as int]));
                }
                j = j + 1;
            }
            proof {
                assert(eval_fits_all(a as int, b as int, c as int, xs@));
                assert(eval_solved_ok(a as int, b as int, c as int, xs@, out@));
            }
            Ok(out)
        },
    }
}


/// Immediate exercise payoff (shared with the lattice pricer's notion).
fn intrinsic_exec_local(s: u64, strike: u64, is_call: bool) -> (r: u64)
    ensures
        r as int == intrinsic_v(s as int, strike as int, is_call),
{
    if is_call {
        if s > strike {
            s - strike
        } else {
            0
        }
    } else {
        if strike > s {
            strike - s
        } else {
            0
        }
    }
}

} // verus!
