//! Early-exercise option pricing over exact fixed-point arithmetic.
//!
//! Prices, rates and probabilities are carried as integers scaled by
//! [`fixed::SCALE`], so every algorithm in this crate is deterministic and
//! its result is pinned exactly by its contract.  The crate holds the
//! discrete core of an American-option pricing system: a binomial-lattice
//! dynamic program, the bookkeeping and decision layer of the
//! Longstaff-Schwartz regression pricer, Euler paths for a
//! stochastic-volatility process with absorption at zero, the integer heart
//! of the variate generator (xoshiro256++ with splitmix64 seeding), and the
//! standard-error estimate used to compare pricers.  Transcendental
//! parameter derivation (exponentials, normal quantiles) is left to callers,
//! who hand in already-scaled values.

use vstd::prelude::*;

pub mod brownian;
pub mod grid;
pub mod correlate;
pub mod fixed;
pub mod gbm;
pub mod heston;
pub mod lattice;
pub mod lsm;
pub mod rng;
pub mod stats;

verus! {

/// Failure modes shared by the pricing routines.
///
/// `InvalidParameter` rejects a call before any computation; `Overflow`
/// reports that a value left the representable fixed-point range.
#[derive(Clone, Copy, Debug, PartialEq, Eq, Structural)]
pub enum PricingError {
    InvalidParameter,
    Overflow,
}

} // verus!
