//! Exact expected-value solver for the 3x3 scratch-card game in which the
//! nine cells hide the digits 1-9 and the payout is decided by the sum of
//! one chosen line (row, column or diagonal).
//!
//! Expectations are exact rationals: every expectation produced by the
//! solver is an integer payout total divided by a permutation count, so it
//! is carried as a numerator/denominator pair of integers rather than a
//! float, and the contracts pin both components exactly.

pub mod board;
pub mod book;
pub mod payout;
pub mod solver;

use vstd::prelude::*;

verus! {

} // verus!
