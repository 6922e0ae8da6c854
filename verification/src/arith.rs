//! Exact arbitrary-precision arithmetic.
//!
//! The numeric tower is built in three layers: arbitrary-precision
//! naturals stored as base-2^32 limbs, signed integers as a sign and a
//! magnitude, and rationals as an integer numerator over a positive
//! natural denominator.

pub mod natural;
pub mod integer;
pub mod rational;

use vstd::prelude::*;

verus! {

} // verus!
