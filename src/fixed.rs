//! Fixed-point representation of real quantities.
//!
//! Probabilities, scores, weights and confidences are integers in parts per
//! million: `SCALE` stands for 1.0. Sample values are signed integers in
//! micro-units of the sensor's own unit.

use vstd::prelude::*;

verus! {

/// The integer that stands for 1.0.
pub const SCALE: u64 = 1_000_000;

} // verus!
