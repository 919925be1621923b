//! Decision logic of the Gilbert-Johnson-Keerthi (GJK) narrow phase collision
//! detection algorithm, its distance and time-of-impact variants, and the scans
//! that combine per-primitive results over complex shapes.
//!
//! The geometry itself (support points, dot products, simplex reduction) works on
//! floating point vectors and is carried out by the caller; the caller reports the
//! outcome of each geometric test to the state machines here, which decide what
//! happens next and when the run ends.
use vstd::prelude::*;

pub mod float_order;
pub mod float_value;
pub mod strategy;
pub mod pair_scan;
pub mod scan_laws;
pub mod intersect;
pub mod distance;
pub mod time_of_impact;

verus! {

/// Upper bound on the number of refinement rounds of every GJK run.
pub const MAX_ITERATIONS: u32 = 100;

} // verus!
