//! Stateful sample filters: a recursive mean and an outlier rejector.
//!
//! Each filter is modelled as a plain state value with a pure transition:
//! `step` gives the state after a sample and `output` the value handed back
//! for it. The executable filters refine these transitions exactly.

pub mod mean;
pub mod plausible;

pub use self::mean::{MeanFilter, MeanState};
pub use self::plausible::{PlausibleFilter, PlausibleState};
use vstd::prelude::*;

verus! {

/// Distance between two integers.
pub open spec fn distance(a: int, b: int) -> int {
    if a >= b {
        a - b
    } else {
        b - a
    }
}

/// A sample filter with memory: takes one sample and hands back the filtered
/// value.
pub trait Filter {
    fn filter(&mut self, value: i32) -> i32;
}

} // verus!
