//! Inclusive ranges from which sizes and counts are drawn
use vstd::prelude::*;

use rand::rngs::StdRng;

use crate::random::gen_range;

verus! {

/// Represents the minimum and maximum boundary for a given count or size.
/// Both boundaries are inclusive.
#[derive(Debug, Clone, Copy, PartialEq, Eq, Structural)]
pub struct Bounds {
    pub min: usize,
    pub max: usize,
}

impl Bounds {
    /// A value can be drawn: the range is not empty and its end can be computed
    pub open spec fn can_gen(self) -> bool {
        self.min <= self.max && self.max < usize::MAX
    }

    /// The value lies within the bounds
    pub open spec fn holds(self, v: int) -> bool {
        self.min <= v <= self.max
    }

    /// Draws a value between the bounds, both included
    pub fn gen(&self, rng: &mut StdRng) -> (r: usize)
        requires
            self.can_gen(),
        ensures
            self.holds(r as int),
    {
        // Need to add 1 for this to be an inclusive range
        gen_range(rng, self.min, self.max + 1)
    }
}

impl From<(usize, usize)> for Bounds {
    fn from(pair: (usize, usize)) -> (r: Self) {
        Bounds { min: pair.0, max: pair.1 }
    }
}

impl vstd::std_specs::convert::FromSpecImpl<(usize, usize)> for Bounds {
    open spec fn obeys_from_spec() -> bool {
        true
    }

    open spec fn from_spec(v: (usize, usize)) -> Bounds {
        Bounds { min: v.0, max: v.1 }
    }
}

} // verus!
