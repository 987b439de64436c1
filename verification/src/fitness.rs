//! How the gaps of several probes become one number.

use vstd::prelude::*;

verus! {

/// What counts as an improvement of the target probes.
#[derive(Clone, Copy, Debug, PartialEq, Eq, Structural)]
pub enum FitnessMode {
    /// The mean improvement.
    Mean,
    /// The smallest improvement.
    Min,
}

impl FitnessMode {
    /// The mode in a word.
    pub open spec fn name(self) -> Seq<char> {
        match self {
            FitnessMode::Mean => "mean"@,
            FitnessMode::Min => "min"@,
        }
    }

    pub fn word(self) -> (r: &'static str)
        ensures
            r@ == self.name(),
    {
        match self {
            FitnessMode::Mean => "mean",
            FitnessMode::Min => "min",
        }
    }
}

} // verus!
