//! What the operations are for: laws over their inputs and results.

pub mod choosing;
pub mod comparing;
pub mod evaluating;
pub mod flipping;
pub mod inspection;
pub mod layers;
pub mod numbers;
pub mod patching;
pub mod probing;
pub mod resuming;
pub mod running;
pub mod searching;
pub mod selecting;
pub mod values;
