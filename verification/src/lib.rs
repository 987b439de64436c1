//! Sparse XOR adaptation of binary language models.
//!
//! A model is adapted by flipping whole rows of its one-bit tensors. Flipping a row
//! again undoes it, so a patch is a list of rows, and it is removed by applying it once
//! more. The library maps the tensors of a model, measures how it answers probes,
//! searches for rows that make it better on some probes and not worse on others, and
//! keeps the model and the record of what was flipped in step.

pub mod architecture;
pub mod backend;
pub mod cli;
pub mod error;
pub mod fitness;
pub mod flip_set;
pub mod float;
pub mod laws;
pub mod patch;
pub mod patched;
pub mod probe;
pub mod restore;
pub mod search;
pub mod text;

pub use crate::architecture::{ArchitectureMap, Projection, TensorInfo};
pub use crate::backend::MiyagiBackend;
pub use crate::error::Error;
pub use crate::fitness::FitnessMode;
pub use crate::patch::{Patch, PatchFlip, ValidatedPatch};
pub use crate::probe::{CompiledProbe, Probe, ProbeMeasurement};
pub use crate::search::{SearchCheckpoint, SearchConfig, SearchResult};
