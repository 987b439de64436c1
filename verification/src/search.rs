//! The search for a patch.

pub mod checkpoint;
pub mod config;
pub mod evaluate;
pub mod host;
pub mod interruption;
pub mod laws;
pub mod layers;
pub mod pool;
pub mod replay;
pub mod report;
pub mod run;
pub mod sampling;
pub mod screen;
pub mod session;
pub mod state;

pub use crate::search::checkpoint::SearchCheckpoint;
pub use crate::search::config::SearchConfig;
pub use crate::search::host::{SearchHost, Watched};
pub use crate::search::layers::{default_search_layers, resolve_search_layers};
pub use crate::search::report::{ModelPatchState, SearchEvent, SearchResult};
pub use crate::search::run::run_search;
pub use crate::search::sampling::SplitMix64;
pub use crate::search::screen::screen_indices;
pub use crate::search::session::SearchSession;
