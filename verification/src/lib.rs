//! An election-tallying library: voter and candidate registries, a single
//! configurable voting window, one-vote-per-voter ballots, and tie-preserving
//! winner resolution.
//!
//! The host that sequences requests supplies a verified caller identity and a
//! monotonically increasing logical clock (block height); both arrive here as
//! plain `u64` arguments.

pub mod candidate;
pub mod election;
pub mod errors;
pub mod laws;
pub mod model;
pub mod registry;
pub mod voter;
pub mod window;
