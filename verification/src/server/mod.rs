//! The daemon's in-memory state and decisions that outlive a request.

pub mod logging;
pub mod push;
pub mod trigger;
pub mod routine;
pub mod daemon;
