//! The command-line client: its settings and the requests it makes.

pub mod config;
pub mod client;
pub mod mcp;
pub mod watch;
