//! Planning and running the steps of a pipeline: their order, their cache
//! keys, their iteration and their retries.

pub mod dag;
pub mod cache;
pub mod iterate;
pub mod retry;
pub mod runner;
pub mod flow;
pub mod start;
