//! Verified core of the weaveflow DAG pipeline engine.

pub mod text;
pub mod json;
pub mod number;
pub mod float;
pub mod graph;
pub mod sorted;
pub mod dsl;
pub mod engine;
pub mod runtime;
pub mod operator;
pub mod cli;
pub mod server;
pub mod error;

use vstd::prelude::*;

verus! {

/// Whether the CLI and the daemon build codes warrant a warning: both are
/// known (neither is `"unknown"`) and they differ.
pub fn build_code_mismatch(cli: &str, daemon: &str) -> (r: bool)
    ensures
        r == (cli@ != "unknown"@ && daemon@ != "unknown"@ && cli@ != daemon@),
{
    let c = text::chars_of(cli);
    let d = text::chars_of(daemon);
    let u = text::chars_of("unknown");
    !text::chars_eq(&c, &u) && !text::chars_eq(&d, &u) && !text::chars_eq(&c, &d)
}

} // verus!
