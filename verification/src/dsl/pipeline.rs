//! The top-level pipeline definition.

use vstd::prelude::*;
use crate::json::Json;
use crate::dsl::step::StepDef;
use crate::dsl::storage::StorageDef;
use crate::dsl::variable::RefValue;

verus! {

/// An input slot: its name and the JSON Schema its values must meet.
#[derive(Debug, Clone)]
pub struct SlotDef {
    pub name: String,
    pub schema: Json,
}

/// A pipeline: its slots, its steps, and the value it outputs.
#[derive(Debug, Clone)]
pub struct PipelineDef {
    pub name: String,
    pub description: Option<String>,
    pub storage: Option<StorageDef>,
    pub slots: Vec<SlotDef>,
    pub steps: Vec<StepDef>,
    pub output: RefValue,
}

} // verus!
