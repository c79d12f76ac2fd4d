//! The parameters of the tools the client offers over MCP.

use vstd::prelude::*;
use crate::cli::config::CliConfig;

verus! {

pub struct NameParam {
    /// A pipeline's or a routine's name.
    pub name: String,
}

pub struct ApplyPipelineParam {
    /// The pipeline, as YAML.
    pub yaml: String,
}

pub struct TaskParam {
    pub task_id: String,
}

pub struct SnapshotParam {
    pub task_id: String,
    pub seq: u64,
    /// At most this many bytes of the snapshot.
    pub max_bytes: Option<usize>,
}

pub struct RoutineEventsParam {
    pub name: String,
    /// Only events after this sequence number (0 by default).
    pub after: Option<u64>,
    /// At most this many events (50 by default).
    pub limit: Option<usize>,
}

/// The MCP server: the client's tools over its settings.
pub struct WeaveflowMcp {
    cfg: CliConfig,
}

impl WeaveflowMcp {
    pub fn new(cfg: CliConfig) -> (r: WeaveflowMcp)
        ensures
            r.config() == cfg,
    {
        WeaveflowMcp { cfg }
    }

    pub closed spec fn config(&self) -> CliConfig {
        self.cfg
    }

    pub fn cfg(&self) -> (r: &CliConfig)
        ensures
            *r == self.config(),
    {
        &self.cfg
    }
}

} // verus!
