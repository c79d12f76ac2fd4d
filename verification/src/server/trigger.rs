//! Trigger events, and why a push into a stream trigger is refused.

use vstd::prelude::*;
use crate::text::to_string;
use crate::server::push::buffer_accepts;

verus! {

/// Something that happened to a trigger.
#[derive(Debug)]
pub struct TriggerEvent {
    pub trigger: String,
    /// `fired` (a task was made), `failed` (submitting failed) or `dropped`
    /// (refused while draining or at the concurrency limit).
    pub kind: String,
    pub task_id: Option<String>,
    pub error: Option<String>,
    /// When, in RFC 3339.
    pub at: String,
}

impl TriggerEvent {
    pub fn fired(trigger: &str, task_id: &str, at: String) -> (r: TriggerEvent)
        ensures
            r.trigger@ == trigger@,
            r.kind@ == "fired"@,
            r.task_id matches Some(t) && t@ == task_id@,
            r.error is None,
            r.at == at,
    {
        TriggerEvent { trigger: to_string(trigger), kind: to_string("fired"), task_id: Some(to_string(task_id)), error: None, at }
    }

    pub fn failed(trigger: &str, error: &str, at: String) -> (r: TriggerEvent)
        ensures
            r.trigger@ == trigger@,
            r.kind@ == "failed"@,
            r.task_id is None,
            r.error matches Some(e) && e@ == error@,
            r.at == at,
    {
        TriggerEvent { trigger: to_string(trigger), kind: to_string("failed"), task_id: None, error: Some(to_string(error)), at }
    }

    pub fn dropped(trigger: &str, reason: &str, at: String) -> (r: TriggerEvent)
        ensures
            r.trigger@ == trigger@,
            r.kind@ == "dropped"@,
            r.task_id is None,
            r.error matches Some(e) && e@ == reason@,
            r.at == at,
    {
        TriggerEvent { trigger: to_string(trigger), kind: to_string("dropped"), task_id: None, error: Some(to_string(reason)), at }
    }
}

/// Why a push is refused.
#[derive(Debug, Clone, Copy, PartialEq, Eq, Structural)]
pub enum PushError {
    NotFound,
    NotStream,
    Full { cap: usize, buffered: usize },
}

/// The outcome of pushing `n` items into a stream trigger's buffer that
/// holds `prev` of at most `cap`: the new count, or `Full`.
pub fn push_outcome(prev: usize, n: usize, cap: usize) -> (r: Result<usize, PushError>)
    ensures
        prev + n <= cap ==> r == Ok::<usize, PushError>((prev + n) as usize),
        prev + n > cap ==> r == Err::<usize, PushError>(PushError::Full { cap, buffered: prev }),
{
    match buffer_accepts(prev, n, cap) {
        Some(total) => Ok(total),
        None => Err(PushError::Full { cap, buffered: prev }),
    }
}

} // verus!
