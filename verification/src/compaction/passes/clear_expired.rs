//! Clears expired tool results: a `Retention::CurrentRun` result whose run
//! has ended (a user message follows it) is replaced by a note.

use vstd::prelude::*;
use crate::compaction::pass::PassResult;
use crate::compaction::types::av;
use crate::types::{AgentMessage, mv};
use super::reclaim::{clear_stale, clear_stale_spec};

verus! {

/// The always-on pass that clears expired current-run results.
pub struct ClearExpiredToolResults;

impl ClearExpiredToolResults {
    pub fn name(&self) -> (r: &'static str)
        ensures
            r@ == "ClearExpiredToolResults"@,
    {
        "ClearExpiredToolResults"
    }

    /// Replaces the content of every expired current-run result with
    /// `[{tool_name} result cleared after use]`, recording one action each.
    pub fn run(&self, messages: Vec<AgentMessage>) -> (r: PassResult)
        ensures
            (mv(r.messages@), av(r.actions@)) == clear_stale_spec(mv(messages@), true),
    {
        let (messages, actions) = clear_stale(messages, true);
        PassResult { messages, actions }
    }
}

} // verus!
