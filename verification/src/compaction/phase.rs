//! The settings a compaction phase reads, and what it returns.

use vstd::prelude::*;
use crate::types::AgentMessage;
use super::types::CompactionAction;

verus! {

pub struct BudgetTargets {
    pub max_tokens: usize,
    pub compact_target: usize,
}

pub struct RetentionBounds {
    pub keep_recent: usize,
    pub keep_first: usize,
    pub max_messages: usize,
    pub message_limit_target_pct: u8,
}

pub struct ShrinkSettings {
    pub tool_output_max_lines: usize,
}

pub struct PhaseResult {
    pub messages: Vec<AgentMessage>,
    pub actions: Vec<CompactionAction>,
}

} // verus!
