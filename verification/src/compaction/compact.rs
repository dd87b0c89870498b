//! Structural compaction of a message list under a context configuration.

use vstd::prelude::*;
use crate::context::{CompactionBudgetState, ContextConfig};
use crate::sanitize::{paired, sanitized};
use crate::types::{AgentMessage, mv};
use super::config::{CompactionConfig, derived_config};
use super::pipeline::{pipeline_spec, run};
use super::types::CompactionResult;

verus! {

/// Runs the compaction pipeline with the compaction configuration derived
/// from `config`; summaries and markers are stamped with the clock's time.
pub fn compact_messages(messages: Vec<AgentMessage>, config: &ContextConfig, budget_state: &CompactionBudgetState) -> (r: CompactionResult)
    requires
        config.tool_output_max_lines <= usize::MAX / 360,
    ensures
        exists|c: CompactionConfig, now: u64| #![trigger pipeline_spec(mv(messages@), c, budget_state.estimated_tokens as int, now)]
            derived_config(c, *config) && mv(r.messages@) == sanitized(
                pipeline_spec(mv(messages@), c, budget_state.estimated_tokens as int, now).ms,
            ),
        paired(mv(r.messages@)),
{
    let compaction_config = CompactionConfig::from_context_config(config);
    run(messages, &compaction_config, budget_state.estimated_tokens)
}

} // verus!
