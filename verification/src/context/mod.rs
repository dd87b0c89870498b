//! Context bookkeeping: provider-reported usage combined with estimates,
//! the context configuration, and execution limits.

pub mod limits;
pub mod tiered;

pub use limits::{ExecutionLimits, ExecutionTracker};
pub use tiered::{CompactionStrategy, DefaultCompaction, compact_messages, level1_truncate_tool_outputs, truncate_text_head_tail};

use vstd::prelude::*;
use crate::types::{AgentMessage, Usage, mv};
use crate::tokens::{msgs_sum, sat, ttoks, message_tokens, total_tokens, lemma_msgs_sum_nonneg, lemma_mtoks_nonneg};

verus! {

/// Configuration for context management.
pub struct ContextConfig {
    /// Maximum context tokens (effective input limit).
    pub max_context_tokens: usize,
    /// Tokens reserved for the system prompt.
    pub system_prompt_tokens: usize,
    /// Minimum recent messages always kept in full.
    pub keep_recent: usize,
    /// Minimum first messages always kept.
    pub keep_first: usize,
    /// Line budget of a truncated tool output.
    pub tool_output_max_lines: usize,
    /// Output headroom override for summary compaction.
    pub reserve_tokens: Option<usize>,
    /// Explicit summary-compaction trigger.
    pub trigger_tokens: Option<usize>,
    /// Retained-tail budget override.
    pub keep_recent_tokens: Option<usize>,
    /// Message-count ceiling (0: none).
    pub max_messages: usize,
    /// Share of `max_messages` evicted down to, in percent.
    pub message_limit_target_pct: u8,
}

pub open spec fn default_context_config(c: ContextConfig, max_context_tokens: int) -> bool {
    &&& c.max_context_tokens == max_context_tokens
    &&& c.system_prompt_tokens == 4_000
    &&& c.keep_recent == 10
    &&& c.keep_first == 2
    &&& c.tool_output_max_lines == 50
    &&& c.reserve_tokens is None
    &&& c.trigger_tokens is None
    &&& c.keep_recent_tokens is None
    &&& c.max_messages == 0
    &&& c.message_limit_target_pct == 80
}

impl ContextConfig {
    /// The defaults: 100k tokens, 4k for the system prompt, 10 recent and 2
    /// first messages kept, 50-line tool outputs.
    pub fn default_config() -> (r: ContextConfig)
        ensures
            default_context_config(r, 100_000),
    {
        ContextConfig {
            max_context_tokens: 100_000,
            system_prompt_tokens: 4_000,
            keep_recent: 10,
            keep_first: 2,
            tool_output_max_lines: 50,
            reserve_tokens: None,
            trigger_tokens: None,
            keep_recent_tokens: None,
            max_messages: 0,
            message_limit_target_pct: 80,
        }
    }

    /// Derive a configuration from a model's context window: 20% is reserved
    /// for output, the rest is the budget; everything else is default.
    pub fn from_context_window(context_window: u32) -> (r: ContextConfig)
        ensures
            default_context_config(r, (context_window as int) * 80 / 100),
    {
        let mut c = Self::default_config();
        c.max_context_tokens = ((context_window as u64) * 80 / 100) as usize;
        c
    }
}

/// What the compaction pipeline is told about the current request.
pub struct CompactionBudgetState {
    /// The caller's estimate of the whole request, in tokens.
    pub estimated_tokens: usize,
}

/// Tracks context size from provider usage plus estimates for the messages
/// added after the last response.
pub struct ContextTracker {
    last_usage_tokens: Option<usize>,
    last_usage_index: Option<usize>,
}

impl ContextTracker {
    pub closed spec fn usage_tokens(&self) -> Option<usize> {
        self.last_usage_tokens
    }

    pub closed spec fn usage_index(&self) -> Option<usize> {
        self.last_usage_index
    }

    pub fn new() -> (r: ContextTracker)
        ensures
            r.usage_tokens() is None,
            r.usage_index() is None,
    {
        ContextTracker { last_usage_tokens: None, last_usage_index: None }
    }

    /// Record usage of an assistant response at `message_index`; a response
    /// without any usage leaves the tracker as it was.
    pub fn record_usage(&mut self, usage: &Usage, message_index: usize)
        ensures
            ({
                let total = usage.input + usage.output + usage.cache_read + usage.cache_write;
                if total > 0 {
                    final(self).usage_tokens() == Some((if total > usize::MAX { usize::MAX as int } else { total }) as usize)
                        && final(self).usage_index() == Some(message_index)
                } else {
                    final(self).usage_tokens() == old(self).usage_tokens()
                        && final(self).usage_index() == old(self).usage_index()
                }
            }),
    {
        let total: u128 = (usage.input as u128) + (usage.output as u128) + (usage.cache_read as u128)
            + (usage.cache_write as u128);
        if total > 0 {
            let t: usize = if total > usize::MAX as u128 { usize::MAX } else { total as usize };
            self.last_usage_tokens = Some(t);
            self.last_usage_index = Some(message_index);
        }
    }

    pub open spec fn spec_estimate(&self, ms: Seq<crate::types::AgentMessageV>) -> int {
        match (self.usage_tokens(), self.usage_index()) {
            (Some(t), Some(i)) => if i < ms.len() {
                sat(t + msgs_sum(ms.skip(i + 1)))
            } else {
                ttoks(ms)
            },
            _ => ttoks(ms),
        }
    }

    /// Current context size: the last reported usage plus estimates for the
    /// messages after it; a pure estimate when no usage applies.
    pub fn estimate_context_tokens(&self, messages: &[AgentMessage]) -> (r: usize)
        ensures
            r == self.spec_estimate(mv(messages@)),
    {
        match (self.last_usage_tokens, self.last_usage_index) {
            (Some(usage_tokens), Some(idx)) => {
                if idx < messages.len() {
                    let ghost ms = mv(messages@);
                    let mut acc: usize = usage_tokens;
                    let mut i: usize = idx + 1;
                    proof {
                        assert(ms.skip(i as int).skip(0) =~= ms.skip(i as int));
                    }
                    while i < messages.len()
                        invariant
                            idx + 1 <= i <= messages@.len(),
                            ms == mv(messages@),
                            acc == sat(usage_tokens + msgs_sum(ms.subrange(idx + 1, i as int))),
                        decreases messages@.len() - i,
                    {
                        let t = message_tokens(&messages[i]);
                        proof {
                            assert(ms.subrange(idx + 1, i + 1).drop_last() =~= ms.subrange(idx + 1, i as int));
                            lemma_msgs_sum_nonneg(ms.subrange(idx + 1, i as int));
                            lemma_mtoks_nonneg(ms[i as int]);
                        }
                        acc = acc.saturating_add(t);
                        i = i + 1;
                    }
                    proof {
                        assert(ms.subrange(idx + 1, ms.len() as int) =~= ms.skip(idx + 1));
                    }
                    acc
                } else {
                    total_tokens(messages)
                }
            },
            _ => total_tokens(messages),
        }
    }

    /// Forget the usage baseline (after compaction replaced the messages).
    pub fn reset(&mut self)
        ensures
            final(self).usage_tokens() is None,
            final(self).usage_index() is None,
    {
        self.last_usage_tokens = None;
        self.last_usage_index = None;
    }
}

} // verus!
