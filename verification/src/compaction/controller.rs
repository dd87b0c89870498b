//! The compaction controller's decisions across turns: the overflow
//! compact-and-retry allowance, threshold suppression, and handling of the
//! previous summary message around a compaction run. The agent loop performs
//! the compaction and the provider calls; these functions decide.

use vstd::prelude::*;
use crate::compaction::config::CompactionConfig;
use crate::compaction::memory::CompactionState;
use crate::compaction::types::CompactionStats;
use crate::text::str_eq;
use crate::types::{AgentMessage, AgentMessageV, Content, ContentV, Message, MessageV, is_assistant, mv};

verus! {

/// What the agent loop does after a response.
#[derive(Clone, Copy, Debug, PartialEq, Eq, Structural)]
pub enum AfterResponseAction {
    Continue,
    Retry,
}

/// Why a compaction ran.
#[derive(Clone, Copy, Debug, PartialEq, Eq, Structural)]
pub enum CompactReason {
    Overflow,
    Threshold,
}

/// Threshold compactions for this model and threshold are suppressed: the
/// last one did not bring usage back under the limit.
pub struct ThresholdKey {
    pub model: String,
    pub threshold: usize,
}

/// State kept across turns of the agent loop.
pub struct CompactionController {
    pub config: CompactionConfig,
    pub overflow_recovery_attempted: bool,
    pub last_compaction_ts: Option<u64>,
    pub threshold_suppression: Option<ThresholdKey>,
    /// Cross-compaction state (previous summary, cumulative file ops).
    pub state: CompactionState,
}

/// The suppression names `model` at `threshold`.
pub open spec fn suppresses(s: Option<ThresholdKey>, model: Seq<char>, threshold: int) -> bool {
    match s {
        Some(k) => k.model@ == model && k.threshold == threshold,
        None => false,
    }
}

impl CompactionController {
    pub fn new(config: CompactionConfig) -> (r: CompactionController)
        ensures
            r.config == config,
            !r.overflow_recovery_attempted,
            r.last_compaction_ts is None,
            r.threshold_suppression is None,
            r.state.generation == 0,
            r.state.timestamp == 0,
    {
        CompactionController {
            config,
            overflow_recovery_attempted: false,
            last_compaction_ts: None,
            threshold_suppression: None,
            state: CompactionState::initial(),
        }
    }

    /// Seeds the cross-compaction state (e.g. restored from a session).
    pub fn with_state(self, state: CompactionState) -> (r: CompactionController)
        ensures
            r.last_compaction_ts == (if state.timestamp > 0 { Some(state.timestamp) } else { None::<u64> }),
            r.state == state,
            r.config == self.config,
            r.overflow_recovery_attempted == self.overflow_recovery_attempted,
            r.threshold_suppression == self.threshold_suppression,
    {
        let mut s = self;
        s.last_compaction_ts = if state.timestamp > 0 { Some(state.timestamp) } else { None };
        s.state = state;
        s
    }

    /// The cross-compaction state, for persistence by the caller.
    pub fn state(&self) -> (r: &CompactionState)
        ensures
            r == &self.state,
    {
        &self.state
    }

    pub fn config(&self) -> (r: &CompactionConfig)
        ensures
            r == &self.config,
    {
        &self.config
    }

    /// A new user turn: the compact-and-retry allowance is restored.
    pub fn on_user_message(&mut self)
        ensures
            !final(self).overflow_recovery_attempted,
            final(self).config == old(self).config,
            final(self).last_compaction_ts == old(self).last_compaction_ts,
            final(self).threshold_suppression == old(self).threshold_suppression,
            final(self).state == old(self).state,
    {
        self.overflow_recovery_attempted = false;
    }

    /// A response other than an error completed: the allowance is restored.
    pub fn on_non_error_response(&mut self)
        ensures
            !final(self).overflow_recovery_attempted,
            final(self).config == old(self).config,
            final(self).last_compaction_ts == old(self).last_compaction_ts,
            final(self).threshold_suppression == old(self).threshold_suppression,
            final(self).state == old(self).state,
    {
        self.overflow_recovery_attempted = false;
    }

    /// Whether a threshold compaction for `model` is suppressed now.
    pub fn threshold_suppressed(&self, model: &str) -> (r: bool)
        ensures
            r == suppresses(self.threshold_suppression, model@, self.config.spec_trigger_threshold()),
    {
        match &self.threshold_suppression {
            Some(k) => str_eq(k.model.as_str(), model) && k.threshold == self.config.trigger_threshold(),
            None => false,
        }
    }

    /// After a threshold compaction that ran: further ones for this model
    /// and threshold wait until usage recovers.
    pub fn arm_threshold_suppression(&mut self, model: &str)
        ensures
            suppresses(final(self).threshold_suppression, model@, old(self).config.spec_trigger_threshold()),
            final(self).config == old(self).config,
            final(self).overflow_recovery_attempted == old(self).overflow_recovery_attempted,
            final(self).last_compaction_ts == old(self).last_compaction_ts,
            final(self).state == old(self).state,
    {
        let threshold = self.config.trigger_threshold();
        self.threshold_suppression = Some(ThresholdKey { model: crate::text::owned(model), threshold });
    }

    /// Lifts a suppression that names `model`.
    pub fn clear_suppression_for(&mut self, model: &str)
        ensures
            final(self).threshold_suppression == (match old(self).threshold_suppression {
                Some(k) => if k.model@ == model@ { None::<ThresholdKey> } else { Some(k) },
                None => None::<ThresholdKey>,
            }),
            final(self).config == old(self).config,
            final(self).overflow_recovery_attempted == old(self).overflow_recovery_attempted,
            final(self).last_compaction_ts == old(self).last_compaction_ts,
            final(self).state == old(self).state,
    {
        let hit = match &self.threshold_suppression {
            Some(k) => str_eq(k.model.as_str(), model),
            None => false,
        };
        if hit {
            self.threshold_suppression = None;
        }
    }

    /// Usage reported after the last compaction and back under the
    /// threshold re-arms threshold compaction for the current model; usage
    /// for another model, or older than the last compaction, is ignored.
    pub fn clear_suppression_if_recovered(
        &mut self,
        usage_model: &str,
        usage_timestamp: u64,
        usage_context_tokens: usize,
        current_model: &str,
    )
        ensures
            ({
                let ignored = old(self).config.context_window == 0 || usage_model@ != current_model@ || (match old(
                    self,
                ).last_compaction_ts {
                    Some(t) => usage_timestamp > 0 && t > 0 && usage_timestamp <= t,
                    None => false,
                });
                let clears = !ignored && usage_context_tokens <= old(self).config.spec_trigger_threshold();
                final(self).threshold_suppression == if clears {
                    match old(self).threshold_suppression {
                        Some(k) => if k.model@ == current_model@ { None::<ThresholdKey> } else { Some(k) },
                        None => None::<ThresholdKey>,
                    }
                } else {
                    old(self).threshold_suppression
                }
            }),
            final(self).config == old(self).config,
            final(self).overflow_recovery_attempted == old(self).overflow_recovery_attempted,
            final(self).last_compaction_ts == old(self).last_compaction_ts,
            final(self).state == old(self).state,
    {
        if self.config.context_window == 0 || !str_eq(usage_model, current_model) {
            return;
        }
        if let Some(last_ts) = self.last_compaction_ts {
            if usage_timestamp > 0 && last_ts > 0 && usage_timestamp <= last_ts {
                return;
            }
        }
        if usage_context_tokens <= self.config.trigger_threshold() {
            self.clear_suppression_for(current_model);
        }
    }

    /// The estimate-driven check: whether a threshold compaction should be
    /// attempted for `estimated_tokens`. Below the threshold the model's
    /// suppression is lifted.
    pub fn estimate_calls_for_compaction(&mut self, estimated_tokens: usize, current_model: &str) -> (r: bool)
        ensures
            r == (old(self).config.context_window != 0 && estimated_tokens >= old(self).config.spec_trigger_threshold()),
            (old(self).config.context_window != 0 && estimated_tokens < old(self).config.spec_trigger_threshold())
                ==> final(self).threshold_suppression == (match old(self).threshold_suppression {
                Some(k) => if k.model@ == current_model@ { None::<ThresholdKey> } else { Some(k) },
                None => None::<ThresholdKey>,
            }),
            !(old(self).config.context_window != 0 && estimated_tokens < old(self).config.spec_trigger_threshold())
                ==> final(self).threshold_suppression == old(self).threshold_suppression,
            final(self).config == old(self).config,
            final(self).overflow_recovery_attempted == old(self).overflow_recovery_attempted,
            final(self).state == old(self).state,
    {
        if self.config.context_window == 0 {
            return false;
        }
        if estimated_tokens < self.config.trigger_threshold() {
            self.clear_suppression_for(current_model);
            return false;
        }
        true
    }

    /// Records a compaction that produced `state`.
    pub fn record_compaction(&mut self, state: CompactionState)
        ensures
            final(self).last_compaction_ts == Some(state.timestamp),
            final(self).state == state,
            final(self).config == old(self).config,
            final(self).overflow_recovery_attempted == old(self).overflow_recovery_attempted,
            final(self).threshold_suppression == old(self).threshold_suppression,
    {
        self.last_compaction_ts = Some(state.timestamp);
        self.state = state;
    }

    /// The response to an overflow after compaction was attempted: a retry
    /// when asked for and compaction ran (spending the turn's allowance).
    pub fn overflow_response(
        &mut self,
        will_retry: bool,
        stats: Option<CompactionStats>,
        cancelled: bool,
        context_tokens: usize,
    ) -> (r: CompactionResponse)
        ensures
            ({
                let compacted = stats is Some;
                let retry = will_retry && compacted;
                &&& r.action == (if retry { AfterResponseAction::Retry } else { AfterResponseAction::Continue })
                &&& r.stats == stats
                &&& r.reason == Some(CompactReason::Overflow)
                &&& r.context_tokens == Some(context_tokens)
                &&& !r.overflow_exhausted
                &&& r.overflow_recovery_failed == (will_retry && !retry && !cancelled)
                &&& final(self).overflow_recovery_attempted == (old(self).overflow_recovery_attempted || retry)
            }),
            final(self).config == old(self).config,
            final(self).last_compaction_ts == old(self).last_compaction_ts,
            final(self).threshold_suppression == old(self).threshold_suppression,
            final(self).state == old(self).state,
    {
        let retry = will_retry && stats.is_some();
        if retry {
            self.overflow_recovery_attempted = true;
        }
        CompactionResponse {
            action: if retry { AfterResponseAction::Retry } else { AfterResponseAction::Continue },
            stats,
            reason: Some(CompactReason::Overflow),
            context_tokens: Some(context_tokens),
            overflow_exhausted: false,
            overflow_recovery_failed: will_retry && !retry && !cancelled,
        }
    }

    /// The response to a threshold compaction for `model`: one that ran
    /// suppresses the next until usage recovers.
    pub fn threshold_response(&mut self, model: &str, stats: Option<CompactionStats>, context_tokens: usize) -> (r: CompactionResponse)
        ensures
            r.action == AfterResponseAction::Continue,
            r.stats == stats,
            r.reason == Some(CompactReason::Threshold),
            r.context_tokens == Some(context_tokens),
            !r.overflow_exhausted,
            !r.overflow_recovery_failed,
            stats is Some ==> suppresses(final(self).threshold_suppression, model@, old(self).config.spec_trigger_threshold()),
            stats is None ==> final(self).threshold_suppression == old(self).threshold_suppression,
            final(self).config == old(self).config,
            final(self).overflow_recovery_attempted == old(self).overflow_recovery_attempted,
            final(self).state == old(self).state,
    {
        if stats.is_some() {
            self.arm_threshold_suppression(model);
        }
        CompactionResponse {
            action: AfterResponseAction::Continue,
            stats,
            reason: Some(CompactReason::Threshold),
            context_tokens: Some(context_tokens),
            overflow_exhausted: false,
            overflow_recovery_failed: false,
        }
    }
}

/// The response when the overflow allowance is spent and the context still
/// overflows: no retry, the loop tells the user.
pub fn overflow_exhausted_response(context_tokens: usize) -> (r: CompactionResponse)
    ensures
        r.action == AfterResponseAction::Continue,
        r.stats is None,
        r.reason == Some(CompactReason::Overflow),
        r.context_tokens == Some(context_tokens),
        r.overflow_exhausted,
        !r.overflow_recovery_failed,
{
    CompactionResponse {
        action: AfterResponseAction::Continue,
        stats: None,
        reason: Some(CompactReason::Overflow),
        context_tokens: Some(context_tokens),
        overflow_exhausted: true,
        overflow_recovery_failed: false,
    }
}

/// Before retrying an overflowed request, the failed assistant response is
/// dropped.
pub fn drop_failed_response(messages: &mut Vec<AgentMessage>, will_retry: bool)
    ensures
        mv(final(messages)@) == if will_retry && old(messages)@.len() > 0 && is_assistant(mv(old(messages)@).last()) {
            mv(old(messages)@).drop_last()
        } else {
            mv(old(messages)@)
        },
{
    if will_retry && messages.len() > 0 {
        let last = messages.len() - 1;
        let is_a = match &messages[last] {
            AgentMessage::Llm(Message::Assistant { .. }) => true,
            _ => false,
        };
        proof {
            assert(mv(messages@).last() == messages@[last as int]@);
        }
        if is_a {
            let ghost before = messages@;
            messages.pop();
            proof {
                assert(messages@ =~= before.drop_last());
                assert(mv(messages@) =~= mv(before).drop_last());
            }
        }
    }
}

/// `m` is a user message made of exactly one text block equal to `expected`.
pub open spec fn exact_user_text(m: AgentMessageV, expected: Seq<char>) -> bool {
    match m {
        AgentMessageV::Llm(MessageV::User { content, .. }) => content.len() == 1 && content[0] == ContentV::Text {
            text: expected,
        },
        _ => false,
    }
}

pub fn is_exact_user_text(message: &AgentMessage, expected: &str) -> (r: bool)
    ensures
        r == exact_user_text(message@, expected@),
{
    match message {
        AgentMessage::Llm(Message::User { content, .. }) => {
            if content.len() != 1 {
                return false;
            }
            proof {
                assert(crate::types::cv(content@)[0] == content@[0]@);
            }
            match &content[0] {
                Content::Text { text } => str_eq(text.as_str(), expected),
                _ => false,
            }
        },
        _ => false,
    }
}

/// Takes the recorded summary message out of the history so the
/// summarizer receives it once, as the previous summary; returns where it
/// was and the message.
pub fn take_summary_message(messages: &mut Vec<AgentMessage>, summary: Option<&str>) -> (r: Option<(usize, AgentMessage)>)
    ensures
        match r {
            Some((i, m)) => {
                &&& summary is Some
                &&& i < old(messages)@.len()
                &&& exact_user_text(m@, summary->0@)
                &&& m@ == mv(old(messages)@)[i as int]
                &&& forall|j: int| 0 <= j < i ==> !exact_user_text(#[trigger] mv(old(messages)@)[j], summary->0@)
                &&& mv(final(messages)@) == mv(old(messages)@).remove(i as int)
            },
            None => {
                &&& mv(final(messages)@) == mv(old(messages)@)
                &&& (summary matches Some(s) ==> forall|j: int| 0 <= j < old(messages)@.len() ==> !exact_user_text(#[trigger] mv(old(messages)@)[j], s@))
            },
        },
{
    let s = match summary {
        Some(s) => s,
        None => return None,
    };
    let mut i: usize = 0;
    while i < messages.len()
        invariant
            i <= messages@.len(),
            messages@ == old(messages)@,
            summary == Some(s),
            forall|j: int| 0 <= j < i ==> !exact_user_text(#[trigger] mv(old(messages)@)[j], s@),
        decreases messages@.len() - i,
    {
        if is_exact_user_text(&messages[i], s) {
            let ghost before = messages@;
            let m = messages.remove(i);
            proof {
                assert(m == before[i as int]);
                assert(mv(before)[i as int] == before[i as int]@);
                assert(mv(messages@) =~= mv(before).remove(i as int));
            }
            return Some((i, m));
        }
        i = i + 1;
    }
    None
}

/// Puts a taken summary message back at its place (or at the end when the
/// history became shorter).
pub fn restore_removed_summary(messages: &mut Vec<AgentMessage>, removed: Option<(usize, AgentMessage)>)
    ensures
        match removed {
            Some((i, m)) => mv(final(messages)@) == mv(old(messages)@).insert(
                if i < old(messages)@.len() { i as int } else { old(messages)@.len() as int },
                m@,
            ),
            None => mv(final(messages)@) == mv(old(messages)@),
        },
{
    if let Some((index, message)) = removed {
        let at = if index < messages.len() { index } else { messages.len() };
        let ghost before = messages@;
        let ghost mview = message@;
        messages.insert(at, message);
        proof {
            assert(mv(messages@) =~= mv(before).insert(at as int, mview));
        }
    }
}

/// Taking the summary message out and restoring it gives back the history
/// it was taken from.
pub proof fn lemma_take_then_restore(ms: Seq<AgentMessageV>, i: int)
    requires
        0 <= i < ms.len(),
    ensures
        ms.remove(i).insert(if i < ms.remove(i).len() { i } else { ms.remove(i).len() as int }, ms[i]) == ms,
{
    assert(ms.remove(i).insert(i, ms[i]) =~= ms);
}

/// What the compaction controller tells the agent loop.
pub struct CompactionResponse {
    pub action: AfterResponseAction,
    /// Stats when a compaction ran.
    pub stats: Option<CompactionStats>,
    pub reason: Option<CompactReason>,
    pub context_tokens: Option<usize>,
    /// The overflow allowance was spent and the context still overflows.
    pub overflow_exhausted: bool,
    /// An overflow asked for compact-and-retry and compaction could not run.
    pub overflow_recovery_failed: bool,
}

impl CompactionResponse {
    /// Nothing to do.
    pub fn skip() -> (r: CompactionResponse)
        ensures
            r.action == AfterResponseAction::Continue,
            r.stats is None,
            r.reason is None,
            r.context_tokens is None,
            !r.overflow_exhausted,
            !r.overflow_recovery_failed,
    {
        CompactionResponse {
            action: AfterResponseAction::Continue,
            stats: None,
            reason: None,
            context_tokens: None,
            overflow_exhausted: false,
            overflow_recovery_failed: false,
        }
    }
}

} // verus!
