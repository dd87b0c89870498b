//! What a decide round and an apply batch report.

use vstd::prelude::*;

verus! {

/// What happens to a tool call and its result.
#[derive(Clone, Copy, Debug, PartialEq, Eq, Structural)]
pub enum Decision {
    Keep,
    Truncate,
    Remove,
}

/// The judge's verdict on one tool call, with the numbers behind it.
/// Probabilities are in parts per million.
pub struct Verdict {
    pub call_id: String,
    pub tool_name: String,
    /// Compact JSON of the call arguments, cut to 200 characters.
    pub arguments: String,
    pub decision: Decision,
    /// P(the call still matters); `None` when the judge did not answer.
    pub keep_call: Option<u32>,
    /// P(the verbatim result is still needed).
    pub keep_result: Option<u32>,
    /// Estimated tokens the decision frees when applied.
    pub saves_tokens: usize,
}

/// Mathematical view of a verdict.
pub ghost struct VerdictV {
    pub call_id: Seq<char>,
    pub tool_name: Seq<char>,
    pub arguments: Seq<char>,
    pub decision: Decision,
    pub keep_call: Option<u32>,
    pub keep_result: Option<u32>,
    pub saves_tokens: int,
}

impl View for Verdict {
    type V = VerdictV;

    open spec fn view(&self) -> VerdictV {
        VerdictV {
            call_id: self.call_id@,
            tool_name: self.tool_name@,
            arguments: self.arguments@,
            decision: self.decision,
            keep_call: self.keep_call,
            keep_result: self.keep_result,
            saves_tokens: self.saves_tokens as int,
        }
    }
}

impl Verdict {
    pub fn copy(&self) -> (r: Verdict)
        ensures
            r@ == self@,
    {
        Verdict {
            call_id: self.call_id.clone(),
            tool_name: self.tool_name.clone(),
            arguments: self.arguments.clone(),
            decision: self.decision,
            keep_call: self.keep_call,
            keep_result: self.keep_result,
            saves_tokens: self.saves_tokens,
        }
    }
}

pub open spec fn verdicts_view(s: Seq<Verdict>) -> Seq<VerdictV> {
    s.map_values(|v: Verdict| v@)
}

/// The judge's view of one user request when deciding what the task is.
pub struct RequestRelevance {
    /// Index of the user message in the history.
    pub message_index: usize,
    /// The request, abridged.
    pub text: String,
    /// P(still in play), parts per million; `None` when not asked.
    pub probability: Option<u32>,
    pub in_play: bool,
}

/// One judge request of the call round.
pub struct BatchReport {
    /// Message range the state rendered verbatim.
    pub from: usize,
    pub to: usize,
    /// Estimated tokens of the state after fitting.
    pub state_tokens: usize,
    pub call_ids: Vec<String>,
    /// Why the batch produced no verdicts, when it did not.
    pub failed: Option<String>,
}

/// Mathematical view of a batch report.
pub ghost struct BatchReportV {
    pub from: int,
    pub to: int,
    pub state_tokens: int,
    pub call_ids: Seq<Seq<char>>,
    pub failed: Option<Seq<char>>,
}

impl View for BatchReport {
    type V = BatchReportV;

    open spec fn view(&self) -> BatchReportV {
        BatchReportV {
            from: self.from as int,
            to: self.to as int,
            state_tokens: self.state_tokens as int,
            call_ids: self.call_ids@.map_values(|s: String| s@),
            failed: match self.failed {
                Some(e) => Some(e@),
                None => None,
            },
        }
    }
}

pub open spec fn batch_reports_view(s: Seq<BatchReport>) -> Seq<BatchReportV> {
    s.map_values(|b: BatchReport| b@)
}

/// One round of asking the judge.
pub struct DecideReport {
    pub verdicts: Vec<Verdict>,
    pub context_tokens: usize,
    /// Tokens the pending verdicts would free, all rounds included.
    pub pending_tokens: usize,
    pub requests: usize,
    pub elapsed_ms: u64,
    /// Which user requests the judge considered still in play.
    pub user_requests: Vec<RequestRelevance>,
    /// One entry per judge request of the call round.
    pub batches: Vec<BatchReport>,
}

/// Why pending edits were applied.
#[derive(Clone, Copy, Debug, PartialEq, Eq, Structural)]
pub enum ApplyTrigger {
    /// The run ended; the next request starts a fresh prompt anyway.
    RunEnd,
    /// The context passed the prune threshold mid-run.
    Threshold,
    /// A summary compaction is about to rebuild the prefix regardless.
    BeforeCompaction,
    /// The user asked.
    Manual,
    /// Pending savings reached a share of the context.
    Savings,
    /// The provider cache had gone cold.
    ColdCache,
}

/// One batch of edits.
pub struct ApplyReport {
    pub removed: usize,
    pub truncated: usize,
    /// Pending verdicts skipped because their call is pinned or gone.
    pub skipped: usize,
    pub before_tokens: usize,
    pub after_tokens: usize,
    pub before_messages: usize,
    pub after_messages: usize,
    pub trigger: ApplyTrigger,
}

} // verus!
