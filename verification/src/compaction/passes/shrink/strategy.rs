//! What the shrink pass does with each message.

use vstd::prelude::*;
use crate::compaction::policy::ToolPolicy;
use crate::tokens::{content_tokens, ctoks};
use crate::types::{AgentMessage, AgentMessageV, Content, ContentV, Message, MessageV, cv, mv};
use super::outline::{ToolCallEntry, entries_view};

verus! {

/// The fate of one tool result.
#[derive(Clone, Copy, Debug, PartialEq, Eq, Structural)]
pub enum ToolShrinkDecision {
    Keep,
    OversizeCap,
    AgeClear,
    NormalTrunc,
}

/// What the tool-result decision reads.
pub struct ToolDecisionInput<'a> {
    pub tokens: usize,
    pub is_recent: bool,
    pub running_tokens: usize,
    pub budget: usize,
    pub oversize_token_threshold: usize,
    pub policy: &'a ToolPolicy,
}

/// An oversized result is capped even when recent; an old one is cleared by
/// age when its tool allows it and the running total is over budget, or
/// else truncated when over budget.
pub open spec fn tool_decision(
    tokens: int,
    is_recent: bool,
    running: int,
    budget: int,
    threshold: int,
    age: Option<usize>,
) -> ToolShrinkDecision {
    if tokens >= threshold {
        ToolShrinkDecision::OversizeCap
    } else if is_recent {
        ToolShrinkDecision::Keep
    } else if age matches Some(t) && tokens > t && running > budget {
        ToolShrinkDecision::AgeClear
    } else if running > budget {
        ToolShrinkDecision::NormalTrunc
    } else {
        ToolShrinkDecision::Keep
    }
}

pub fn classify_tool_result(input: ToolDecisionInput) -> (r: ToolShrinkDecision)
    ensures
        r == tool_decision(
            input.tokens as int,
            input.is_recent,
            input.running_tokens as int,
            input.budget as int,
            input.oversize_token_threshold as int,
            input.policy.age_clear_threshold,
        ),
{
    if input.tokens >= input.oversize_token_threshold {
        return ToolShrinkDecision::OversizeCap;
    }
    if input.is_recent {
        return ToolShrinkDecision::Keep;
    }
    if let Some(threshold) = input.policy.age_clear_threshold {
        if input.tokens > threshold && input.running_tokens > input.budget {
            return ToolShrinkDecision::AgeClear;
        }
    }
    if input.running_tokens > input.budget {
        return ToolShrinkDecision::NormalTrunc;
    }
    ToolShrinkDecision::Keep
}

/// The fate of one user message.
#[derive(Clone, Copy, Debug, PartialEq, Eq, Structural)]
pub enum UserAction {
    Keep,
    TruncateOversized,
    StripImages,
}

pub open spec fn has_image(c: Seq<ContentV>) -> bool {
    exists|k: int| 0 <= k < c.len() && #[trigger] c[k] is Image
}

/// Images go first under image pressure; pinned and recent messages are
/// kept; an older message above the oversize threshold is truncated.
pub open spec fn user_decision(
    is_pinned: bool,
    is_recent: bool,
    image_pressure: bool,
    c: Seq<ContentV>,
    threshold: int,
) -> UserAction {
    if image_pressure && has_image(c) {
        UserAction::StripImages
    } else if is_pinned || is_recent {
        UserAction::Keep
    } else if ctoks(c) > threshold {
        UserAction::TruncateOversized
    } else {
        UserAction::Keep
    }
}

pub fn has_image_block(content: &[Content]) -> (r: bool)
    ensures
        r == has_image(cv(content@)),
{
    let mut i: usize = 0;
    while i < content.len()
        invariant
            i <= content@.len(),
            forall|k: int| 0 <= k < i ==> !(#[trigger] cv(content@)[k] is Image),
        decreases content@.len() - i,
    {
        proof {
            assert(cv(content@)[i as int] == content@[i as int]@);
        }
        if let Content::Image { .. } = &content[i] {
            return true;
        }
        i = i + 1;
    }
    false
}

pub fn classify_user_action(
    is_pinned: bool,
    is_recent: bool,
    _running_tokens: usize,
    _budget: usize,
    image_pressure: bool,
    content: &[Content],
    oversize_threshold: usize,
) -> (r: UserAction)
    ensures
        r == user_decision(is_pinned, is_recent, image_pressure, cv(content@), oversize_threshold as int),
{
    let has_images = has_image_block(content);
    if image_pressure && has_images {
        return UserAction::StripImages;
    }
    if is_pinned || is_recent {
        return UserAction::Keep;
    }
    let tokens = content_tokens(content);
    if tokens > oversize_threshold {
        return UserAction::TruncateOversized;
    }
    UserAction::Keep
}

/// The (id, arguments) of the tool calls of a content list, in order.
pub open spec fn calls_of(c: Seq<ContentV>) -> Seq<(Seq<char>, Seq<char>)>
    decreases c.len(),
{
    if c.len() == 0 {
        Seq::empty()
    } else {
        calls_of(c.drop_last()) + match c.last() {
            ContentV::ToolCall { id, arguments, .. } => seq![(id, arguments)],
            _ => Seq::empty(),
        }
    }
}

/// The (id, arguments) of every tool call the assistant made, in order.
pub open spec fn call_entries(ms: Seq<AgentMessageV>) -> Seq<(Seq<char>, Seq<char>)>
    decreases ms.len(),
{
    if ms.len() == 0 {
        Seq::empty()
    } else {
        call_entries(ms.drop_last()) + match ms.last() {
            AgentMessageV::Llm(MessageV::Assistant { content, .. }) => calls_of(content),
            _ => Seq::empty(),
        }
    }
}

fn push_calls(index: &mut Vec<ToolCallEntry>, content: &[Content])
    ensures
        entries_view(final(index)@) == entries_view(old(index)@) + calls_of(cv(content@)),
{
    let mut i: usize = 0;
    while i < content.len()
        invariant
            i <= content@.len(),
            entries_view(index@) == entries_view(old(index)@) + calls_of(cv(content@.take(i as int))),
        decreases content@.len() - i,
    {
        proof {
            assert(cv(content@.take(i + 1)).drop_last() =~= cv(content@.take(i as int)));
            assert(cv(content@.take(i + 1)).last() == content@[i as int]@);
        }
        let ghost pi = index@;
        if let Content::ToolCall { id, arguments, .. } = &content[i] {
            index.push(ToolCallEntry { id: id.clone(), arguments: arguments.clone() });
            proof {
                assert(entries_view(index@) =~= entries_view(pi) + seq![(id@, arguments@)]);
            }
        } else {
            proof {
                assert(calls_of(cv(content@.take(i + 1))) =~= calls_of(cv(content@.take(i as int))));
            }
        }
        i = i + 1;
    }
    proof {
        assert(content@.take(content@.len() as int) =~= content@);
    }
}

/// Every tool call of the history by id, for outline extraction; a later
/// call with the same id takes precedence on lookup.
pub fn build_tool_call_index(messages: &[AgentMessage]) -> (r: Vec<ToolCallEntry>)
    ensures
        entries_view(r@) == call_entries(mv(messages@)),
{
    let mut index: Vec<ToolCallEntry> = Vec::new();
    let mut i: usize = 0;
    while i < messages.len()
        invariant
            i <= messages@.len(),
            entries_view(index@) == call_entries(mv(messages@.take(i as int))),
        decreases messages@.len() - i,
    {
        proof {
            assert(mv(messages@.take(i + 1)).drop_last() =~= mv(messages@.take(i as int)));
            assert(mv(messages@.take(i + 1)).last() == messages@[i as int]@);
        }
        if let AgentMessage::Llm(Message::Assistant { content, .. }) = &messages[i] {
            push_calls(&mut index, content.as_slice());
        } else {
            proof {
                assert(entries_view(index@) =~= entries_view(index@) + Seq::<(Seq<char>, Seq<char>)>::empty());
            }
        }
        i = i + 1;
    }
    proof {
        assert(messages@.take(messages@.len() as int) =~= messages@);
    }
    index
}

} // verus!
