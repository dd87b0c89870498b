//! Where eviction may happen: after the protected opening exchange and
//! before the protected recent turns.

use vstd::prelude::*;
use crate::compaction::config::CompactionConfig;
use crate::compaction::passes::shrink::pass::sat_sub;
use crate::types::{AgentMessage, AgentMessageV, Content, ContentV, Message, MessageV, cv, is_tool_call, is_tool_result, is_user, mv};
use super::Span;

verus! {

/// A user message starts a turn.
pub fn is_turn_start(message: &AgentMessage) -> (r: bool)
    ensures
        r == is_user(message@),
{
    match message {
        AgentMessage::Llm(Message::User { .. }) => true,
        _ => false,
    }
}

pub open spec fn has_call(c: Seq<ContentV>) -> bool {
    exists|k: int| 0 <= k < c.len() && is_tool_call(#[trigger] c[k])
}

/// An assistant message that calls tools.
pub open spec fn calls_tools(m: AgentMessageV) -> bool {
    match m {
        AgentMessageV::Llm(MessageV::Assistant { content, .. }) => has_call(content),
        _ => false,
    }
}

pub fn has_call_block(content: &[Content]) -> (r: bool)
    ensures
        r == has_call(cv(content@)),
{
    let mut i: usize = 0;
    while i < content.len()
        invariant
            i <= content@.len(),
            forall|k: int| 0 <= k < i ==> !is_tool_call(#[trigger] cv(content@)[k]),
        decreases content@.len() - i,
    {
        proof {
            assert(cv(content@)[i as int] == content@[i as int]@);
        }
        if let Content::ToolCall { .. } = &content[i] {
            proof {
                assert(is_tool_call(cv(content@)[i as int]));
            }
            return true;
        }
        i = i + 1;
    }
    false
}

pub fn is_tool_call_assistant(message: &AgentMessage) -> (r: bool)
    ensures
        r == calls_tools(message@),
{
    match message {
        AgentMessage::Llm(Message::Assistant { content, .. }) => has_call_block(content.as_slice()),
        _ => false,
    }
}

/// Message `e` extends the protected prefix: an answer without tool calls
/// right after a user message, or a tool result right after the call.
pub open spec fn extends_prefix(ms: Seq<AgentMessageV>, e: int) -> bool {
    e > 0 && ((ms[e] is Llm && ms[e]->0 is Assistant && !calls_tools(ms[e]) && is_user(ms[e - 1])) || (
    is_tool_result(ms[e]) && calls_tools(ms[e - 1])))
}

/// The end of the protected prefix, grown from `e`.
pub open spec fn prefix_end_from(ms: Seq<AgentMessageV>, e: int) -> int
    decreases ms.len() - e,
{
    if e >= ms.len() || e < 0 {
        e
    } else if extends_prefix(ms, e) {
        prefix_end_from(ms, e + 1)
    } else {
        e
    }
}

fn is_plain_assistant(m: &AgentMessage) -> (r: bool)
    ensures
        r == (m@ is Llm && m@->0 is Assistant && !calls_tools(m@)),
{
    match m {
        AgentMessage::Llm(Message::Assistant { content, .. }) => !has_call_block(content.as_slice()),
        _ => false,
    }
}

fn is_result(m: &AgentMessage) -> (r: bool)
    ensures
        r == is_tool_result(m@),
{
    match m {
        AgentMessage::Llm(Message::ToolResult { .. }) => true,
        _ => false,
    }
}

pub fn protected_prefix_end(messages: &[AgentMessage], keep_first: usize) -> (r: usize)
    ensures
        r == prefix_end_from(mv(messages@), if keep_first < messages@.len() { keep_first as int } else { messages@.len() as int }),
        r <= messages@.len(),
{
    let ghost ms = mv(messages@);
    let mut end = if keep_first < messages.len() { keep_first } else { messages.len() };
    let ghost e0 = end as int;
    while end < messages.len()
        invariant
            end <= messages@.len(),
            ms == mv(messages@),
            prefix_end_from(ms, e0) == prefix_end_from(ms, end as int),
            e0 == (if keep_first < messages@.len() { keep_first as int } else { messages@.len() as int }),
        decreases messages@.len() - end,
    {
        proof {
            assert(ms[end as int] == messages@[end as int]@);
            if end > 0 {
                assert(ms[end - 1] == messages@[end - 1]@);
            }
        }
        let a = end > 0 && is_plain_assistant(&messages[end]) && is_turn_start(&messages[end - 1]);
        let b = end > 0 && is_result(&messages[end]) && is_tool_call_assistant(&messages[end - 1]);
        proof {
            assert((a || b) == extends_prefix(ms, end as int));
        }
        if a || b {
            end = end + 1;
        } else {
            return end;
        }
    }
    end
}

/// From `s` back to the nearest turn start (or the first message).
pub open spec fn suffix_from(ms: Seq<AgentMessageV>, s: int) -> int
    decreases s,
{
    if s <= 0 || s >= ms.len() {
        s
    } else if is_user(ms[s]) {
        s
    } else {
        suffix_from(ms, s - 1)
    }
}

/// Where the protected suffix starts: the turn start at or before
/// `recent_floor`.
pub open spec fn suffix_start(ms: Seq<AgentMessageV>, recent_floor: int) -> int {
    let s = if recent_floor < ms.len() { recent_floor } else { ms.len() as int };
    if s == ms.len() {
        s
    } else {
        suffix_from(ms, s)
    }
}

fn protected_suffix_start(messages: &[AgentMessage], recent_floor: usize) -> (r: usize)
    ensures
        r == suffix_start(mv(messages@), recent_floor as int),
        r <= messages@.len(),
{
    let ghost ms = mv(messages@);
    let mut start = if recent_floor < messages.len() { recent_floor } else { messages.len() };
    if start == messages.len() {
        return start;
    }
    let ghost s0 = start as int;
    while start > 0 && !is_turn_start(&messages[start])
        invariant
            start < messages@.len(),
            ms == mv(messages@),
            suffix_from(ms, s0) == suffix_from(ms, start as int),
        decreases start,
    {
        proof {
            assert(ms[start as int] == messages@[start as int]@);
        }
        start = start - 1;
    }
    proof {
        if start > 0 {
            assert(ms[start as int] == messages@[start as int]@);
        }
    }
    start
}

/// Bounds for token eviction: after the protected prefix, up to the recent
/// floor but always at least to the last message.
pub open spec fn token_bounds_spec(ms: Seq<AgentMessageV>, c: CompactionConfig) -> Option<Span> {
    let kf = if c.keep_first < ms.len() { c.keep_first as int } else { ms.len() as int };
    let start = prefix_end_from(ms, kf);
    let floor = sat_sub(ms.len() as int, c.keep_recent as int);
    let last = sat_sub(ms.len() as int, 1);
    let end = if floor > last { floor } else { last };
    if start < end {
        Some(Span { start: start as usize, end: end as usize })
    } else {
        None
    }
}

pub fn token_eviction_bounds(messages: &[AgentMessage], config: &CompactionConfig) -> (r: Option<Span>)
    ensures
        r == token_bounds_spec(mv(messages@), *config),
        r matches Some(s) ==> s.start < s.end <= messages@.len(),
{
    let kf = if config.keep_first < messages.len() { config.keep_first } else { messages.len() };
    let start = protected_prefix_end(messages, kf);
    let floor = messages.len().saturating_sub(config.keep_recent);
    let last = messages.len().saturating_sub(1);
    let end = if floor > last { floor } else { last };
    if start < end {
        Some(Span { start, end })
    } else {
        None
    }
}

/// Bounds for count eviction: after the protected prefix, before the turn
/// that holds the recent floor.
pub open spec fn bounds_spec(ms: Seq<AgentMessageV>, c: CompactionConfig) -> Option<Span> {
    let kf = if c.keep_first < ms.len() { c.keep_first as int } else { ms.len() as int };
    let start = prefix_end_from(ms, kf);
    let end = suffix_start(ms, sat_sub(ms.len() as int, c.keep_recent as int));
    if start < end {
        Some(Span { start: start as usize, end: end as usize })
    } else {
        None
    }
}

pub fn eviction_bounds(messages: &[AgentMessage], config: &CompactionConfig) -> (r: Option<Span>)
    ensures
        r == bounds_spec(mv(messages@), *config),
        r matches Some(s) ==> s.start < s.end <= messages@.len(),
{
    let kf = if config.keep_first < messages.len() { config.keep_first } else { messages.len() };
    let start = protected_prefix_end(messages, kf);
    let end = protected_suffix_start(messages, messages.len().saturating_sub(config.keep_recent));
    if start < end {
        Some(Span { start, end })
    } else {
        None
    }
}

} // verus!
