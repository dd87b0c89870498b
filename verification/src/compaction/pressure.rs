//! Context pressure: the measurements the passes decide on.

use vstd::prelude::*;
use crate::types::{AgentMessage, AgentMessageV, Content, ContentV, Message, MessageV, cv, mv};
use crate::tokens::{block_tokens, byte_len, ctoks, sat, ttoks, block_estimate, content_tokens, total_tokens, lemma_blocks_sum_nonneg};
use super::config::CompactionConfig;
use super::policy::{is_compactable_tool, is_compactable_tool_result, ALREADY_COMPACTED_THRESHOLD};

verus! {

/// Measurements of a message list against a configuration.
#[derive(Clone, Copy, Debug)]
pub struct Pressure {
    pub message_tokens: usize,
    pub estimated_tokens: usize,
    /// Tokens of tool results microcompaction may clear.
    pub compactable_tool_result_tokens: usize,
    /// Number of such results.
    pub compactable_tool_result_count: usize,
    pub max_tool_result_tokens: usize,
    pub max_user_tokens: usize,
    pub message_count: usize,
    /// Images weigh too much against the budget.
    pub image_pressure: bool,
    /// The estimated context is past the structural trigger.
    pub estimate_pressure: bool,
}

/// UTF-8 bytes of the text blocks of a content list (saturating).
pub open spec fn text_bytes(s: Seq<ContentV>) -> int
    decreases s.len(),
{
    if s.len() == 0 {
        0
    } else {
        sat(text_bytes(s.drop_last()) + match s.last() {
            ContentV::Text { text } => byte_len(text) as int,
            _ => 0int,
        })
    }
}

/// Tokens of the image blocks of a content list (saturating).
pub open spec fn image_block_tokens(s: Seq<ContentV>) -> int
    decreases s.len(),
{
    if s.len() == 0 {
        0
    } else {
        sat(image_block_tokens(s.drop_last()) + match s.last() {
            ContentV::Image { .. } => block_tokens(s.last()),
            _ => 0int,
        })
    }
}

/// Per-message statistics: compactable tokens, compactable count, largest
/// tool result, largest user message, image tokens (all saturating).
pub open spec fn stats_of(ms: Seq<AgentMessageV>) -> (int, int, int, int, int)
    decreases ms.len(),
{
    if ms.len() == 0 {
        (0, 0, 0, 0, 0)
    } else {
        let (ct, cc, mt, mu, im) = stats_of(ms.drop_last());
        match ms.last() {
            AgentMessageV::Llm(MessageV::ToolResult { tool_name, content, .. }) => {
                let t = ctoks(content);
                let compactable = is_compactable_tool(tool_name) && text_bytes(content) >= ALREADY_COMPACTED_THRESHOLD;
                (
                    if compactable { sat(ct + t) } else { ct },
                    if compactable { sat(cc + 1) } else { cc },
                    if t > mt { t } else { mt },
                    mu,
                    im,
                )
            },
            AgentMessageV::Llm(MessageV::User { content, .. }) => {
                let t = ctoks(content);
                (ct, cc, mt, if t > mu { t } else { mu }, sat(im + image_block_tokens(content)))
            },
            _ => (ct, cc, mt, mu, im),
        }
    }
}

/// The pressure of `ms` given an estimate of the whole context.
pub open spec fn pressure_of(p: Pressure, ms: Seq<AgentMessageV>, config: CompactionConfig, estimated: int) -> bool {
    let (ct, cc, mt, mu, im) = stats_of(ms);
    let trigger = config.spec_compact_trigger();
    &&& p.message_tokens == ttoks(ms)
    &&& p.estimated_tokens == estimated
    &&& p.compactable_tool_result_tokens == ct
    &&& p.compactable_tool_result_count == cc
    &&& p.max_tool_result_tokens == mt
    &&& p.max_user_tokens == mu
    &&& p.message_count == ms.len()
    &&& p.image_pressure == (im > config.budget_tokens / 4 && (estimated > trigger || im > config.budget_tokens / 2))
    &&& p.estimate_pressure == (estimated > trigger)
}

/// The pressure of `ms` given an estimate of the whole context.
pub open spec fn pressure_spec(ms: Seq<AgentMessageV>, config: CompactionConfig, estimated: usize) -> Pressure {
    let (ct, cc, mt, mu, im) = stats_of(ms);
    let trigger = config.spec_compact_trigger();
    Pressure {
        message_tokens: ttoks(ms) as usize,
        estimated_tokens: estimated,
        compactable_tool_result_tokens: ct as usize,
        compactable_tool_result_count: cc as usize,
        max_tool_result_tokens: mt as usize,
        max_user_tokens: mu as usize,
        message_count: ms.len() as usize,
        image_pressure: im > config.budget_tokens / 4 && (estimated > trigger || im > config.budget_tokens / 2),
        estimate_pressure: estimated > trigger,
    }
}

/// UTF-8 bytes of the text blocks.
pub fn text_len(content: &[Content]) -> (r: usize)
    ensures
        r == text_bytes(cv(content@)),
{
    let mut acc: usize = 0;
    let mut i: usize = 0;
    while i < content.len()
        invariant
            i <= content@.len(),
            acc == text_bytes(cv(content@.take(i as int))),
        decreases content@.len() - i,
    {
        proof {
            assert(cv(content@.take(i + 1)).drop_last() =~= cv(content@.take(i as int)));
            assert(cv(content@.take(i + 1)).last() == content@[i as int]@);
        }
        if let Content::Text { text } = &content[i] {
            acc = acc.saturating_add(text.as_str().as_bytes().len());
        } else {
            acc = acc.saturating_add(0);
        }
        i = i + 1;
    }
    proof {
        assert(content@.take(content@.len() as int) =~= content@);
    }
    acc
}

proof fn lemma_image_nonneg(s: Seq<ContentV>)
    ensures
        image_block_tokens(s) >= 0,
    decreases s.len(),
{
    if s.len() > 0 {
        lemma_image_nonneg(s.drop_last());
    }
}

fn image_len(content: &[Content]) -> (r: usize)
    ensures
        r == image_block_tokens(cv(content@)),
{
    let mut acc: usize = 0;
    let mut i: usize = 0;
    while i < content.len()
        invariant
            i <= content@.len(),
            acc == image_block_tokens(cv(content@.take(i as int))),
        decreases content@.len() - i,
    {
        proof {
            assert(cv(content@.take(i + 1)).drop_last() =~= cv(content@.take(i as int)));
            assert(cv(content@.take(i + 1)).last() == content@[i as int]@);
            lemma_image_nonneg(cv(content@.take(i as int)));
        }
        if let Content::Image { .. } = &content[i] {
            acc = acc.saturating_add(block_estimate(&content[i]));
        } else {
            acc = acc.saturating_add(0);
        }
        i = i + 1;
    }
    proof {
        assert(content@.take(content@.len() as int) =~= content@);
    }
    acc
}

proof fn lemma_stats_nonneg(ms: Seq<AgentMessageV>)
    ensures
        stats_of(ms).0 >= 0 && stats_of(ms).1 >= 0 && stats_of(ms).2 >= 0 && stats_of(ms).3 >= 0 && stats_of(ms).4 >= 0,
        stats_of(ms).2 <= usize::MAX && stats_of(ms).3 <= usize::MAX,
    decreases ms.len(),
{
    if ms.len() > 0 {
        lemma_stats_nonneg(ms.drop_last());
        match ms.last() {
            AgentMessageV::Llm(MessageV::ToolResult { content, .. }) => lemma_blocks_sum_nonneg(content),
            AgentMessageV::Llm(MessageV::User { content, .. }) => {
                lemma_blocks_sum_nonneg(content);
                lemma_image_nonneg(content);
            },
            _ => {},
        }
    }
}

fn compute_message_stats(messages: &[AgentMessage]) -> (r: (usize, usize, usize, usize, usize))
    ensures
        (r.0 as int, r.1 as int, r.2 as int, r.3 as int, r.4 as int) == stats_of(mv(messages@)),
{
    let mut ct: usize = 0;
    let mut cc: usize = 0;
    let mut mt: usize = 0;
    let mut mu: usize = 0;
    let mut im: usize = 0;
    let mut i: usize = 0;
    while i < messages.len()
        invariant
            i <= messages@.len(),
            (ct as int, cc as int, mt as int, mu as int, im as int) == stats_of(mv(messages@.take(i as int))),
        decreases messages@.len() - i,
    {
        proof {
            assert(mv(messages@.take(i + 1)).drop_last() =~= mv(messages@.take(i as int)));
            assert(mv(messages@.take(i + 1)).last() == messages@[i as int]@);
            lemma_stats_nonneg(mv(messages@.take(i as int)));
        }
        match &messages[i] {
            AgentMessage::Llm(Message::ToolResult { tool_name, content, .. }) => {
                let t = content_tokens(content);
                if is_compactable_tool_result(tool_name.as_str(), text_len(content)) {
                    ct = ct.saturating_add(t);
                    cc = cc.saturating_add(1);
                }
                if t > mt {
                    mt = t;
                }
            },
            AgentMessage::Llm(Message::User { content, .. }) => {
                let t = content_tokens(content);
                if t > mu {
                    mu = t;
                }
                im = im.saturating_add(image_len(content));
            },
            _ => {},
        }
        i = i + 1;
    }
    proof {
        assert(messages@.take(messages@.len() as int) =~= messages@);
    }
    (ct, cc, mt, mu, im)
}

impl Pressure {
    /// Measures `messages` against `config`, with `estimated_tokens` the
    /// estimate of the whole request.
    pub fn from_messages(messages: &[AgentMessage], config: &CompactionConfig, estimated_tokens: usize) -> (p: Pressure)
        ensures
            pressure_of(p, mv(messages@), *config, estimated_tokens as int),
            p == pressure_spec(mv(messages@), *config, estimated_tokens),
    {
        let message_tokens = total_tokens(messages);
        let (ct, cc, mt, mu, im) = compute_message_stats(messages);
        let trigger = config.compact_trigger();
        let image_pressure = im > config.budget_tokens / 4 && (estimated_tokens > trigger || im
            > config.budget_tokens / 2);
        Pressure {
            message_tokens,
            estimated_tokens,
            compactable_tool_result_tokens: ct,
            compactable_tool_result_count: cc,
            max_tool_result_tokens: mt,
            max_user_tokens: mu,
            message_count: messages.len(),
            image_pressure,
            estimate_pressure: estimated_tokens > trigger,
        }
    }
}

} // verus!
