//! Token estimation: fast, dependency-free budgeting estimates.
//!
//! Text costs about one token per four UTF-8 bytes. Sums saturate at
//! `usize::MAX` instead of wrapping.

use vstd::prelude::*;
use vstd::utf8::encode_utf8;
use crate::types::{AgentMessage, AgentMessageV, Content, ContentV, ImageSource, ImageSourceV, Message, MessageV, cv, mv};

verus! {

/// UTF-8 length of a character sequence, in bytes.
pub open spec fn byte_len(s: Seq<char>) -> nat {
    encode_utf8(s).len()
}

/// Estimated tokens of a text: its UTF-8 length divided by four, rounded up.
pub open spec fn est(s: Seq<char>) -> int {
    ((byte_len(s) + 3) / 4) as int
}

/// `x`, capped at `usize::MAX`.
pub open spec fn sat(x: int) -> int {
    if x > usize::MAX {
        usize::MAX as int
    } else {
        x
    }
}

/// Smallest estimate for an image (the provider minimum).
pub const IMAGE_MIN_TOKENS: usize = 85;
/// Largest estimate for an image.
pub const IMAGE_MAX_TOKENS: usize = 16_000;

/// Image estimate: three raw bytes per four base64 characters, about 750 raw
/// bytes a token, clamped to `[85, 16000]`. An image held as a file path is
/// billed at the minimum until the request re-reads it.
pub open spec fn image_tokens(src: ImageSourceV) -> int {
    match src {
        ImageSourceV::Base64 { data, .. } => {
            let t: int = ((byte_len(data) * 3 / 4) / 750) as int;
            if t < IMAGE_MIN_TOKENS {
                IMAGE_MIN_TOKENS as int
            } else if t > IMAGE_MAX_TOKENS {
                IMAGE_MAX_TOKENS as int
            } else {
                t as int
            }
        },
        ImageSourceV::Path { .. } => IMAGE_MIN_TOKENS as int,
    }
}

/// Estimated tokens of one content block.
pub open spec fn block_tokens(c: ContentV) -> int {
    match c {
        ContentV::Text { text } => est(text),
        ContentV::Image { source } => image_tokens(source),
        ContentV::Thinking { thinking, .. } => est(thinking),
        ContentV::ToolCall { name, arguments, .. } => sat(est(name) + est(arguments) + 8),
    }
}

/// Sum of the block estimates of a content list.
pub open spec fn blocks_sum(s: Seq<ContentV>) -> int
    decreases s.len(),
{
    if s.len() == 0 {
        0
    } else {
        blocks_sum(s.drop_last()) + block_tokens(s.last())
    }
}

/// Estimated tokens of a content list (saturating).
pub open spec fn ctoks(s: Seq<ContentV>) -> int {
    sat(blocks_sum(s))
}

/// Estimated tokens of one message.
pub open spec fn mtoks(m: AgentMessageV) -> int {
    match m {
        AgentMessageV::Llm(MessageV::User { content, .. }) => sat(ctoks(content) + 4),
        AgentMessageV::Llm(MessageV::Assistant { content, .. }) => sat(ctoks(content) + 4),
        AgentMessageV::Llm(MessageV::ToolResult { content, tool_name, .. }) => sat(
            ctoks(content) + est(tool_name) + 8,
        ),
        AgentMessageV::Extension { data, .. } => sat(est(data) + 4),
    }
}

/// Sum of the message estimates of a history.
pub open spec fn msgs_sum(s: Seq<AgentMessageV>) -> int
    decreases s.len(),
{
    if s.len() == 0 {
        0
    } else {
        msgs_sum(s.drop_last()) + mtoks(s.last())
    }
}

/// Estimated tokens of a history (saturating).
pub open spec fn ttoks(s: Seq<AgentMessageV>) -> int {
    sat(msgs_sum(s))
}

pub proof fn lemma_blocks_sum_nonneg(s: Seq<ContentV>)
    ensures
        blocks_sum(s) >= 0,
    decreases s.len(),
{
    if s.len() > 0 {
        lemma_blocks_sum_nonneg(s.drop_last());
    }
}

pub proof fn lemma_mtoks_nonneg(m: AgentMessageV)
    ensures
        0 <= mtoks(m) <= usize::MAX,
{
    match m {
        AgentMessageV::Llm(MessageV::User { content, .. }) => lemma_blocks_sum_nonneg(content),
        AgentMessageV::Llm(MessageV::Assistant { content, .. }) => lemma_blocks_sum_nonneg(content),
        AgentMessageV::Llm(MessageV::ToolResult { content, .. }) => lemma_blocks_sum_nonneg(content),
        _ => {},
    }
}

pub proof fn lemma_msgs_sum_nonneg(s: Seq<AgentMessageV>)
    ensures
        msgs_sum(s) >= 0,
    decreases s.len(),
{
    if s.len() > 0 {
        lemma_msgs_sum_nonneg(s.drop_last());
        lemma_mtoks_nonneg(s.last());
    }
}

/// `msgs_sum` distributes over concatenation.
pub proof fn lemma_msgs_sum_concat(a: Seq<AgentMessageV>, b: Seq<AgentMessageV>)
    ensures
        msgs_sum(a + b) == msgs_sum(a) + msgs_sum(b),
    decreases b.len(),
{
    if b.len() == 0 {
        assert(a + b =~= a);
    } else {
        lemma_msgs_sum_concat(a, b.drop_last());
        assert((a + b).drop_last() =~= a + b.drop_last());
    }
}

/// `blocks_sum` distributes over concatenation.
pub proof fn lemma_blocks_sum_concat(a: Seq<ContentV>, b: Seq<ContentV>)
    ensures
        blocks_sum(a + b) == blocks_sum(a) + blocks_sum(b),
    decreases b.len(),
{
    if b.len() == 0 {
        assert(a + b =~= a);
    } else {
        lemma_blocks_sum_concat(a, b.drop_last());
        assert((a + b).drop_last() =~= a + b.drop_last());
    }
}

/// History and content estimates are additive: the estimate of two
/// histories (or content lists) joined is the sum of their estimates, as long
/// as the total fits in a `usize`; an empty one costs nothing and a single
/// message costs its own estimate.
pub proof fn lemma_estimates_additive(a: Seq<AgentMessageV>, b: Seq<AgentMessageV>, c: Seq<ContentV>, d: Seq<ContentV>, m: AgentMessageV)
    ensures
        msgs_sum(a + b) <= usize::MAX ==> ttoks(a + b) == ttoks(a) + ttoks(b),
        blocks_sum(c + d) <= usize::MAX ==> ctoks(c + d) == ctoks(c) + ctoks(d),
        ttoks(Seq::empty()) == 0,
        ctoks(Seq::empty()) == 0,
        ttoks(seq![m]) == mtoks(m),
{
    lemma_msgs_sum_concat(a, b);
    lemma_msgs_sum_nonneg(a);
    lemma_msgs_sum_nonneg(b);
    lemma_blocks_sum_concat(c, d);
    lemma_blocks_sum_nonneg(c);
    lemma_blocks_sum_nonneg(d);
    lemma_mtoks_nonneg(m);
    assert(seq![m].drop_last() =~= Seq::<AgentMessageV>::empty());
}

/// Rough token estimate: about four bytes per token, rounded up.
pub fn estimate_tokens(text: &str) -> (r: usize)
    ensures
        r == est(text@),
{
    let n = text.as_bytes().len();
    n / 4 + if n % 4 == 0 { 0 } else { 1 }
}

fn image_estimate(source: &ImageSource) -> (r: usize)
    ensures
        r == image_tokens(source@),
{
    match source {
        ImageSource::Base64 { data, .. } => {
            let raw: u128 = (data.as_str().as_bytes().len() as u128) * 3 / 4;
            let t = raw / 750;
            if t < IMAGE_MIN_TOKENS as u128 {
                IMAGE_MIN_TOKENS
            } else if t > IMAGE_MAX_TOKENS as u128 {
                IMAGE_MAX_TOKENS
            } else {
                t as usize
            }
        },
        ImageSource::Path { .. } => IMAGE_MIN_TOKENS,
    }
}

/// Estimated tokens of one content block.
pub fn block_estimate(c: &Content) -> (r: usize)
    ensures
        r == block_tokens(c@),
{
    match c {
        Content::Text { text } => estimate_tokens(text.as_str()),
        Content::Image { source } => image_estimate(source),
        Content::Thinking { thinking, .. } => estimate_tokens(thinking.as_str()),
        Content::ToolCall { name, arguments, .. } => estimate_tokens(name.as_str()).saturating_add(
            estimate_tokens(arguments.as_str()),
        ).saturating_add(8),
    }
}

/// Estimated tokens of a content list.
pub fn content_tokens(content: &[Content]) -> (r: usize)
    ensures
        r == ctoks(cv(content@)),
{
    let mut acc: usize = 0;
    let mut i: usize = 0;
    while i < content.len()
        invariant
            i <= content@.len(),
            acc == ctoks(cv(content@.take(i as int))),
        decreases content@.len() - i,
    {
        let b = block_estimate(&content[i]);
        proof {
            let pre = cv(content@.take(i as int));
            assert(cv(content@.take(i + 1)) =~= pre.push(content@[i as int]@));
            assert(cv(content@.take(i + 1)).drop_last() =~= pre);
            lemma_blocks_sum_nonneg(pre);
        }
        acc = acc.saturating_add(b);
        i = i + 1;
    }
    proof {
        assert(content@.take(content@.len() as int) =~= content@);
    }
    acc
}

/// Estimated tokens of one message.
pub fn message_tokens(msg: &AgentMessage) -> (r: usize)
    ensures
        r == mtoks(msg@),
{
    match msg {
        AgentMessage::Llm(Message::User { content, .. }) => content_tokens(content).saturating_add(
            4,
        ),
        AgentMessage::Llm(Message::Assistant { content, .. }) => content_tokens(
            content,
        ).saturating_add(4),
        AgentMessage::Llm(Message::ToolResult { content, tool_name, .. }) => content_tokens(
            content,
        ).saturating_add(estimate_tokens(tool_name.as_str())).saturating_add(8),
        AgentMessage::Extension(ext) => estimate_tokens(ext.data.as_str()).saturating_add(4),
    }
}

/// Estimated tokens of a history.
pub fn total_tokens(messages: &[AgentMessage]) -> (r: usize)
    ensures
        r == ttoks(mv(messages@)),
{
    let mut acc: usize = 0;
    let mut i: usize = 0;
    while i < messages.len()
        invariant
            i <= messages@.len(),
            acc == ttoks(mv(messages@.take(i as int))),
        decreases messages@.len() - i,
    {
        let t = message_tokens(&messages[i]);
        proof {
            let pre = mv(messages@.take(i as int));
            assert(mv(messages@.take(i + 1)) =~= pre.push(messages@[i as int]@));
            assert(mv(messages@.take(i + 1)).drop_last() =~= pre);
            lemma_msgs_sum_nonneg(pre);
        }
        acc = acc.saturating_add(t);
        i = i + 1;
    }
    proof {
        assert(messages@.take(messages@.len() as int) =~= messages@);
    }
    acc
}

} // verus!
