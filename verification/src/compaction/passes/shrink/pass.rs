//! The shrink pass: budget-gated truncation of oversized tool results and
//! user messages.

use vstd::prelude::*;
use crate::compaction::config::CompactionConfig;
use crate::compaction::pass::{Pass, PassContext, PassLevel, PassResult, config_ok};
use crate::compaction::policy::{policy_spec, tool_policy};
use crate::compaction::pressure::Pressure;
use crate::compaction::types::{ActionV, CompactionAction, CompactionMethod, av, single_action};
use crate::text::{dec, join, join_strings, owned, push_str, push_usize};
use crate::tokens::{content_tokens, ctoks, sat};
use crate::types::{AgentMessage, AgentMessageV, Content, ContentV, Message, MessageV, cv, mv};
use super::outline::{ToolCallEntry, entries_view};
use crate::compaction::metadata::{text_parts, text_parts_of};
use super::strategy::{ToolDecisionInput, ToolShrinkDecision, UserAction, build_tool_call_index, call_entries, classify_tool_result, classify_user_action, tool_decision, user_decision};
use super::truncate::{head_tail_spec, truncate_content, truncate_content_spec, truncate_text_head_tail};

verus! {

/// `a - b`, or zero when `b` is larger.
pub open spec fn sat_sub(a: int, b: int) -> int {
    if a > b {
        a - b
    } else {
        0
    }
}

/// Tokens above which a single message is oversized: the absolute limit,
/// or the configured share of the budget (at least one token) when smaller.
pub open spec fn oversize_threshold_spec(c: CompactionConfig) -> int {
    let share = sat(c.budget_tokens as int * c.oversize_budget_ppm as int / 1_000_000);
    let floor = if share < 1 { 1 } else { share };
    if (c.oversize_abs_tokens as int) < floor {
        c.oversize_abs_tokens as int
    } else {
        floor
    }
}

fn oversize_threshold(c: &CompactionConfig) -> (r: usize)
    ensures
        r == oversize_threshold_spec(*c),
{
    let a = c.budget_tokens as u128;
    let b = c.oversize_budget_ppm as u128;
    assert(a * b <= 0xffff_ffff_ffff_ffff * 0xffff_ffff) by (nonlinear_arith)
        requires
            a <= 0xffff_ffff_ffff_ffff,
            b <= 0xffff_ffff,
    ;
    let share128 = a * b / 1_000_000;
    let share: usize = if share128 > usize::MAX as u128 {
        usize::MAX
    } else {
        share128 as usize
    };
    let floor = if share < 1 { 1 } else { share };
    if c.oversize_abs_tokens < floor {
        c.oversize_abs_tokens
    } else {
        floor
    }
}

/// The blocks that are not text, in order.
pub open spec fn non_text(c: Seq<ContentV>) -> Seq<ContentV>
    decreases c.len(),
{
    if c.len() == 0 {
        Seq::empty()
    } else {
        non_text(c.drop_last()) + match c.last() {
            ContentV::Text { .. } => Seq::empty(),
            b => seq![b],
        }
    }
}

/// An image becomes the note `[image]`.
pub open spec fn strip_image_block(b: ContentV) -> ContentV {
    match b {
        ContentV::Image { .. } => ContentV::Text { text: "[image]"@ },
        _ => b,
    }
}

pub open spec fn strip_images_spec(c: Seq<ContentV>) -> Seq<ContentV> {
    c.map_values(|b: ContentV| strip_image_block(b))
}

/// The action recorded for message `i`.
pub open spec fn act(i: int, name: Seq<char>, method: CompactionMethod, before: int, after: int) -> ActionV {
    ActionV {
        index: i,
        tool_name: name,
        method,
        before_tokens: before,
        after_tokens: after,
        end_index: None,
        related_count: None,
    }
}

pub open spec fn opt_seq(o: Option<ActionV>) -> Seq<ActionV> {
    match o {
        Some(a) => seq![a],
        None => Seq::empty(),
    }
}

/// The note left in place of an age-cleared result.
pub open spec fn age_note(name: Seq<char>, tokens: int) -> Seq<char> {
    "["@ + name + " result cleared — "@ + dec(tokens as nat) + " tokens]"@
}

/// What user message `i` of `n` becomes, with its action and the new
/// running total.
#[verifier::opaque]
pub open spec fn shrink_user(
    content: Seq<ContentV>,
    timestamp: u64,
    i: int,
    n: int,
    running: int,
    c: CompactionConfig,
    p: Pressure,
) -> (AgentMessageV, Option<ActionV>, int) {
    let same = AgentMessageV::Llm(MessageV::User { content, timestamp });
    let is_recent = i >= sat_sub(n, c.keep_recent as int);
    let is_pinned = i < c.keep_first;
    let before = ctoks(content);
    match user_decision(is_pinned, is_recent, p.image_pressure, content, oversize_threshold_spec(c)) {
        UserAction::TruncateOversized => {
            let combined = join(text_parts(content), "\n"@);
            if combined.len() == 0 {
                (same, None, running)
            } else {
                let nc = seq![ContentV::Text { text: head_tail_spec(combined, c.tool_output_max_lines as int) }]
                    + non_text(content);
                let after = ctoks(nc);
                (
                    AgentMessageV::Llm(MessageV::User { content: nc, timestamp }),
                    if after < before {
                        Some(act(i, "user"@, CompactionMethod::OversizeCapped, before, after))
                    } else {
                        None
                    },
                    if after < before {
                        sat_sub(running, before - after)
                    } else {
                        running
                    },
                )
            }
        },
        UserAction::StripImages => {
            let nc = strip_images_spec(content);
            let after = ctoks(nc);
            (
                AgentMessageV::Llm(MessageV::User { content: nc, timestamp }),
                Some(act(i, "user"@, CompactionMethod::ImageStripped, before, after)),
                if before > after {
                    sat_sub(running, before - after)
                } else {
                    running
                },
            )
        },
        UserAction::Keep => (same, None, running),
    }
}

/// What tool result `i` of `n` becomes, with its action and the new running
/// total.
#[verifier::opaque]
pub open spec fn shrink_tool(
    m: AgentMessageV,
    i: int,
    n: int,
    running: int,
    c: CompactionConfig,
    index: Seq<(Seq<char>, Seq<char>)>,
) -> (AgentMessageV, Option<ActionV>, int) {
    match m {
        AgentMessageV::Llm(MessageV::ToolResult { tool_call_id, tool_name, content, is_error, timestamp, retention }) => {
            let tokens = ctoks(content);
            let tp = policy_spec(tool_name, c.tool_output_max_lines as int);
            let is_recent = i >= sat_sub(n, c.keep_recent as int);
            let with = |nc: Seq<ContentV>|
                AgentMessageV::Llm(
                    MessageV::ToolResult { tool_call_id, tool_name, content: nc, is_error, timestamp, retention },
                );
            match tool_decision(
                tokens,
                is_recent,
                running,
                c.spec_compact_target(),
                oversize_threshold_spec(c),
                tp.age_clear_threshold,
            ) {
                ToolShrinkDecision::OversizeCap => {
                    let t = truncate_content_spec(content, tool_call_id, index, tp.oversize_max_lines as int, tp.prefer_outline);
                    let after = ctoks(t);
                    if after < tokens {
                        (with(t), Some(act(i, tool_name, CompactionMethod::OversizeCapped, tokens, after)), sat_sub(running, tokens - after))
                    } else {
                        (m, None, running)
                    }
                },
                ToolShrinkDecision::AgeClear => {
                    let r = seq![ContentV::Text { text: age_note(tool_name, tokens) }];
                    let after = ctoks(r);
                    (with(r), Some(act(i, tool_name, CompactionMethod::AgeCleared, tokens, after)), sat_sub(running, sat_sub(tokens, after)))
                },
                ToolShrinkDecision::NormalTrunc => {
                    let t = truncate_content_spec(content, tool_call_id, index, tp.normal_max_lines as int, tp.prefer_outline);
                    let after = ctoks(t);
                    if after < tokens {
                        (with(t), Some(act(i, tool_name, CompactionMethod::HeadTail, tokens, after)), sat_sub(running, tokens - after))
                    } else {
                        (m, None, running)
                    }
                },
                ToolShrinkDecision::Keep => (m, None, running),
            }
        },
        _ => (m, None, running),
    }
}

/// What message `i` of `n` becomes.
pub open spec fn shrink_msg(
    m: AgentMessageV,
    i: int,
    n: int,
    running: int,
    c: CompactionConfig,
    p: Pressure,
    index: Seq<(Seq<char>, Seq<char>)>,
) -> (AgentMessageV, Option<ActionV>, int) {
    match m {
        AgentMessageV::Llm(MessageV::User { content, timestamp }) => shrink_user(content, timestamp, i, n, running, c, p),
        _ => shrink_tool(m, i, n, running, c, index),
    }
}

/// The first `k` messages shrunk in order: the messages, the actions and the
/// running total, which starts at the measured message tokens.
pub open spec fn shrink_fold(
    ms: Seq<AgentMessageV>,
    k: int,
    c: CompactionConfig,
    p: Pressure,
    index: Seq<(Seq<char>, Seq<char>)>,
) -> (Seq<AgentMessageV>, Seq<ActionV>, int)
    decreases k,
{
    if k <= 0 {
        (Seq::empty(), Seq::empty(), p.message_tokens as int)
    } else {
        let prev = shrink_fold(ms, k - 1, c, p, index);
        let step = shrink_msg(ms[k - 1], k - 1, ms.len() as int, prev.2, c, p, index);
        (prev.0.push(step.0), prev.1 + opt_seq(step.1), step.2)
    }
}

/// The shrink pass over a whole history.
pub open spec fn shrink_spec(ms: Seq<AgentMessageV>, c: CompactionConfig, p: Pressure) -> (Seq<AgentMessageV>, Seq<ActionV>) {
    let f = shrink_fold(ms, ms.len() as int, c, p, call_entries(ms));
    (f.0, f.1)
}

/// The shrink pass runs when the messages are over the structural trigger,
/// the estimate is, or a single result or user message is oversized.
pub open spec fn shrink_should_run(c: CompactionConfig, p: Pressure) -> bool {
    let t = oversize_threshold_spec(c);
    ||| p.message_tokens > c.spec_compact_trigger()
    ||| p.estimate_pressure
    ||| p.max_tool_result_tokens >= t
    ||| p.max_user_tokens >= t
}

pub open spec fn opt_av(o: Option<CompactionAction>) -> Option<ActionV> {
    match o {
        Some(a) => Some(a@),
        None => None,
    }
}

fn push_non_text(out: &mut Vec<Content>, content: &[Content])
    ensures
        cv(final(out)@) == cv(old(out)@) + non_text(cv(content@)),
{
    let mut i: usize = 0;
    while i < content.len()
        invariant
            i <= content@.len(),
            cv(out@) == cv(old(out)@) + non_text(cv(content@.take(i as int))),
        decreases content@.len() - i,
    {
        proof {
            assert(cv(content@.take(i + 1)).drop_last() =~= cv(content@.take(i as int)));
            assert(cv(content@.take(i + 1)).last() == content@[i as int]@);
        }
        let ghost po = out@;
        match &content[i] {
            Content::Text { .. } => {
                proof {
                    assert(cv(out@) =~= cv(po) + Seq::<ContentV>::empty());
                }
            },
            other => {
                out.push(other.clone());
                proof {
                    assert(cv(out@) =~= cv(po) + seq![content@[i as int]@]);
                }
            },
        }
        i = i + 1;
    }
    proof {
        assert(content@.take(content@.len() as int) =~= content@);
    }
}

fn strip_images(content: &[Content]) -> (r: Vec<Content>)
    ensures
        cv(r@) == strip_images_spec(cv(content@)),
{
    let mut out: Vec<Content> = Vec::new();
    let mut i: usize = 0;
    while i < content.len()
        invariant
            i <= content@.len(),
            cv(out@) == strip_images_spec(cv(content@.take(i as int))),
        decreases content@.len() - i,
    {
        let ghost po = out@;
        match &content[i] {
            Content::Image { .. } => {
                out.push(Content::Text { text: owned("[image]") });
            },
            other => {
                out.push(other.clone());
            },
        }
        proof {
            assert(cv(out@) =~= cv(po).push(out@[i as int]@));
            assert(strip_images_spec(cv(content@.take(i + 1))) =~= strip_images_spec(cv(content@.take(i as int))).push(
                strip_image_block(content@[i as int]@),
            ));
        }
        i = i + 1;
    }
    proof {
        assert(content@.take(content@.len() as int) =~= content@);
    }
    out
}

fn shrink_user_message(
    content: Vec<Content>,
    timestamp: u64,
    idx: usize,
    n: usize,
    running: usize,
    config: &CompactionConfig,
    pressure: &Pressure,
) -> (r: (AgentMessage, Option<CompactionAction>, usize))
    requires
        config_ok(*config),
    ensures
        (r.0@, opt_av(r.1), r.2 as int) == shrink_user(
            cv(content@),
            timestamp,
            idx as int,
            n as int,
            running as int,
            *config,
            *pressure,
        ),
{
    reveal(shrink_user);
    let is_recent = idx >= n.saturating_sub(config.keep_recent);
    let is_pinned = idx < config.keep_first;
    let thr = oversize_threshold(config);
    let decision = classify_user_action(
        is_pinned,
        is_recent,
        running,
        config.compact_target(),
        pressure.image_pressure,
        content.as_slice(),
        thr,
    );
    match decision {
        UserAction::TruncateOversized => {
            let before = content_tokens(content.as_slice());
            let texts = text_parts_of(content.as_slice());
            let combined = join_strings(&texts, "\n");
            if combined.as_str().unicode_len() == 0 {
                return (AgentMessage::Llm(Message::User { content, timestamp }), None, running);
            }
            let mut nc: Vec<Content> = Vec::new();
            nc.push(Content::Text { text: truncate_text_head_tail(combined.as_str(), config.tool_output_max_lines) });
            push_non_text(&mut nc, content.as_slice());
            let after = content_tokens(nc.as_slice());
            proof {
                assert(cv(nc@) =~= seq![
                    ContentV::Text {
                        text: head_tail_spec(join(text_parts(cv(content@)), "\n"@), config.tool_output_max_lines as int),
                    },
                ] + non_text(cv(content@)));
            }
            if after < before {
                let a = single_action(idx, owned("user"), CompactionMethod::OversizeCapped, before, after);
                (AgentMessage::Llm(Message::User { content: nc, timestamp }), Some(a), running.saturating_sub(before - after))
            } else {
                (AgentMessage::Llm(Message::User { content: nc, timestamp }), None, running)
            }
        },
        UserAction::StripImages => {
            let before = content_tokens(content.as_slice());
            let nc = strip_images(content.as_slice());
            let after = content_tokens(nc.as_slice());
            let a = single_action(idx, owned("user"), CompactionMethod::ImageStripped, before, after);
            let run = if before > after {
                running.saturating_sub(before - after)
            } else {
                running
            };
            (AgentMessage::Llm(Message::User { content: nc, timestamp }), Some(a), run)
        },
        UserAction::Keep => (AgentMessage::Llm(Message::User { content, timestamp }), None, running),
    }
}

fn age_note_text(tool_name: &String, tokens: usize) -> (r: String)
    ensures
        r@ == age_note(tool_name@, tokens as int),
{
    let mut s = owned("[");
    push_str(&mut s, tool_name.as_str());
    push_str(&mut s, " result cleared — ");
    push_usize(&mut s, tokens);
    push_str(&mut s, " tokens]");
    s
}

fn shrink_tool_message(
    msg: AgentMessage,
    idx: usize,
    n: usize,
    running: usize,
    config: &CompactionConfig,
    index: &Vec<ToolCallEntry>,
) -> (r: (AgentMessage, Option<CompactionAction>, usize))
    requires
        config_ok(*config),
    ensures
        (r.0@, opt_av(r.1), r.2 as int) == shrink_tool(
            msg@,
            idx as int,
            n as int,
            running as int,
            *config,
            entries_view(index@),
        ),
{
    reveal(shrink_tool);
    match msg {
        AgentMessage::Llm(Message::ToolResult { tool_call_id, tool_name, content, is_error, timestamp, retention }) => {
            let tokens = content_tokens(content.as_slice());
            let tp = tool_policy(tool_name.as_str(), config.tool_output_max_lines);
            let is_recent = idx >= n.saturating_sub(config.keep_recent);
            let decision = classify_tool_result(
                ToolDecisionInput {
                    tokens,
                    is_recent,
                    running_tokens: running,
                    budget: config.compact_target(),
                    oversize_token_threshold: oversize_threshold(config),
                    policy: &tp,
                },
            );
            match decision {
                ToolShrinkDecision::OversizeCap => {
                    let t = truncate_content(
                        content.as_slice(),
                        tool_name.as_str(),
                        tool_call_id.as_str(),
                        index.as_slice(),
                        tp.oversize_max_lines,
                        tp.prefer_outline,
                    );
                    let after = content_tokens(t.as_slice());
                    if after < tokens {
                        let a = single_action(idx, tool_name.clone(), CompactionMethod::OversizeCapped, tokens, after);
                        let m = AgentMessage::Llm(
                            Message::ToolResult { tool_call_id, tool_name, content: t, is_error, timestamp, retention },
                        );
                        return (m, Some(a), running.saturating_sub(tokens - after));
                    }
                    let m = AgentMessage::Llm(
                        Message::ToolResult { tool_call_id, tool_name, content, is_error, timestamp, retention },
                    );
                    (m, None, running)
                },
                ToolShrinkDecision::AgeClear => {
                    let mut r: Vec<Content> = Vec::new();
                    r.push(Content::Text { text: age_note_text(&tool_name, tokens) });
                    let after = content_tokens(r.as_slice());
                    let a = single_action(idx, tool_name.clone(), CompactionMethod::AgeCleared, tokens, after);
                    proof {
                        assert(cv(r@) =~= seq![ContentV::Text { text: age_note(tool_name@, tokens as int) }]);
                    }
                    let m = AgentMessage::Llm(
                        Message::ToolResult { tool_call_id, tool_name, content: r, is_error, timestamp, retention },
                    );
                    (m, Some(a), running.saturating_sub(tokens.saturating_sub(after)))
                },
                ToolShrinkDecision::NormalTrunc => {
                    let t = truncate_content(
                        content.as_slice(),
                        tool_name.as_str(),
                        tool_call_id.as_str(),
                        index.as_slice(),
                        tp.normal_max_lines,
                        tp.prefer_outline,
                    );
                    let after = content_tokens(t.as_slice());
                    if after < tokens {
                        let a = single_action(idx, tool_name.clone(), CompactionMethod::HeadTail, tokens, after);
                        let m = AgentMessage::Llm(
                            Message::ToolResult { tool_call_id, tool_name, content: t, is_error, timestamp, retention },
                        );
                        return (m, Some(a), running.saturating_sub(tokens - after));
                    }
                    let m = AgentMessage::Llm(
                        Message::ToolResult { tool_call_id, tool_name, content, is_error, timestamp, retention },
                    );
                    (m, None, running)
                },
                ToolShrinkDecision::Keep => {
                    let m = AgentMessage::Llm(
                        Message::ToolResult { tool_call_id, tool_name, content, is_error, timestamp, retention },
                    );
                    (m, None, running)
                },
            }
        },
        other => (other, None, running),
    }
}

/// The shrink pass.
pub struct Shrink;

impl Pass for Shrink {
    fn level(&self) -> (r: PassLevel)
        ensures
            r == PassLevel::Shrink,
    {
        PassLevel::Shrink
    }

    fn should_run(&self, ctx: &PassContext) -> (r: bool)
        ensures
            r == shrink_should_run(*ctx.config, ctx.pressure),
    {
        let threshold = oversize_threshold(ctx.config);
        ctx.pressure.message_tokens > ctx.config.compact_trigger() || ctx.pressure.estimate_pressure
            || ctx.pressure.max_tool_result_tokens >= threshold || ctx.pressure.max_user_tokens >= threshold
    }

    fn run(&self, messages: Vec<AgentMessage>, ctx: &PassContext) -> (r: PassResult)
        ensures
            (mv(r.messages@), av(r.actions@)) == shrink_spec(mv(messages@), *ctx.config, ctx.pressure),
    {
        let ghost ms = mv(messages@);
        let ghost raw = messages@;
        let index = build_tool_call_index(messages.as_slice());
        let ghost entries = call_entries(ms);
        let n = messages.len();
        let mut running = ctx.pressure.message_tokens;
        let mut actions: Vec<CompactionAction> = Vec::new();
        let mut result: Vec<AgentMessage> = Vec::new();
        let mut idx: usize = 0;
        for msg in it: messages
            invariant
                it.seq() == raw,
                idx == it.index(),
                ms == mv(raw),
                n == raw.len(),
                entries_view(index@) == entries,
                entries == call_entries(ms),
                config_ok(*ctx.config),
                result@.len() == idx,
                (mv(result@), av(actions@), running as int) == shrink_fold(ms, idx as int, *ctx.config, ctx.pressure, entries),
        {
            proof {
                assert(msg@ == ms[idx as int]);
                assert(idx < n);
            }
            let ghost pr = result@;
            let ghost pa = actions@;
            let (m, a, run) = match msg {
                AgentMessage::Llm(Message::User { content, timestamp }) => shrink_user_message(
                    content,
                    timestamp,
                    idx,
                    n,
                    running,
                    ctx.config,
                    &ctx.pressure,
                ),
                other => shrink_tool_message(other, idx, n, running, ctx.config, &index),
            };
            result.push(m);
            match a {
                Some(x) => {
                    actions.push(x);
                },
                None => {},
            }
            running = run;
            proof {
                let prev = shrink_fold(ms, idx as int, *ctx.config, ctx.pressure, entries);
                let step = shrink_msg(ms[idx as int], idx as int, ms.len() as int, prev.2, *ctx.config, ctx.pressure, entries);
                assert(shrink_fold(ms, idx + 1, *ctx.config, ctx.pressure, entries) == (prev.0.push(step.0), prev.1 + opt_seq(step.1), step.2));
                assert(mv(result@) =~= mv(pr).push(result@[idx as int]@));
                assert(av(actions@) =~= av(pa) + opt_seq(opt_av(a)));
            }
            idx = idx + 1;
        }
        PassResult { messages: result, actions }
    }
}

} // verus!
