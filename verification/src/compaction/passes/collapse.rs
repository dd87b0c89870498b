//! Collapse pass: structural summarization of old assistant turns.
//!
//! An old assistant message and the tool results that follow it become one
//! `[Summary]` line, while the running total is above the target.

use vstd::prelude::*;
use crate::compaction::config::CompactionConfig;
use crate::compaction::pass::{Pass, PassContext, PassLevel, PassResult};
use crate::compaction::pressure::Pressure;
use crate::compaction::types::{ActionV, CompactionAction, CompactionMethod, av};
use crate::sanitize::contains_string;
use crate::text::{dec, join, join_strings, lowercase, owned, push_str, push_usize, str_eq, strs, to_lowercase, trim, trimmed};
use crate::tokens::{byte_len, message_tokens, mtoks, sat};
use crate::types::{AgentMessage, AgentMessageV, Content, ContentV, Message, MessageV, StopReason, Usage, cv, is_tool_result, mv};
use super::shrink::pass::sat_sub;
use crate::clock::now_or_zero;

verus! {

/// Short acknowledgements that carry nothing worth keeping.
pub open spec fn filler(text: Seq<char>) -> bool {
    let t = lowercase(trim(text));
    ||| t == "done"@
    ||| t == "done."@
    ||| t == "ok"@
    ||| t == "ok."@
    ||| t == "sure"@
    ||| t == "sure."@
    ||| t == "i'll fix this"@
    ||| t == "let me check"@
    ||| t == "let me look"@
}

pub fn is_filler(text: &str) -> (r: bool)
    ensures
        r == filler(text@),
{
    let t = trimmed(text);
    let l = to_lowercase(t.as_str());
    let s = l.as_str();
    str_eq(s, "done") || str_eq(s, "done.") || str_eq(s, "ok") || str_eq(s, "ok.") || str_eq(s, "sure") || str_eq(
        s,
        "sure.",
    ) || str_eq(s, "i'll fix this") || str_eq(s, "let me check") || str_eq(s, "let me look")
}

/// The names of the tools called, each once, in order of first call.
pub open spec fn tool_names(c: Seq<ContentV>) -> Seq<Seq<char>>
    decreases c.len(),
{
    if c.len() == 0 {
        Seq::empty()
    } else {
        let prev = tool_names(c.drop_last());
        match c.last() {
            ContentV::ToolCall { name, .. } => if prev.contains(name) {
                prev
            } else {
                prev.push(name)
            },
            _ => prev,
        }
    }
}

/// The texts of at most 200 bytes that are not filler, in order.
pub open spec fn short_texts(c: Seq<ContentV>) -> Seq<Seq<char>>
    decreases c.len(),
{
    if c.len() == 0 {
        Seq::empty()
    } else {
        short_texts(c.drop_last()) + match c.last() {
            ContentV::Text { text } => if byte_len(text) <= 200 && !filler(text) {
                seq![text]
            } else {
                Seq::empty()
            },
            _ => Seq::empty(),
        }
    }
}

/// The one-line summary of an assistant turn: its tools (named when at
/// most three, counted otherwise) and up to three short texts, quoted.
pub open spec fn summary_text(c: Seq<ContentV>) -> Seq<char> {
    let names = tool_names(c);
    let all = short_texts(c);
    let parts = if all.len() <= 3 { all } else { all.take(3) };
    if names.len() > 0 {
        let tools = if names.len() <= 3 {
            join(names, ", "@)
        } else {
            "[Assistant used "@ + dec(names.len()) + " tool(s)]"@
        };
        if parts.len() > 0 {
            "[Summary] "@ + tools + " — \""@ + join(parts, " "@) + "\""@
        } else {
            "[Summary] "@ + tools
        }
    } else if parts.len() > 0 {
        "[Summary] "@ + join(parts, " "@)
    } else {
        "[Summary] [Assistant response]"@
    }
}

/// The assistant message that stands for a collapsed turn.
pub open spec fn summary_msg(text: Seq<char>, now: u64) -> AgentMessageV {
    AgentMessageV::Llm(
        MessageV::Assistant {
            content: seq![ContentV::Text { text }],
            stop_reason: StopReason::Stop,
            model: "compaction"@,
            provider: "evot"@,
            usage: Usage { input: 0, output: 0, cache_read: 0, cache_write: 0 },
            timestamp: now,
            error_message: None,
            response_id: None,
        },
    )
}

/// The first index from `j` on that is not a tool result (at most `end`).
pub open spec fn trailing_end(ms: Seq<AgentMessageV>, j: int, end: int) -> int
    decreases end - j,
{
    if j >= end || !is_tool_result(ms[j]) {
        j
    } else {
        trailing_end(ms, j + 1, end)
    }
}

/// Tokens of messages `[i, j)`, summed left to right (saturating).
pub open spec fn span_tokens(ms: Seq<AgentMessageV>, i: int, j: int) -> int
    decreases j - i,
{
    if j <= i {
        0
    } else {
        sat(span_tokens(ms, i, j - 1) + mtoks(ms[j - 1]))
    }
}

/// Messages `[i, boundary)` collapsed with running total `running`: while
/// the total is above `target`, each assistant message and its trailing
/// tool results become one summary when that saves tokens.
pub open spec fn collapse_from(
    ms: Seq<AgentMessageV>,
    i: int,
    boundary: int,
    running: int,
    target: int,
    now: u64,
) -> (Seq<AgentMessageV>, Seq<ActionV>)
    decreases boundary - i,
{
    if i >= boundary || i < 0 {
        (Seq::empty(), Seq::empty())
    } else if running <= target {
        (ms.subrange(i, boundary), Seq::empty())
    } else {
        match ms[i] {
            AgentMessageV::Llm(MessageV::Assistant { content, .. }) => {
                let before = mtoks(ms[i]);
                let sm = summary_msg(summary_text(content), now);
                let after = mtoks(sm);
                let peek = trailing_end(ms, i + 1, boundary);
                let total_before = sat(before + span_tokens(ms, i + 1, peek));
                if peek <= i || peek > boundary {
                    (Seq::empty(), Seq::empty())
                } else if after < total_before {
                    let rest = collapse_from(ms, peek, boundary, sat_sub(running, total_before - after), target, now);
                    (
                        seq![sm] + rest.0,
                        seq![
                            ActionV {
                                index: i,
                                tool_name: "assistant"@,
                                method: CompactionMethod::TurnCollapsed,
                                before_tokens: total_before,
                                after_tokens: after,
                                end_index: None,
                                related_count: Some((peek - (i + 1)) as usize),
                            },
                        ] + rest.1,
                    )
                } else {
                    let rest = collapse_from(ms, peek, boundary, running, target, now);
                    (ms.subrange(i, peek) + rest.0, rest.1)
                }
            },
            _ => {
                let rest = collapse_from(ms, i + 1, boundary, running, target, now);
                (seq![ms[i]] + rest.0, rest.1)
            },
        }
    }
}

/// The collapse pass at time `now`: the newest `keep_recent` messages are
/// never touched.
pub open spec fn collapse_spec(ms: Seq<AgentMessageV>, c: CompactionConfig, p: Pressure, now: u64) -> (Seq<AgentMessageV>, Seq<ActionV>) {
    if ms.len() <= c.keep_recent {
        (ms, Seq::empty())
    } else {
        let boundary = ms.len() - c.keep_recent;
        let r = collapse_from(ms, 0, boundary, p.message_tokens as int, c.spec_compact_target(), now);
        (r.0 + ms.subrange(boundary, ms.len() as int), r.1)
    }
}

proof fn lemma_trailing_end(ms: Seq<AgentMessageV>, j: int, end: int)
    requires
        j <= end,
    ensures
        j <= trailing_end(ms, j, end) <= end,
        forall|k: int| j <= k < trailing_end(ms, j, end) ==> is_tool_result(#[trigger] ms[k]),
    decreases end - j,
{
    if j < end && is_tool_result(ms[j]) {
        lemma_trailing_end(ms, j + 1, end);
    }
}

fn tool_names_of(content: &[Content]) -> (r: Vec<String>)
    ensures
        strs(r@) == tool_names(cv(content@)),
{
    let mut out: Vec<String> = Vec::new();
    let mut i: usize = 0;
    while i < content.len()
        invariant
            i <= content@.len(),
            strs(out@) == tool_names(cv(content@.take(i as int))),
        decreases content@.len() - i,
    {
        proof {
            assert(cv(content@.take(i + 1)).drop_last() =~= cv(content@.take(i as int)));
            assert(cv(content@.take(i + 1)).last() == content@[i as int]@);
        }
        let ghost po = out@;
        if let Content::ToolCall { name, .. } = &content[i] {
            if !contains_string(out.as_slice(), name) {
                out.push(name.clone());
                proof {
                    assert(strs(out@) =~= strs(po).push(name@));
                }
            }
        }
        i = i + 1;
    }
    proof {
        assert(content@.take(content@.len() as int) =~= content@);
    }
    out
}

fn short_texts_of(content: &[Content]) -> (r: Vec<String>)
    ensures
        strs(r@) == short_texts(cv(content@)),
{
    let mut out: Vec<String> = Vec::new();
    let mut i: usize = 0;
    while i < content.len()
        invariant
            i <= content@.len(),
            strs(out@) == short_texts(cv(content@.take(i as int))),
        decreases content@.len() - i,
    {
        proof {
            assert(cv(content@.take(i + 1)).drop_last() =~= cv(content@.take(i as int)));
            assert(cv(content@.take(i + 1)).last() == content@[i as int]@);
        }
        let ghost po = out@;
        let mut added = false;
        if let Content::Text { text } = &content[i] {
            if text.as_str().as_bytes().len() <= 200 && !is_filler(text.as_str()) {
                out.push(text.clone());
                added = true;
                proof {
                    assert(strs(out@) =~= strs(po) + seq![text@]);
                }
            }
        }
        proof {
            if !added {
                assert(strs(out@) =~= strs(po) + Seq::<Seq<char>>::empty());
            }
        }
        i = i + 1;
    }
    proof {
        assert(content@.take(content@.len() as int) =~= content@);
    }
    out
}

fn summary_of(content: &[Content]) -> (r: String)
    ensures
        r@ == summary_text(cv(content@)),
{
    let names = tool_names_of(content);
    let mut parts = short_texts_of(content);
    if parts.len() > 3 {
        parts.truncate(3);
    }
    let ghost all = short_texts(cv(content@));
    proof {
        if all.len() > 3 {
            assert(strs(parts@) =~= all.take(3));
        }
    }
    if names.len() > 0 {
        let tools = if names.len() <= 3 {
            join_strings(names.as_slice(), ", ")
        } else {
            let mut t = owned("[Assistant used ");
            push_usize(&mut t, names.len());
            push_str(&mut t, " tool(s)]");
            t
        };
        let mut s = owned("[Summary] ");
        push_str(&mut s, tools.as_str());
        if parts.len() > 0 {
            push_str(&mut s, " — \"");
            let j = join_strings(parts.as_slice(), " ");
            push_str(&mut s, j.as_str());
            push_str(&mut s, "\"");
        }
        s
    } else if parts.len() > 0 {
        let mut s = owned("[Summary] ");
        let j = join_strings(parts.as_slice(), " ");
        push_str(&mut s, j.as_str());
        s
    } else {
        owned("[Summary] [Assistant response]")
    }
}

fn make_summary_msg(text: String, now: u64) -> (r: AgentMessage)
    ensures
        r@ == summary_msg(text@, now),
{
    let mut content: Vec<Content> = Vec::new();
    content.push(Content::Text { text });
    let m = AgentMessage::Llm(
        Message::Assistant {
            content,
            stop_reason: StopReason::Stop,
            model: owned("compaction"),
            provider: owned("evot"),
            usage: Usage::zero(),
            timestamp: now,
            error_message: None,
            response_id: None,
        },
    );
    proof {
        assert(cv(content@) =~= seq![ContentV::Text { text: text@ }]);
    }
    m
}

fn is_tool_result_msg(m: &AgentMessage) -> (r: bool)
    ensures
        r == is_tool_result(m@),
{
    match m {
        AgentMessage::Llm(Message::ToolResult { .. }) => true,
        _ => false,
    }
}

/// Appends copies of `messages[from..to]`.
fn push_copies(out: &mut Vec<AgentMessage>, messages: &[AgentMessage], from: usize, to: usize)
    requires
        from <= to <= messages@.len(),
    ensures
        mv(final(out)@) == mv(old(out)@) + mv(messages@).subrange(from as int, to as int),
{
    let mut k = from;
    while k < to
        invariant
            from <= k <= to <= messages@.len(),
            mv(out@) == mv(old(out)@) + mv(messages@).subrange(from as int, k as int),
        decreases to - k,
    {
        let ghost po = out@;
        out.push(messages[k].clone());
        proof {
            assert(mv(out@) =~= mv(po).push(messages@[k as int]@));
            assert(mv(messages@).subrange(from as int, k + 1) =~= mv(messages@).subrange(from as int, k as int).push(
                messages@[k as int]@,
            ));
        }
        k = k + 1;
    }
}

/// The collapse pass with `now` as the timestamp of the summaries.
pub fn collapse_at(messages: Vec<AgentMessage>, config: &CompactionConfig, pressure: &Pressure, now: u64) -> (r: PassResult)
    ensures
        (mv(r.messages@), av(r.actions@)) == collapse_spec(mv(messages@), *config, *pressure, now),
{
    let ghost ms = mv(messages@);
    let n = messages.len();
    if n <= config.keep_recent {
        return PassResult { messages, actions: Vec::new() };
    }
    let boundary = n - config.keep_recent;
    let target = config.compact_target();
    let mut running = pressure.message_tokens;
    let mut result: Vec<AgentMessage> = Vec::new();
    let mut actions: Vec<CompactionAction> = Vec::new();
    let ghost whole = collapse_from(ms, 0, boundary as int, pressure.message_tokens as int, target as int, now);
    let mut i: usize = 0;
    while i < boundary
        invariant
            i <= boundary <= n == messages@.len(),
            ms == mv(messages@),
            mv(result@) + collapse_from(ms, i as int, boundary as int, running as int, target as int, now).0 == whole.0,
            av(actions@) + collapse_from(ms, i as int, boundary as int, running as int, target as int, now).1 == whole.1,
        decreases boundary - i,
    {
        let ghost pr = result@;
        let ghost pa = actions@;
        let ghost rest_i = collapse_from(ms, i as int, boundary as int, running as int, target as int, now);
        proof {
            assert(ms[i as int] == messages@[i as int]@);
        }
        if running <= target {
            push_copies(&mut result, messages.as_slice(), i, boundary);
            proof {
                assert(collapse_from(ms, boundary as int, boundary as int, running as int, target as int, now).0 =~= Seq::<AgentMessageV>::empty());
                assert(mv(result@) + Seq::<AgentMessageV>::empty() =~= mv(pr) + rest_i.0);
                assert(av(actions@) + Seq::<ActionV>::empty() =~= av(pa) + rest_i.1);
            }
            i = boundary;
        } else {
            match &messages[i] {
                AgentMessage::Llm(Message::Assistant { content, .. }) => {
                    let before = message_tokens(&messages[i]);
                    let summary = summary_of(content.as_slice());
                    let sm = make_summary_msg(summary, now);
                    let after = message_tokens(&sm);
                    let mut peek = i + 1;
                    let mut trt: usize = 0;
                    let mut cnt: usize = 0;
                    proof {
                        lemma_trailing_end(ms, i + 1, boundary as int);
                    }
                    while peek < boundary && is_tool_result_msg(&messages[peek])
                        invariant
                            i + 1 <= peek <= boundary <= n == messages@.len(),
                            ms == mv(messages@),
                            trailing_end(ms, i + 1, boundary as int) == trailing_end(ms, peek as int, boundary as int),
                            trt == span_tokens(ms, i + 1, peek as int),
                            cnt == peek - (i + 1),
                        decreases boundary - peek,
                    {
                        proof {
                            assert(ms[peek as int] == messages@[peek as int]@);
                        }
                        trt = trt.saturating_add(message_tokens(&messages[peek]));
                        cnt = cnt + 1;
                        peek = peek + 1;
                    }
                    proof {
                        if peek < boundary {
                            assert(ms[peek as int] == messages@[peek as int]@);
                        }
                        assert(trailing_end(ms, peek as int, boundary as int) == peek);
                    }
                    let total_before = before.saturating_add(trt);
                    if after < total_before {
                        running = running.saturating_sub(total_before - after);
                        result.push(sm);
                        actions.push(
                            CompactionAction {
                                index: i,
                                tool_name: owned("assistant"),
                                method: CompactionMethod::TurnCollapsed,
                                before_tokens: total_before,
                                after_tokens: after,
                                end_index: None,
                                related_count: Some(cnt),
                            },
                        );
                        proof {
                            let rest = collapse_from(ms, peek as int, boundary as int, running as int, target as int, now);
                            assert(mv(result@) =~= mv(pr).push(summary_msg(summary@, now)));
                            assert(mv(result@) + rest.0 =~= mv(pr) + rest_i.0);
                            assert(av(actions@) + rest.1 =~= av(pa) + rest_i.1);
                        }
                        i = peek;
                    } else {
                        push_copies(&mut result, messages.as_slice(), i, peek);
                        proof {
                            let rest = collapse_from(ms, peek as int, boundary as int, running as int, target as int, now);
                            assert(mv(result@) + rest.0 =~= mv(pr) + rest_i.0);
                        }
                        i = peek;
                    }
                },
                _ => {
                    result.push(messages[i].clone());
                    proof {
                        let rest = collapse_from(ms, i + 1, boundary as int, running as int, target as int, now);
                        assert(mv(result@) =~= mv(pr).push(ms[i as int]));
                        assert(mv(result@) + rest.0 =~= mv(pr) + rest_i.0);
                    }
                    i = i + 1;
                },
            }
        }
    }
    proof {
        assert(collapse_from(ms, i as int, boundary as int, running as int, target as int, now).0 =~= Seq::<AgentMessageV>::empty());
        assert(mv(result@) =~= whole.0);
        assert(av(actions@) =~= whole.1);
    }
    push_copies(&mut result, messages.as_slice(), boundary, n);
    PassResult { messages: result, actions }
}

/// The collapse pass.
pub struct Collapse;

impl Pass for Collapse {
    fn level(&self) -> (r: PassLevel)
        ensures
            r == PassLevel::Collapse,
    {
        PassLevel::Collapse
    }

    fn should_run(&self, ctx: &PassContext) -> (r: bool)
        ensures
            r == (ctx.pressure.message_tokens > ctx.config.spec_compact_trigger()),
    {
        ctx.pressure.message_tokens > ctx.config.compact_trigger()
    }

    /// Summaries are stamped with the clock's time, or zero when the clock
    /// reads before the epoch.
    fn run(&self, messages: Vec<AgentMessage>, ctx: &PassContext) -> (r: PassResult)
        ensures
            exists|now: u64| (mv(r.messages@), av(r.actions@)) == collapse_spec(mv(messages@), *ctx.config, ctx.pressure, now),
    {
        let now = now_or_zero();
        let r = collapse_at(messages, ctx.config, &ctx.pressure, now);
        r
    }
}

} // verus!
