//! Tiered compaction of a message list against a token budget: truncate
//! tool outputs, then summarize old turns, then drop the middle.

use vstd::prelude::*;
use crate::text::{dec, join, join_strings, lines, lines_of, owned, push_str, push_usize, strs, vecs};
use crate::types::{AgentMessage, AgentMessageV, Content, ContentV, Message, MessageV, cv, mv};
use crate::tokens::{byte_len, lemma_mtoks_nonneg, message_tokens, msgs_sum, mtoks, total_tokens, ttoks};
use crate::compaction::passes::shrink::pass::sat_sub;
use crate::compaction::types::{
    CompactionAction, CompactionResult, CompactionStats, collect_tool_details, dv, sort_desc, tool_details_in_order,
};
use crate::clock::now_or_zero;
use crate::sanitize::{paired, sanitize_tool_pairs, sanitized};
use super::ContextConfig;

verus! {

/// `s` cut to its first `max_lines / 2` and last `max_lines - max_lines / 2`
/// lines around a marker counting the omitted lines; a text within the line
/// budget is unchanged.
pub open spec fn half_head_tail(s: Seq<char>, max_lines: int) -> Seq<char> {
    let ls = lines(s);
    if ls.len() <= max_lines {
        s
    } else {
        let h = max_lines / 2;
        let t = max_lines - h;
        join(ls.take(h), "\n"@) + "\n\n[... "@ + dec((ls.len() - h - t) as nat) + " lines truncated ...]\n\n"@
            + join(ls.skip(ls.len() - t), "\n"@)
    }
}

/// Truncates text keeping the first N/2 and the last N/2 lines.
pub fn truncate_text_head_tail(text: &str, max_lines: usize) -> (r: String)
    ensures
        r@ == half_head_tail(text@, max_lines as int),
{
    let ls = lines_of(text);
    let ghost l = lines(text@);
    proof {
        assert(vecs(ls@) =~= l);
    }
    if ls.len() <= max_lines {
        return owned(text);
    }
    let n = ls.len();
    let head = max_lines / 2;
    let tail = max_lines - head;
    let omitted = n - head - tail;
    let head_part = vstd::slice::slice_subrange(ls.as_slice(), 0, head);
    let tail_part = vstd::slice::slice_subrange(ls.as_slice(), n - tail, n);
    proof {
        assert(vecs(head_part@) =~= l.take(head as int));
        assert(vecs(tail_part@) =~= l.skip(n - tail));
    }
    let mut r = crate::text::join_vecs(head_part, "\n");
    push_str(&mut r, "\n\n[... ");
    push_usize(&mut r, omitted);
    push_str(&mut r, " lines truncated ...]\n\n");
    let t = crate::text::join_vecs(tail_part, "\n");
    push_str(&mut r, t.as_str());
    proof {
        assert(r@ =~= half_head_tail(text@, max_lines as int));
    }
    r
}

/// A text block cut by [`half_head_tail`]; other blocks unchanged.
pub open spec fn l1_block(b: ContentV, max_lines: int) -> ContentV {
    match b {
        ContentV::Text { text } => ContentV::Text { text: half_head_tail(text, max_lines) },
        _ => b,
    }
}

/// Whether cutting shortens some text block (in bytes).
pub open spec fn l1_shrinks(c: Seq<ContentV>, max_lines: int) -> bool
    decreases c.len(),
{
    if c.len() == 0 {
        false
    } else {
        l1_shrinks(c.drop_last(), max_lines) || match c.last() {
            ContentV::Text { text } => byte_len(half_head_tail(text, max_lines)) < byte_len(text),
            _ => false,
        }
    }
}

/// A tool result with its text blocks cut; other messages unchanged.
pub open spec fn l1_msg(m: AgentMessageV, max_lines: int) -> AgentMessageV {
    match m {
        AgentMessageV::Llm(MessageV::ToolResult { tool_call_id, tool_name, content, is_error, timestamp, retention }) => {
            AgentMessageV::Llm(
                MessageV::ToolResult {
                    tool_call_id,
                    tool_name,
                    content: content.map_values(|b: ContentV| l1_block(b, max_lines)),
                    is_error,
                    timestamp,
                    retention,
                },
            )
        },
        _ => m,
    }
}

/// How many tool results the cut shortens.
pub open spec fn l1_count(ms: Seq<AgentMessageV>, max_lines: int) -> int
    decreases ms.len(),
{
    if ms.len() == 0 {
        0
    } else {
        l1_count(ms.drop_last(), max_lines) + match ms.last() {
            AgentMessageV::Llm(MessageV::ToolResult { content, .. }) => if l1_shrinks(content, max_lines) {
                1int
            } else {
                0int
            },
            _ => 0int,
        }
    }
}

fn l1_content(content: &[Content], max_lines: usize) -> (r: (Vec<Content>, bool))
    ensures
        cv(r.0@) == cv(content@).map_values(|b: ContentV| l1_block(b, max_lines as int)),
        r.1 == l1_shrinks(cv(content@), max_lines as int),
{
    let ghost c = cv(content@);
    let mut out: Vec<Content> = Vec::new();
    let mut shrunk = false;
    let mut i: usize = 0;
    while i < content.len()
        invariant
            i <= content@.len(),
            c == cv(content@),
            cv(out@) == c.take(i as int).map_values(|b: ContentV| l1_block(b, max_lines as int)),
            shrunk == l1_shrinks(c.take(i as int), max_lines as int),
        decreases content@.len() - i,
    {
        proof {
            assert(c.take(i + 1).drop_last() =~= c.take(i as int));
            assert(c.take(i + 1).last() == content@[i as int]@);
        }
        let ghost before = out@;
        match &content[i] {
            Content::Text { text } => {
                let t = truncate_text_head_tail(text.as_str(), max_lines);
                if t.as_str().as_bytes().len() < text.as_str().as_bytes().len() {
                    shrunk = true;
                }
                out.push(Content::Text { text: t });
            },
            other => {
                out.push(other.clone());
            },
        }
        proof {
            assert(cv(out@) =~= cv(before).push(l1_block(c[i as int], max_lines as int)));
            assert(c.take(i + 1).map_values(|b: ContentV| l1_block(b, max_lines as int)) =~= c.take(i as int).map_values(
                |b: ContentV| l1_block(b, max_lines as int),
            ).push(l1_block(c[i as int], max_lines as int)));
        }
        i = i + 1;
    }
    proof {
        assert(c.take(i as int) =~= c);
    }
    (out, shrunk)
}

/// Level 1: tool outputs cut to head and tail lines. The cheapest level: the
/// conversation keeps its structure, only verbose output middles go.
/// Returns the messages and how many tool results got shorter.
pub fn level1_truncate_tool_outputs(messages: &[AgentMessage], max_lines: usize) -> (r: (Vec<AgentMessage>, usize))
    ensures
        mv(r.0@) == mv(messages@).map_values(|m: AgentMessageV| l1_msg(m, max_lines as int)),
        r.1 == l1_count(mv(messages@), max_lines as int),
{
    let ghost ms = mv(messages@);
    let mut out: Vec<AgentMessage> = Vec::new();
    let mut count: usize = 0;
    let mut i: usize = 0;
    while i < messages.len()
        invariant
            i <= messages@.len(),
            ms == mv(messages@),
            mv(out@) == ms.take(i as int).map_values(|m: AgentMessageV| l1_msg(m, max_lines as int)),
            count == l1_count(ms.take(i as int), max_lines as int),
            count <= i,
        decreases messages@.len() - i,
    {
        proof {
            assert(ms.take(i + 1).drop_last() =~= ms.take(i as int));
            assert(ms.take(i + 1).last() == messages@[i as int]@);
        }
        let ghost before = out@;
        match &messages[i] {
            AgentMessage::Llm(Message::ToolResult { tool_call_id, tool_name, content, is_error, timestamp, retention }) => {
                let (c, shrunk) = l1_content(content.as_slice(), max_lines);
                if shrunk {
                    count = count + 1;
                }
                out.push(
                    AgentMessage::Llm(
                        Message::ToolResult {
                            tool_call_id: tool_call_id.clone(),
                            tool_name: tool_name.clone(),
                            content: c,
                            is_error: *is_error,
                            timestamp: *timestamp,
                            retention: *retention,
                        },
                    ),
                );
            },
            other => {
                out.push(other.clone());
            },
        }
        proof {
            assert(mv(out@) =~= mv(before).push(l1_msg(ms[i as int], max_lines as int)));
            assert(ms.take(i + 1).map_values(|m: AgentMessageV| l1_msg(m, max_lines as int)) =~= ms.take(i as int).map_values(
                |m: AgentMessageV| l1_msg(m, max_lines as int),
            ).push(l1_msg(ms[i as int], max_lines as int)));
        }
        i = i + 1;
    }
    proof {
        assert(ms.take(i as int) =~= ms);
    }
    (out, count)
}

/// Text blocks of an assistant turn short enough to keep (200 bytes or less).
pub open spec fn short_parts(c: Seq<ContentV>) -> Seq<Seq<char>>
    decreases c.len(),
{
    if c.len() == 0 {
        Seq::empty()
    } else {
        short_parts(c.drop_last()) + match c.last() {
            ContentV::Text { text } => if byte_len(text) > 200 {
                Seq::empty()
            } else {
                seq![text]
            },
            _ => Seq::empty(),
        }
    }
}

/// Number of tool calls among the blocks.
pub open spec fn call_count(c: Seq<ContentV>) -> nat
    decreases c.len(),
{
    if c.len() == 0 {
        0
    } else {
        call_count(c.drop_last()) + if c.last() is ToolCall { 1nat } else { 0nat }
    }
}

/// One line for an old assistant turn: its short texts, else how many
/// tools it used, else a placeholder.
pub open spec fn turn_summary(c: Seq<ContentV>) -> Seq<char> {
    let parts = short_parts(c);
    if parts.len() > 0 {
        join(parts, " "@)
    } else if call_count(c) > 0 {
        "[Assistant used "@ + dec(call_count(c)) + " tool(s)]"@
    } else {
        "[Assistant response]"@
    }
}

pub open spec fn text_user(text: Seq<char>, now: u64) -> AgentMessageV {
    AgentMessageV::Llm(MessageV::User { content: seq![ContentV::Text { text }], timestamp: now })
}

/// What level 2 makes of an old message: an assistant turn becomes its
/// summary, a tool result goes, anything else stays.
pub open spec fn l2_msg(m: AgentMessageV, now: u64) -> Seq<AgentMessageV> {
    match m {
        AgentMessageV::Llm(MessageV::Assistant { content, .. }) => seq![text_user("[Summary] "@ + turn_summary(content), now)],
        AgentMessageV::Llm(MessageV::ToolResult { .. }) => Seq::empty(),
        _ => seq![m],
    }
}

pub open spec fn l2_head(ms: Seq<AgentMessageV>, now: u64) -> Seq<AgentMessageV>
    decreases ms.len(),
{
    if ms.len() == 0 {
        Seq::empty()
    } else {
        l2_head(ms.drop_last(), now) + l2_msg(ms.last(), now)
    }
}

pub open spec fn assistant_count(ms: Seq<AgentMessageV>) -> int
    decreases ms.len(),
{
    if ms.len() == 0 {
        0
    } else {
        assistant_count(ms.drop_last()) + if ms.last() matches AgentMessageV::Llm(MessageV::Assistant { .. }) {
            1int
        } else {
            0int
        }
    }
}

/// Level 2: every message before the newest `keep_recent` summarized: an
/// assistant turn becomes a one-line user note, tool results are dropped.
pub open spec fn level2_spec(ms: Seq<AgentMessageV>, keep_recent: int, now: u64) -> (Seq<AgentMessageV>, int) {
    if ms.len() <= keep_recent {
        (ms, 0)
    } else {
        let b = ms.len() - keep_recent;
        (l2_head(ms.take(b), now) + ms.skip(b), assistant_count(ms.take(b)))
    }
}

fn turn_summary_of(content: &[Content]) -> (r: String)
    ensures
        r@ == turn_summary(cv(content@)),
{
    let ghost c = cv(content@);
    let mut parts: Vec<String> = Vec::new();
    let mut calls: usize = 0;
    let mut i: usize = 0;
    while i < content.len()
        invariant
            i <= content@.len(),
            c == cv(content@),
            strs(parts@) == short_parts(c.take(i as int)),
            calls == call_count(c.take(i as int)),
            calls <= i,
        decreases content@.len() - i,
    {
        proof {
            assert(c.take(i + 1).drop_last() =~= c.take(i as int));
            assert(c.take(i + 1).last() == content@[i as int]@);
        }
        let ghost before = parts@;
        match &content[i] {
            Content::Text { text } => {
                if text.as_str().as_bytes().len() <= 200 {
                    parts.push(text.clone());
                    proof {
                        assert(strs(parts@) =~= strs(before).push(text@));
                    }
                }
            },
            Content::ToolCall { .. } => {
                calls = calls + 1;
            },
            _ => {},
        }
        i = i + 1;
    }
    proof {
        assert(c.take(i as int) =~= c);
    }
    if parts.len() > 0 {
        join_strings(parts.as_slice(), " ")
    } else if calls > 0 {
        let mut r = owned("[Assistant used ");
        push_usize(&mut r, calls);
        push_str(&mut r, " tool(s)]");
        r
    } else {
        owned("[Assistant response]")
    }
}

fn text_user_message(text: String, now: u64) -> (r: AgentMessage)
    ensures
        r@ == text_user(text@, now),
{
    let mut content: Vec<Content> = Vec::new();
    content.push(Content::Text { text });
    proof {
        assert(cv(content@) =~= seq![ContentV::Text { text: text@ }]);
    }
    AgentMessage::Llm(Message::User { content, timestamp: now })
}

/// Level 2 of the tiered compaction at time `now`.
pub fn level2_summarize_old_turns(messages: &[AgentMessage], keep_recent: usize, now: u64) -> (r: (Vec<AgentMessage>, usize))
    ensures
        (mv(r.0@), r.1 as int) == level2_spec(mv(messages@), keep_recent as int, now),
{
    let ghost ms = mv(messages@);
    let len = messages.len();
    if len <= keep_recent {
        return (crate::types::clone_messages(messages), 0);
    }
    let boundary = len - keep_recent;
    let ghost head = ms.take(boundary as int);
    let mut out: Vec<AgentMessage> = Vec::new();
    let mut turns: usize = 0;
    let mut i: usize = 0;
    while i < boundary
        invariant
            boundary <= messages@.len(),
            i <= boundary,
            ms == mv(messages@),
            head == ms.take(boundary as int),
            mv(out@) == l2_head(head.take(i as int), now),
            turns == assistant_count(head.take(i as int)),
            turns <= i,
        decreases boundary - i,
    {
        proof {
            assert(head.take(i + 1).drop_last() =~= head.take(i as int));
            assert(head.take(i + 1).last() == messages@[i as int]@);
        }
        let ghost before = out@;
        match &messages[i] {
            AgentMessage::Llm(Message::Assistant { content, .. }) => {
                let mut text = owned("[Summary] ");
                let summary = turn_summary_of(content.as_slice());
                push_str(&mut text, summary.as_str());
                out.push(text_user_message(text, now));
                turns = turns + 1;
            },
            AgentMessage::Llm(Message::ToolResult { .. }) => {},
            other => {
                out.push(other.clone());
            },
        }
        proof {
            assert(mv(out@) =~= mv(before) + l2_msg(ms[i as int], now));
        }
        i = i + 1;
    }
    let mut j: usize = boundary;
    let ghost prefix = out@;
    while j < len
        invariant
            boundary <= j <= len,
            len == messages@.len(),
            ms == mv(messages@),
            mv(out@) == mv(prefix) + ms.subrange(boundary as int, j as int),
        decreases len - j,
    {
        let ghost before = out@;
        out.push(messages[j].clone());
        proof {
            assert(mv(out@) =~= mv(before).push(ms[j as int]));
            assert(ms.subrange(boundary as int, j + 1) =~= ms.subrange(boundary as int, j as int).push(ms[j as int]));
        }
        j = j + 1;
    }
    proof {
        assert(head.take(boundary as int) =~= head);
        assert(ms.subrange(boundary as int, len as int) =~= ms.skip(boundary as int));
    }
    (out, turns)
}

/// How many of the newest messages fit in `remaining` tokens, taken newest
/// first and stopping at the first that does not fit; `k` are taken already.
pub open spec fn fit_len(ms: Seq<AgentMessageV>, k: int, remaining: int) -> int
    decreases ms.len() - k,
{
    if k >= ms.len() {
        k
    } else {
        let t = mtoks(ms[ms.len() - 1 - k]);
        if t > remaining {
            k
        } else {
            fit_len(ms, k + 1, remaining - t)
        }
    }
}

/// The note that stands for `n` removed messages.
pub open spec fn removed_note(n: int, now: u64) -> AgentMessageV {
    text_user("[Context compacted: "@ + dec(n as nat) + " messages removed]"@, now)
}

/// The newest messages that fit in `budget`, after a note counting the
/// others when any were dropped.
pub open spec fn keep_within_spec(ms: Seq<AgentMessageV>, budget: int, now: u64) -> Seq<AgentMessageV> {
    let k = fit_len(ms, 0, budget);
    let kept = ms.skip(ms.len() - k);
    if k < ms.len() {
        seq![removed_note(ms.len() - k, now)] + kept
    } else {
        kept
    }
}

proof fn lemma_fit_len_sum(ms: Seq<AgentMessageV>, k: int, remaining: int)
    requires
        0 <= k <= ms.len(),
        remaining >= 0,
    ensures
        k <= fit_len(ms, k, remaining) <= ms.len(),
        msgs_sum(ms.subrange(ms.len() - fit_len(ms, k, remaining), ms.len() - k)) <= remaining,
        fit_len(ms, k, remaining) < ms.len() ==> msgs_sum(ms.subrange(ms.len() - fit_len(ms, k, remaining), ms.len() - k))
            + mtoks(ms[ms.len() - 1 - fit_len(ms, k, remaining)]) > remaining,
    decreases ms.len() - k,
{
    let len = ms.len() as int;
    if k < len {
        let t = mtoks(ms[len - 1 - k]);
        if t <= remaining {
            lemma_mtoks_nonneg(ms[len - 1 - k]);
            lemma_fit_len_sum(ms, k + 1, remaining - t);
            let f = fit_len(ms, k + 1, remaining - t);
            let a = ms.subrange(len - f, len - k - 1);
            assert(ms.subrange(len - f, len - k).drop_last() =~= a);
            assert(ms.subrange(len - f, len - k).last() == ms[len - 1 - k]);
        } else {
            assert(ms.subrange(len - k, len - k) =~= Seq::<AgentMessageV>::empty());
        }
    } else {
        assert(ms.subrange(len - k, len - k) =~= Seq::<AgentMessageV>::empty());
    }
}

/// What is kept of the newest messages fits the budget, and is as much as
/// fits: the next older message would not.
pub proof fn lemma_keep_within_fits(ms: Seq<AgentMessageV>, budget: int)
    requires
        budget >= 0,
    ensures
        ({
            let k = fit_len(ms, 0, budget);
            &&& 0 <= k <= ms.len()
            &&& msgs_sum(ms.skip(ms.len() - k)) <= budget
            &&& k < ms.len() ==> msgs_sum(ms.skip(ms.len() - k)) + mtoks(ms[ms.len() - 1 - k]) > budget
        }),
{
    lemma_fit_len_sum(ms, 0, budget);
    let k = fit_len(ms, 0, budget);
    assert(ms.subrange(ms.len() - k, ms.len() - 0) =~= ms.skip(ms.len() - k));
}

/// Keeps as many of the newest messages as fit within the budget.
fn keep_within_budget(messages: &[AgentMessage], budget: usize, now: u64) -> (r: Vec<AgentMessage>)
    ensures
        mv(r@) == keep_within_spec(mv(messages@), budget as int, now),
{
    let ghost ms = mv(messages@);
    let len = messages.len();
    let mut k: usize = 0;
    let mut remaining: usize = budget;
    while k < len
        invariant
            k <= len,
            len == messages@.len(),
            ms == mv(messages@),
            fit_len(ms, 0, budget as int) == fit_len(ms, k as int, remaining as int),
        ensures
            k <= len,
            fit_len(ms, 0, budget as int) == k,
        decreases len - k,
    {
        let t = message_tokens(&messages[len - 1 - k]);
        if t > remaining {
            break;
        }
        remaining = remaining - t;
        k = k + 1;
    }
    let mut out: Vec<AgentMessage> = Vec::new();
    if k < len {
        let mut note = owned("[Context compacted: ");
        push_usize(&mut note, len - k);
        push_str(&mut note, " messages removed]");
        out.push(text_user_message(note, now));
    }
    let ghost prefix = out@;
    let start = len - k;
    let mut j: usize = start;
    while j < len
        invariant
            start <= j <= len,
            len == messages@.len(),
            ms == mv(messages@),
            mv(out@) == mv(prefix) + ms.subrange(start as int, j as int),
        decreases len - j,
    {
        let ghost before = out@;
        out.push(messages[j].clone());
        proof {
            assert(mv(out@) =~= mv(before).push(ms[j as int]));
            assert(ms.subrange(start as int, j + 1) =~= ms.subrange(start as int, j as int).push(ms[j as int]));
        }
        j = j + 1;
    }
    proof {
        assert(ms.subrange(start as int, len as int) =~= ms.skip(start as int));
        if k < len {
            assert(mv(prefix) =~= seq![removed_note(len - k, now)]);
        } else {
            assert(mv(prefix) =~= Seq::<AgentMessageV>::empty());
        }
        assert(mv(out@) =~= keep_within_spec(ms, budget as int, now));
    }
    out
}

/// The note that stands for the dropped middle of a conversation.
pub open spec fn window_note(n: int, now: u64) -> AgentMessageV {
    text_user("[Context compacted: "@ + dec(n as nat) + " messages removed to fit context window]"@, now)
}

/// Level 3: keep the first `keep_first` and the newest `keep_recent`
/// messages around a note; when that is still over budget, or the two ends
/// overlap, keep only what fits of the newest. Also returns how many
/// messages went.
pub open spec fn level3_spec(ms: Seq<AgentMessageV>, keep_first: int, keep_recent: int, budget: int, now: u64) -> (
    Seq<AgentMessageV>,
    int,
) {
    let len = ms.len() as int;
    let first_end = if keep_first < len { keep_first } else { len };
    let recent_start = sat_sub(len, keep_recent);
    if first_end >= recent_start {
        let r = keep_within_spec(ms, budget, now);
        (r, sat_sub(len, r.len() as int))
    } else {
        let removed = recent_start - first_end;
        let res = ms.take(first_end) + seq![window_note(removed, now)] + ms.skip(recent_start);
        if ttoks(res) > budget {
            let r = keep_within_spec(res, budget, now);
            (r, sat_sub(len, r.len() as int))
        } else {
            (res, removed)
        }
    }
}

/// Level 3 of the tiered compaction at time `now`.
pub fn level3_drop_middle(messages: &[AgentMessage], keep_first: usize, keep_recent: usize, budget: usize, now: u64) -> (r: (
    Vec<AgentMessage>,
    usize,
))
    ensures
        (mv(r.0@), r.1 as int) == level3_spec(mv(messages@), keep_first as int, keep_recent as int, budget as int, now),
{
    let ghost ms = mv(messages@);
    let len = messages.len();
    let first_end = if keep_first < len { keep_first } else { len };
    let recent_start = len.saturating_sub(keep_recent);
    if first_end >= recent_start {
        let r = keep_within_budget(messages, budget, now);
        let dropped = len.saturating_sub(r.len());
        return (r, dropped);
    }
    let removed = recent_start - first_end;
    let mut res: Vec<AgentMessage> = Vec::new();
    let mut i: usize = 0;
    while i < first_end
        invariant
            i <= first_end <= messages@.len(),
            ms == mv(messages@),
            mv(res@) == ms.take(i as int),
        decreases first_end - i,
    {
        let ghost before = res@;
        res.push(messages[i].clone());
        proof {
            assert(mv(res@) =~= mv(before).push(ms[i as int]));
            assert(ms.take(i + 1) =~= ms.take(i as int).push(ms[i as int]));
        }
        i = i + 1;
    }
    let mut note = owned("[Context compacted: ");
    push_usize(&mut note, removed);
    push_str(&mut note, " messages removed to fit context window]");
    let ghost before_note = res@;
    res.push(text_user_message(note, now));
    let ghost prefix = res@;
    proof {
        assert(mv(prefix) =~= ms.take(first_end as int) + seq![window_note(removed as int, now)]);
    }
    let mut j: usize = recent_start;
    while j < len
        invariant
            recent_start <= j <= len,
            len == messages@.len(),
            ms == mv(messages@),
            mv(res@) == mv(prefix) + ms.subrange(recent_start as int, j as int),
        decreases len - j,
    {
        let ghost before = res@;
        res.push(messages[j].clone());
        proof {
            assert(mv(res@) =~= mv(before).push(ms[j as int]));
            assert(ms.subrange(recent_start as int, j + 1) =~= ms.subrange(recent_start as int, j as int).push(ms[j as int]));
        }
        j = j + 1;
    }
    proof {
        assert(ms.subrange(recent_start as int, len as int) =~= ms.skip(recent_start as int));
        assert(mv(res@) =~= ms.take(first_end as int) + seq![window_note(removed as int, now)] + ms.skip(recent_start as int));
    }
    if total_tokens(res.as_slice()) > budget {
        let r = keep_within_budget(res.as_slice(), budget, now);
        let dropped = len.saturating_sub(r.len());
        return (r, dropped);
    }
    (res, removed)
}

/// The outcome of the tiered compaction before tool pairing is repaired:
/// the messages, the level that made them fit (or 3), and how many tool
/// outputs were truncated, turns summarized and messages dropped. Each level
/// runs only when the one before left the history over budget.
pub open spec fn tiered_spec(ms: Seq<AgentMessageV>, c: ContextConfig, now: u64) -> (Seq<AgentMessageV>, int, int, int, int) {
    let budget = sat_sub(c.max_context_tokens as int, c.system_prompt_tokens as int);
    if ttoks(ms) <= budget {
        (ms, 0, 0, 0, 0)
    } else {
        let l1 = ms.map_values(|m: AgentMessageV| l1_msg(m, c.tool_output_max_lines as int));
        let n1 = l1_count(ms, c.tool_output_max_lines as int);
        if ttoks(l1) <= budget {
            (l1, 1, n1, 0, 0)
        } else {
            let (l2, n2) = level2_spec(l1, c.keep_recent as int, now);
            if ttoks(l2) <= budget {
                (l2, 2, n1, n2, 0)
            } else {
                let (l3, n3) = level3_spec(l2, c.keep_first as int, c.keep_recent as int, budget, now);
                (l3, 3, n1, n2, n3)
            }
        }
    }
}

/// What a tiered compaction returns for its messages: the pairing repaired,
/// and statistics of before and after.
pub open spec fn tiered_result(r: CompactionResult, ms: Seq<AgentMessageV>, level: int, n1: int, n2: int, n3: int, out: Seq<AgentMessageV>) -> bool {
    &&& mv(r.messages@) == sanitized(out)
    &&& r.stats.level == level
    &&& r.stats.tool_outputs_truncated == n1
    &&& r.stats.turns_summarized == n2
    &&& r.stats.messages_dropped == n3
    &&& r.stats.before_message_count == ms.len()
    &&& r.stats.after_message_count == r.messages@.len()
    &&& r.stats.before_estimated_tokens == ttoks(ms)
    &&& r.stats.after_estimated_tokens == ttoks(mv(r.messages@))
    &&& dv(r.stats.before_tool_details@) == sort_desc(tool_details_in_order(ms))
    &&& dv(r.stats.after_tool_details@) == sort_desc(tool_details_in_order(mv(r.messages@)))
    &&& r.stats.actions@.len() == 0
}

fn make_result(
    messages: Vec<AgentMessage>,
    level: u8,
    truncated: usize,
    summarized: usize,
    dropped: usize,
    before_message_count: usize,
    before_estimated_tokens: usize,
    before_tool_details: Vec<crate::compaction::types::ToolTokenDetail>,
) -> (r: CompactionResult)
    ensures
        mv(r.messages@) == sanitized(mv(messages@)),
        r.stats.level == level,
        r.stats.tool_outputs_truncated == truncated,
        r.stats.turns_summarized == summarized,
        r.stats.messages_dropped == dropped,
        r.stats.before_message_count == before_message_count,
        r.stats.after_message_count == r.messages@.len(),
        r.stats.before_estimated_tokens == before_estimated_tokens,
        r.stats.after_estimated_tokens == ttoks(mv(r.messages@)),
        dv(r.stats.before_tool_details@) == dv(before_tool_details@),
        dv(r.stats.after_tool_details@) == sort_desc(tool_details_in_order(mv(r.messages@))),
        r.stats.actions@.len() == 0,
{
    let msgs = sanitize_tool_pairs(messages);
    let after_message_count = msgs.len();
    let after_estimated_tokens = total_tokens(msgs.as_slice());
    let after_tool_details = collect_tool_details(msgs.as_slice());
    let actions: Vec<CompactionAction> = Vec::new();
    CompactionResult {
        messages: msgs,
        stats: CompactionStats {
            level,
            before_message_count,
            after_message_count,
            before_estimated_tokens,
            after_estimated_tokens,
            tool_outputs_truncated: truncated,
            turns_summarized: summarized,
            messages_dropped: dropped,
            before_tool_details,
            after_tool_details,
            actions,
        },
    }
}

/// Compacts messages to fit the token budget (the context limit minus the
/// system prompt) with the tiered strategy, at time `now`:
/// level 1 truncates tool outputs, level 2 summarizes old turns, level 3
/// drops old messages. Each level is tried in order; the result is returned
/// as soon as the messages fit.
pub fn compact_messages_at(messages: Vec<AgentMessage>, config: &ContextConfig, now: u64) -> (r: CompactionResult)
    ensures
        ({
            let ms = mv(messages@);
            let (out, level, n1, n2, n3) = tiered_spec(ms, *config, now);
            tiered_result(r, ms, level, n1, n2, n3, out)
        }),
        paired(mv(r.messages@)),
{
    let ghost ms = mv(messages@);
    let budget = config.max_context_tokens.saturating_sub(config.system_prompt_tokens);
    let before_message_count = messages.len();
    let before_estimated_tokens = total_tokens(messages.as_slice());
    let before_tool_details = collect_tool_details(messages.as_slice());
    proof {
        crate::sanitize::lemma_sanitized_is_paired(ms);
    }
    if before_estimated_tokens <= budget {
        return make_result(messages, 0, 0, 0, 0, before_message_count, before_estimated_tokens, before_tool_details);
    }
    let (l1, n1) = level1_truncate_tool_outputs(messages.as_slice(), config.tool_output_max_lines);
    proof {
        crate::sanitize::lemma_sanitized_is_paired(mv(l1@));
    }
    if total_tokens(l1.as_slice()) <= budget {
        return make_result(l1, 1, n1, 0, 0, before_message_count, before_estimated_tokens, before_tool_details);
    }
    let (l2, n2) = level2_summarize_old_turns(l1.as_slice(), config.keep_recent, now);
    proof {
        crate::sanitize::lemma_sanitized_is_paired(mv(l2@));
    }
    if total_tokens(l2.as_slice()) <= budget {
        return make_result(l2, 2, n1, n2, 0, before_message_count, before_estimated_tokens, before_tool_details);
    }
    let (l3, n3) = level3_drop_middle(l2.as_slice(), config.keep_first, config.keep_recent, budget, now);
    proof {
        crate::sanitize::lemma_sanitized_is_paired(mv(l3@));
    }
    make_result(l3, 3, n1, n2, n3, before_message_count, before_estimated_tokens, before_tool_details)
}

/// [`compact_messages_at`] at the clock's time.
pub fn compact_messages(messages: Vec<AgentMessage>, config: &ContextConfig) -> (r: CompactionResult)
    ensures
        exists|now: u64| #![trigger tiered_spec(mv(messages@), *config, now)] {
            let (out, level, n1, n2, n3) = tiered_spec(mv(messages@), *config, now);
            tiered_result(r, mv(messages@), level, n1, n2, n3, out)
        },
        paired(mv(r.messages@)),
{
    compact_messages_at(messages, config, now_or_zero())
}

/// A way to compact a message list to a context configuration.
pub trait CompactionStrategy {
    fn compact(&self, messages: Vec<AgentMessage>, config: &ContextConfig) -> CompactionResult;
}

/// The tiered compaction as a strategy.
pub struct DefaultCompaction;

impl CompactionStrategy for DefaultCompaction {
    fn compact(&self, messages: Vec<AgentMessage>, config: &ContextConfig) -> (r: CompactionResult)
        ensures
            exists|now: u64| #![trigger tiered_spec(mv(messages@), *config, now)] {
                let (out, level, n1, n2, n3) = tiered_spec(mv(messages@), *config, now);
                tiered_result(r, mv(messages@), level, n1, n2, n3, out)
            },
            paired(mv(r.messages@)),
    {
        compact_messages(messages, config)
    }
}

/// The tiers in order: a history within budget is returned as it was
/// (level 0); truncating tool outputs (level 1) keeps every message; each
/// later level is reached only when the one before left the history over
/// budget.
pub proof fn lemma_tiered_levels(ms: Seq<AgentMessageV>, c: ContextConfig, now: u64)
    ensures
        ({
            let budget = sat_sub(c.max_context_tokens as int, c.system_prompt_tokens as int);
            let (out, level, n1, n2, n3) = tiered_spec(ms, c, now);
            &&& (level == 0) == (ttoks(ms) <= budget)
            &&& level == 0 ==> out == ms
            &&& level == 1 ==> out.len() == ms.len() && ttoks(out) <= budget
            &&& level == 2 ==> ttoks(out) <= budget
            &&& 0 <= level <= 3
        }),
{
}

} // verus!
