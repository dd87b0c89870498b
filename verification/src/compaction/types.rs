//! Records produced by the structural compaction passes.

use vstd::prelude::*;
use crate::types::{AgentMessage, AgentMessageV, Message, MessageV, cv, mv};
use crate::tokens::{ctoks, content_tokens};


verus! {

/// How a message or span was reduced.
#[derive(Clone, Copy, Debug, PartialEq, Eq, Structural)]
pub enum CompactionMethod {
    /// A current-run tool result cleared once the user moved on.
    LifecycleCleared,
    /// A current-run tool result reclaimed by the always-on pass.
    LifecycleReclaimed,
    /// Images replaced by a text note or a path reference.
    ImageStripped,
    /// An old result cleared to a marker.
    AgeCleared,
    /// An individually oversized result truncated aggressively.
    OversizeCapped,
    /// Head and tail kept, the middle dropped.
    HeadTail,
    /// A code file replaced by its structural outline.
    Outline,
    /// An old assistant turn collapsed into a one-line summary.
    TurnCollapsed,
    /// A span of messages evicted.
    MessagesEvicted,
}

/// One reduction made by a pass.
pub struct CompactionAction {
    pub index: usize,
    pub tool_name: String,
    pub method: CompactionMethod,
    pub before_tokens: usize,
    pub after_tokens: usize,
    pub end_index: Option<usize>,
    pub related_count: Option<usize>,
}

/// Mathematical view of an action.
pub ghost struct ActionV {
    pub index: int,
    pub tool_name: Seq<char>,
    pub method: CompactionMethod,
    pub before_tokens: int,
    pub after_tokens: int,
    pub end_index: Option<usize>,
    pub related_count: Option<usize>,
}

impl View for CompactionAction {
    type V = ActionV;

    open spec fn view(&self) -> ActionV {
        ActionV {
            index: self.index as int,
            tool_name: self.tool_name@,
            method: self.method,
            before_tokens: self.before_tokens as int,
            after_tokens: self.after_tokens as int,
            end_index: self.end_index,
            related_count: self.related_count,
        }
    }
}

/// The views of a list of actions.
pub open spec fn av(s: Seq<CompactionAction>) -> Seq<ActionV> {
    s.map_values(|a: CompactionAction| a@)
}

/// Tokens an action frees (never negative).
pub open spec fn saved(a: ActionV) -> int {
    if a.before_tokens > a.after_tokens {
        a.before_tokens - a.after_tokens
    } else {
        0
    }
}

/// Tokens the actions free together.
pub open spec fn saved_sum(s: Seq<ActionV>) -> int
    decreases s.len(),
{
    if s.len() == 0 {
        0
    } else {
        saved_sum(s.drop_last()) + saved(s.last())
    }
}

/// An action for a single message.
pub fn single_action(index: usize, tool_name: String, method: CompactionMethod, before_tokens: usize, after_tokens: usize) -> (a: CompactionAction)
    ensures
        a@ == (ActionV {
            index: index as int,
            tool_name: tool_name@,
            method,
            before_tokens: before_tokens as int,
            after_tokens: after_tokens as int,
            end_index: None,
            related_count: None,
        }),
{
    CompactionAction { index, tool_name, method, before_tokens, after_tokens, end_index: None, related_count: None }
}

/// Per-tool token total of one tool result.
pub struct ToolTokenDetail {
    pub tool_name: String,
    pub tokens: usize,
}

/// The details of the tool results of a history, in history order.
pub open spec fn tool_details_in_order(ms: Seq<AgentMessageV>) -> Seq<(Seq<char>, int)>
    decreases ms.len(),
{
    if ms.len() == 0 {
        Seq::empty()
    } else {
        tool_details_in_order(ms.drop_last()) + match ms.last() {
            AgentMessageV::Llm(MessageV::ToolResult { tool_name, content, .. }) => seq![(tool_name, ctoks(content))],
            _ => Seq::empty(),
        }
    }
}

/// `x` placed after every entry with at least as many tokens (stable).
pub open spec fn insert_desc(s: Seq<(Seq<char>, int)>, x: (Seq<char>, int)) -> Seq<(Seq<char>, int)>
    decreases s.len(),
{
    if s.len() == 0 {
        seq![x]
    } else if s.last().1 >= x.1 {
        s.push(x)
    } else {
        insert_desc(s.drop_last(), x).push(s.last())
    }
}

/// A stable sort by tokens, largest first.
pub open spec fn sort_desc(s: Seq<(Seq<char>, int)>) -> Seq<(Seq<char>, int)>
    decreases s.len(),
{
    if s.len() == 0 {
        Seq::empty()
    } else {
        insert_desc(sort_desc(s.drop_last()), s.last())
    }
}

/// The view of a detail list.
pub open spec fn dv(s: Seq<ToolTokenDetail>) -> Seq<(Seq<char>, int)> {
    s.map_values(|d: ToolTokenDetail| (d.tool_name@, d.tokens as int))
}

fn insert_detail(v: &mut Vec<ToolTokenDetail>, d: ToolTokenDetail)
    ensures
        dv(final(v)@) == insert_desc(dv(old(v)@), (d.tool_name@, d.tokens as int)),
    decreases old(v)@.len(),
{
    if v.len() == 0 {
        v.push(d);
        proof {
            assert(dv(v@) =~= seq![(d.tool_name@, d.tokens as int)]);
        }
        return;
    }
    let ghost prev = v@;
    let last = v.pop().unwrap();
    proof {
        assert(dv(prev).last() == (last.tool_name@, last.tokens as int));
        assert(dv(prev).drop_last() =~= dv(v@));
    }
    if last.tokens >= d.tokens {
        v.push(last);
        v.push(d);
        proof {
            assert(dv(v@) =~= dv(prev).push((d.tool_name@, d.tokens as int)));
        }
    } else {
        let ghost mid = v@;
        insert_detail(v, d);
        let ghost mid2 = v@;
        v.push(last);
        proof {
            assert(dv(v@) =~= dv(mid2).push((last.tool_name@, last.tokens as int)));
        }
    }
}

/// Per-tool token details of the tool results, largest first (stable).
pub fn collect_tool_details(messages: &[AgentMessage]) -> (r: Vec<ToolTokenDetail>)
    ensures
        dv(r@) == sort_desc(tool_details_in_order(mv(messages@))),
{
    let mut details: Vec<ToolTokenDetail> = Vec::new();
    let mut i: usize = 0;
    while i < messages.len()
        invariant
            i <= messages@.len(),
            dv(details@) == sort_desc(tool_details_in_order(mv(messages@.take(i as int)))),
        decreases messages@.len() - i,
    {
        proof {
            assert(mv(messages@.take(i + 1)).drop_last() =~= mv(messages@.take(i as int)));
            assert(mv(messages@.take(i + 1)).last() == messages@[i as int]@);
        }
        if let AgentMessage::Llm(Message::ToolResult { tool_name, content, .. }) = &messages[i] {
            let d = ToolTokenDetail { tool_name: tool_name.clone(), tokens: content_tokens(content) };
            insert_detail(&mut details, d);
            proof {
                let pre = tool_details_in_order(mv(messages@.take(i as int)));
                let x = (tool_name@, ctoks(cv(content@)));
                assert(tool_details_in_order(mv(messages@.take(i + 1))) =~= pre.push(x));
                assert(pre.push(x).drop_last() =~= pre);
            }
        } else {
            proof {
                assert(tool_details_in_order(mv(messages@.take(i + 1))) =~= tool_details_in_order(mv(messages@.take(i as int))));
            }
        }
        i = i + 1;
    }
    proof {
        assert(messages@.take(messages@.len() as int) =~= messages@);
    }
    details
}

/// Statistics of one structural compaction run.
pub struct CompactionStats {
    /// Highest pass level that changed anything.
    pub level: u8,
    pub before_message_count: usize,
    pub after_message_count: usize,
    pub before_estimated_tokens: usize,
    pub after_estimated_tokens: usize,
    /// Tool outputs cleared, capped or truncated.
    pub tool_outputs_truncated: usize,
    /// Old assistant turns collapsed.
    pub turns_summarized: usize,
    /// Messages evicted.
    pub messages_dropped: usize,
    /// Per-tool details before compaction, largest first.
    pub before_tool_details: Vec<ToolTokenDetail>,
    /// Per-tool details after compaction, largest first.
    pub after_tool_details: Vec<ToolTokenDetail>,
    /// Every reduction made, in order.
    pub actions: Vec<CompactionAction>,
}

/// The compacted history and what was done to it.
pub struct CompactionResult {
    pub messages: Vec<AgentMessage>,
    pub stats: CompactionStats,
}

/// Whether an action reduced a tool output.
pub open spec fn is_output_reduction(m: CompactionMethod) -> bool {
    m == CompactionMethod::LifecycleCleared || m == CompactionMethod::LifecycleReclaimed
        || m == CompactionMethod::AgeCleared || m == CompactionMethod::OversizeCapped
        || m == CompactionMethod::HeadTail || m == CompactionMethod::Outline
}

/// Counts of the actions by kind: tool outputs reduced, turns collapsed,
/// messages evicted (summing each eviction's message count).
pub open spec fn action_counts(s: Seq<ActionV>) -> (int, int, int)
    decreases s.len(),
{
    if s.len() == 0 {
        (0, 0, 0)
    } else {
        let (a, b, c) = action_counts(s.drop_last());
        let x = s.last();
        (
            a + if is_output_reduction(x.method) { 1int } else { 0int },
            b + if x.method == CompactionMethod::TurnCollapsed { 1int } else { 0int },
            c + if x.method == CompactionMethod::MessagesEvicted {
                match x.related_count {
                    Some(n) => n as int,
                    None => 0int,
                }
            } else {
                0int
            },
        )
    }
}

/// Inputs of [`build_stats`].
pub struct StatsInput {
    pub level: u8,
    pub before_message_count: usize,
    pub after_message_count: usize,
    pub before_estimated_tokens: usize,
    pub after_estimated_tokens: usize,
    pub before_tool_details: Vec<ToolTokenDetail>,
    pub after_tool_details: Vec<ToolTokenDetail>,
    pub actions: Vec<CompactionAction>,
}

/// Statistics from the inputs, the action counts derived from the actions
/// (saturating).
pub fn build_stats(input: StatsInput) -> (s: CompactionStats)
    ensures
        s.level == input.level,
        s.before_message_count == input.before_message_count,
        s.after_message_count == input.after_message_count,
        s.before_estimated_tokens == input.before_estimated_tokens,
        s.after_estimated_tokens == input.after_estimated_tokens,
        dv(s.before_tool_details@) == dv(input.before_tool_details@),
        dv(s.after_tool_details@) == dv(input.after_tool_details@),
        av(s.actions@) == av(input.actions@),
        ({
            let (a, b, c) = action_counts(av(input.actions@));
            &&& s.tool_outputs_truncated == crate::tokens::sat(a)
            &&& s.turns_summarized == crate::tokens::sat(b)
            &&& s.messages_dropped == crate::tokens::sat(c)
        }),
{
    let mut a: usize = 0;
    let mut b: usize = 0;
    let mut c: usize = 0;
    let mut i: usize = 0;
    while i < input.actions.len()
        invariant
            i <= input.actions@.len(),
            ({
                let (x, y, z) = action_counts(av(input.actions@.take(i as int)));
                &&& a == crate::tokens::sat(x)
                &&& b == crate::tokens::sat(y)
                &&& c == crate::tokens::sat(z)
                &&& x >= 0 && y >= 0 && z >= 0
            }),
        decreases input.actions@.len() - i,
    {
        proof {
            assert(av(input.actions@.take(i + 1)).drop_last() =~= av(input.actions@.take(i as int)));
            assert(av(input.actions@.take(i + 1)).last() == input.actions@[i as int]@);
        }
        let m = input.actions[i].method;
        if m == CompactionMethod::LifecycleCleared || m == CompactionMethod::LifecycleReclaimed
            || m == CompactionMethod::AgeCleared || m == CompactionMethod::OversizeCapped
            || m == CompactionMethod::HeadTail || m == CompactionMethod::Outline {
            a = a.saturating_add(1);
        }
        if m == CompactionMethod::TurnCollapsed {
            b = b.saturating_add(1);
        }
        if m == CompactionMethod::MessagesEvicted {
            if let Some(n) = input.actions[i].related_count {
                c = c.saturating_add(n);
            }
        }
        i = i + 1;
    }
    proof {
        assert(input.actions@.take(input.actions@.len() as int) =~= input.actions@);
    }
    CompactionStats {
        level: input.level,
        before_message_count: input.before_message_count,
        after_message_count: input.after_message_count,
        before_estimated_tokens: input.before_estimated_tokens,
        after_estimated_tokens: input.after_estimated_tokens,
        tool_outputs_truncated: a,
        turns_summarized: b,
        messages_dropped: c,
        before_tool_details: input.before_tool_details,
        after_tool_details: input.after_tool_details,
        actions: input.actions,
    }
}

} // verus!
