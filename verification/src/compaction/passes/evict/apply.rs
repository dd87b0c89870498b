//! Carrying out an eviction plan.

use vstd::prelude::*;
use crate::compaction::pass::PassResult;
use crate::compaction::passes::collapse::span_tokens;
use crate::compaction::types::{ActionV, CompactionAction, CompactionMethod, av};
use crate::text::owned;
use crate::tokens::message_tokens;
use crate::types::{AgentMessage, AgentMessageV, mv};
use super::{EvictionPlan, PlanV};

verus! {

/// The history with the plan's span replaced by its marker, and the action
/// that records it; nothing changes for a span that is empty or out of range.
pub open spec fn apply_spec(ms: Seq<AgentMessageV>, p: PlanV) -> (Seq<AgentMessageV>, Seq<ActionV>) {
    let s = p.span.start as int;
    let e = p.span.end as int;
    if s >= e || e > ms.len() {
        (ms, Seq::empty())
    } else {
        let mid = match p.marker {
            Some(m) => seq![m],
            None => Seq::empty(),
        };
        (
            ms.take(s) + mid + ms.skip(e),
            seq![
                ActionV {
                    index: s,
                    tool_name: "messages"@,
                    method: CompactionMethod::MessagesEvicted,
                    before_tokens: span_tokens(ms, s, e),
                    after_tokens: p.after_tokens,
                    end_index: Some((e - 1) as usize),
                    related_count: Some((e - s) as usize),
                },
            ],
        )
    }
}

/// No change.
pub fn no_op(messages: Vec<AgentMessage>) -> (r: PassResult)
    ensures
        mv(r.messages@) == mv(messages@),
        r.actions@.len() == 0,
{
    PassResult { messages, actions: Vec::new() }
}

pub fn apply_plan(messages: Vec<AgentMessage>, plan: EvictionPlan) -> (r: PassResult)
    ensures
        (mv(r.messages@), av(r.actions@)) == apply_spec(mv(messages@), plan@),
{
    let ghost ms = mv(messages@);
    let span = plan.span;
    if span.start >= span.end || span.end > messages.len() {
        let r = no_op(messages);
        proof {
            assert(av(r.actions@) =~= Seq::<ActionV>::empty());
        }
        return r;
    }
    let removed = span.end - span.start;
    let ghost raw = messages@;
    let n = messages.len();
    let mut dropped: usize = 0;
    let mut result: Vec<AgentMessage> = Vec::new();
    let mut marker = plan.marker;
    let mut idx: usize = 0;
    for m in it: messages
        invariant
            it.seq() == raw,
            idx == it.index(),
            ms == mv(raw),
            n == raw.len(),
            span.start < span.end <= raw.len(),
            span == plan.span,
            dropped == span_tokens(ms, span.start as int, if idx < span.start { span.start as int } else if idx > span.end { span.end as int } else { idx as int }),
            idx <= span.start ==> marker == plan.marker,
            idx > span.start ==> marker is None,
            mv(result@) == if idx <= span.start {
                ms.take(idx as int)
            } else if idx <= span.end {
                ms.take(span.start as int) + match plan@.marker {
                    Some(x) => seq![x],
                    None => Seq::<AgentMessageV>::empty(),
                }
            } else {
                ms.take(span.start as int) + match plan@.marker {
                    Some(x) => seq![x],
                    None => Seq::<AgentMessageV>::empty(),
                } + ms.subrange(span.end as int, idx as int)
            },
    {
        let ghost pr = result@;
        proof {
            assert(m@ == ms[idx as int]);
            assert(idx < n);
        }
        if idx == span.start {
            let taken = marker;
            marker = None;
            if let Some(x) = taken {
                result.push(x);
            }
            proof {
                assert(mv(result@) =~= ms.take(span.start as int) + match plan@.marker {
                    Some(x) => seq![x],
                    None => Seq::<AgentMessageV>::empty(),
                });
            }
        }
        if idx >= span.start && idx < span.end {
            dropped = dropped.saturating_add(message_tokens(&m));
        } else {
            let ghost pr2 = result@;
            result.push(m);
            proof {
                assert(mv(result@) =~= mv(pr2).push(ms[idx as int]));
                if idx < span.start {
                    assert(ms.take(idx + 1) =~= ms.take(idx as int).push(ms[idx as int]));
                } else {
                    assert(ms.subrange(span.end as int, idx + 1) =~= ms.subrange(span.end as int, idx as int).push(ms[idx as int]));
                }
            }
        }
        proof {
            if idx + 1 <= span.start {
            } else if idx + 1 <= span.end {
            } else if idx == span.end {
                assert(ms.subrange(span.end as int, idx + 1) =~= seq![ms[idx as int]]);
                assert(mv(result@) =~= ms.take(span.start as int) + match plan@.marker {
                    Some(x) => seq![x],
                    None => Seq::<AgentMessageV>::empty(),
                } + ms.subrange(span.end as int, idx + 1));
            } else {
                assert(mv(result@) =~= ms.take(span.start as int) + match plan@.marker {
                    Some(x) => seq![x],
                    None => Seq::<AgentMessageV>::empty(),
                } + ms.subrange(span.end as int, idx + 1));
            }
        }
        idx = idx + 1;
    }
    proof {
        assert(ms.subrange(span.end as int, ms.len() as int) =~= ms.skip(span.end as int));
        if raw.len() == span.end {
            assert(ms.skip(span.end as int) =~= Seq::<AgentMessageV>::empty());
        }
    }
    let mut actions: Vec<CompactionAction> = Vec::new();
    actions.push(
        CompactionAction {
            index: span.start,
            tool_name: owned("messages"),
            method: CompactionMethod::MessagesEvicted,
            before_tokens: dropped,
            after_tokens: plan.after_tokens,
            end_index: Some(span.end - 1),
            related_count: Some(removed),
        },
    );
    proof {
        assert(av(actions@) =~= apply_spec(ms, plan@).1);
        assert(mv(result@) =~= apply_spec(ms, plan@).0);
    }
    PassResult { messages: result, actions }
}

} // verus!
