//! Tool call / tool result pairing.
//!
//! Providers that enforce strict pairing reject a call without a result or a
//! result without its call. Sanitizing drops the orphans so that the history
//! stays valid.

use vstd::prelude::*;
use crate::types::{AgentMessage, AgentMessageV, Content, ContentV, Message, MessageV, cv, mv};
use crate::text::strs;

verus! {

/// Ids of the tool calls in a content list, in order.
pub open spec fn block_call_ids(c: Seq<ContentV>) -> Seq<Seq<char>>
    decreases c.len(),
{
    if c.len() == 0 {
        Seq::empty()
    } else {
        block_call_ids(c.drop_last()) + match c.last() {
            ContentV::ToolCall { id, .. } => seq![id],
            _ => Seq::empty(),
        }
    }
}

/// Ids of the tool calls a message makes (assistant messages only).
pub open spec fn msg_call_ids(m: AgentMessageV) -> Seq<Seq<char>> {
    match m {
        AgentMessageV::Llm(MessageV::Assistant { content, .. }) => block_call_ids(content),
        _ => Seq::empty(),
    }
}

/// Ids of every tool call in a history, in order.
pub open spec fn call_ids(ms: Seq<AgentMessageV>) -> Seq<Seq<char>>
    decreases ms.len(),
{
    if ms.len() == 0 {
        Seq::empty()
    } else {
        call_ids(ms.drop_last()) + msg_call_ids(ms.last())
    }
}

/// The call id a message answers (tool results only).
pub open spec fn msg_result_ids(m: AgentMessageV) -> Seq<Seq<char>> {
    match m {
        AgentMessageV::Llm(MessageV::ToolResult { tool_call_id, .. }) => seq![tool_call_id],
        _ => Seq::empty(),
    }
}

/// Ids answered by the tool results of a history, in order.
pub open spec fn result_ids(ms: Seq<AgentMessageV>) -> Seq<Seq<char>>
    decreases ms.len(),
{
    if ms.len() == 0 {
        Seq::empty()
    } else {
        result_ids(ms.drop_last()) + msg_result_ids(ms.last())
    }
}

/// Every call has a result and every result has a call.
pub open spec fn paired(ms: Seq<AgentMessageV>) -> bool {
    &&& forall|id: Seq<char>| call_ids(ms).contains(id) ==> result_ids(ms).contains(id)
    &&& forall|id: Seq<char>| result_ids(ms).contains(id) ==> call_ids(ms).contains(id)
}

/// Content without the calls whose id has no result.
pub open spec fn keep_answered(c: Seq<ContentV>, results: Seq<Seq<char>>) -> Seq<ContentV>
    decreases c.len(),
{
    if c.len() == 0 {
        Seq::empty()
    } else {
        keep_answered(c.drop_last(), results) + match c.last() {
            ContentV::ToolCall { id, .. } => if results.contains(id) {
                seq![c.last()]
            } else {
                Seq::empty()
            },
            _ => seq![c.last()],
        }
    }
}

/// What one message becomes: dropped, or kept with its orphan calls removed.
pub open spec fn sanitize_one(
    m: AgentMessageV,
    calls: Seq<Seq<char>>,
    results: Seq<Seq<char>>,
) -> Seq<AgentMessageV> {
    match m {
        AgentMessageV::Llm(MessageV::ToolResult { tool_call_id, .. }) => if calls.contains(
            tool_call_id,
        ) {
            seq![m]
        } else {
            Seq::empty()
        },
        AgentMessageV::Llm(
            MessageV::Assistant {
                content,
                stop_reason,
                model,
                provider,
                usage,
                timestamp,
                error_message,
                response_id,
            },
        ) => {
            let kept = keep_answered(content, results);
            if kept.len() == 0 {
                Seq::empty()
            } else {
                seq![
                    AgentMessageV::Llm(
                        MessageV::Assistant {
                            content: kept,
                            stop_reason,
                            model,
                            provider,
                            usage,
                            timestamp,
                            error_message,
                            response_id,
                        },
                    ),
                ]
            }
        },
        _ => seq![m],
    }
}

/// Every message of `ms`, sanitized against the given id lists.
pub open spec fn sanitize_all(
    ms: Seq<AgentMessageV>,
    calls: Seq<Seq<char>>,
    results: Seq<Seq<char>>,
) -> Seq<AgentMessageV>
    decreases ms.len(),
{
    if ms.len() == 0 {
        Seq::empty()
    } else {
        sanitize_all(ms.drop_last(), calls, results) + sanitize_one(ms.last(), calls, results)
    }
}

/// The sanitized history: unchanged when already paired, else orphans dropped.
pub open spec fn sanitized(ms: Seq<AgentMessageV>) -> Seq<AgentMessageV> {
    if paired(ms) {
        ms
    } else {
        sanitize_all(ms, call_ids(ms), result_ids(ms))
    }
}

pub proof fn lemma_call_ids_concat(a: Seq<AgentMessageV>, b: Seq<AgentMessageV>)
    ensures
        call_ids(a + b) == call_ids(a) + call_ids(b),
    decreases b.len(),
{
    if b.len() == 0 {
        assert(a + b =~= a);
        assert(call_ids(a) + call_ids(b) =~= call_ids(a));
    } else {
        lemma_call_ids_concat(a, b.drop_last());
        assert((a + b).drop_last() =~= a + b.drop_last());
        assert(call_ids(a + b) =~= call_ids(a) + call_ids(b));
    }
}

pub proof fn lemma_result_ids_concat(a: Seq<AgentMessageV>, b: Seq<AgentMessageV>)
    ensures
        result_ids(a + b) == result_ids(a) + result_ids(b),
    decreases b.len(),
{
    if b.len() == 0 {
        assert(a + b =~= a);
        assert(result_ids(a) + result_ids(b) =~= result_ids(a));
    } else {
        lemma_result_ids_concat(a, b.drop_last());
        assert((a + b).drop_last() =~= a + b.drop_last());
        assert(result_ids(a + b) =~= result_ids(a) + result_ids(b));
    }
}

/// Membership in a concatenation.
pub proof fn lemma_contains_concat<A>(a: Seq<A>, b: Seq<A>, x: A)
    ensures
        (a + b).contains(x) <==> (a.contains(x) || b.contains(x)),
{
    if (a + b).contains(x) {
        let i = choose|i: int| 0 <= i < (a + b).len() && (a + b)[i] == x;
        if i < a.len() {
            assert(a[i] == x);
        } else {
            assert(b[i - a.len()] == x);
        }
    }
    if a.contains(x) {
        let i = choose|i: int| 0 <= i < a.len() && a[i] == x;
        assert((a + b)[i] == x);
    }
    if b.contains(x) {
        let i = choose|i: int| 0 <= i < b.len() && b[i] == x;
        assert((a + b)[i + a.len()] == x);
    }
}

/// A call kept in filtered content was answered and was in the content.
proof fn lemma_keep_answered_calls(c: Seq<ContentV>, results: Seq<Seq<char>>, id: Seq<char>)
    ensures
        block_call_ids(keep_answered(c, results)).contains(id) ==> results.contains(id)
            && block_call_ids(c).contains(id),
        block_call_ids(c).contains(id) && results.contains(id) ==> block_call_ids(
            keep_answered(c, results),
        ).contains(id),
    decreases c.len(),
{
    if c.len() > 0 {
        lemma_keep_answered_calls(c.drop_last(), results, id);
        let pre = keep_answered(c.drop_last(), results);
        let x = c.last();
        let tail: Seq<ContentV> = match x {
            ContentV::ToolCall { id: y, .. } => if results.contains(y) {
                seq![x]
            } else {
                Seq::empty()
            },
            _ => seq![x],
        };
        assert(keep_answered(c, results) == pre + tail);
        lemma_block_call_ids_concat(pre, tail);
        let own: Seq<Seq<char>> = match x {
            ContentV::ToolCall { id: y, .. } => seq![y],
            _ => Seq::empty(),
        };
        assert(block_call_ids(c) == block_call_ids(c.drop_last()) + own);
        lemma_contains_concat(block_call_ids(c.drop_last()), own, id);
        lemma_contains_concat(block_call_ids(pre), block_call_ids(tail), id);
        if tail.len() == 1 {
            assert(tail.drop_last() =~= Seq::<ContentV>::empty());
            assert(tail.last() == x);
            assert(block_call_ids(tail.drop_last()) == Seq::<Seq<char>>::empty());
            assert(block_call_ids(tail) =~= own);
        } else {
            assert(block_call_ids(tail) =~= Seq::<Seq<char>>::empty());
        }
        if own.len() == 1 {
            assert(own.contains(id) ==> own[0] == id);
        }
    }
}

pub proof fn lemma_block_call_ids_concat(a: Seq<ContentV>, b: Seq<ContentV>)
    ensures
        block_call_ids(a + b) == block_call_ids(a) + block_call_ids(b),
    decreases b.len(),
{
    if b.len() == 0 {
        assert(a + b =~= a);
        assert(block_call_ids(a) + block_call_ids(b) =~= block_call_ids(a));
    } else {
        lemma_block_call_ids_concat(a, b.drop_last());
        assert((a + b).drop_last() =~= a + b.drop_last());
        assert(block_call_ids(a + b) =~= block_call_ids(a) + block_call_ids(b));
    }
}

/// Membership facts about the ids of a sanitized history.
proof fn lemma_sanitize_all_ids(
    ms: Seq<AgentMessageV>,
    calls: Seq<Seq<char>>,
    results: Seq<Seq<char>>,
    id: Seq<char>,
)
    ensures
        call_ids(sanitize_all(ms, calls, results)).contains(id) ==> results.contains(id)
            && call_ids(ms).contains(id),
        result_ids(sanitize_all(ms, calls, results)).contains(id) ==> calls.contains(id)
            && result_ids(ms).contains(id),
        result_ids(ms).contains(id) && calls.contains(id) ==> result_ids(
            sanitize_all(ms, calls, results),
        ).contains(id),
        call_ids(ms).contains(id) && results.contains(id) ==> call_ids(
            sanitize_all(ms, calls, results),
        ).contains(id),
    decreases ms.len(),
{
    if ms.len() > 0 {
        let pre = ms.drop_last();
        let m = ms.last();
        lemma_sanitize_all_ids(pre, calls, results, id);
        let sp = sanitize_all(pre, calls, results);
        let one = sanitize_one(m, calls, results);
        assert(sanitize_all(ms, calls, results) == sp + one);
        lemma_call_ids_concat(sp, one);
        lemma_result_ids_concat(sp, one);
        lemma_contains_concat(call_ids(sp), call_ids(one), id);
        lemma_contains_concat(result_ids(sp), result_ids(one), id);
        lemma_contains_concat(call_ids(pre), msg_call_ids(m), id);
        lemma_contains_concat(result_ids(pre), msg_result_ids(m), id);
        if one.len() == 1 {
            assert(one.drop_last() =~= Seq::<AgentMessageV>::empty());
            assert(call_ids(one.drop_last()) == Seq::<Seq<char>>::empty());
            assert(result_ids(one.drop_last()) == Seq::<Seq<char>>::empty());
            assert(call_ids(one) =~= msg_call_ids(one.last()));
            assert(result_ids(one) =~= msg_result_ids(one.last()));
        } else {
            assert(call_ids(one) =~= Seq::<Seq<char>>::empty());
            assert(result_ids(one) =~= Seq::<Seq<char>>::empty());
        }
        match m {
            AgentMessageV::Llm(MessageV::Assistant { content, .. }) => {
                lemma_keep_answered_calls(content, results, id);
                if one.len() == 0 {
                    assert(keep_answered(content, results).len() == 0);
                    assert(block_call_ids(keep_answered(content, results)) =~= Seq::<Seq<char>>::empty());
                }
            },
            AgentMessageV::Llm(MessageV::ToolResult { tool_call_id, .. }) => {
                assert(msg_result_ids(m) == seq![tool_call_id]);
            },
            _ => {},
        }
    }
}

/// Sanitizing leaves no orphan: every remaining call has its result and
/// every remaining result its call.
pub proof fn lemma_sanitized_is_paired(ms: Seq<AgentMessageV>)
    ensures
        paired(sanitized(ms)),
{
    if !paired(ms) {
        let c = call_ids(ms);
        let r = result_ids(ms);
        let out = sanitize_all(ms, c, r);
        assert forall|id: Seq<char>| call_ids(out).contains(id) implies result_ids(out).contains(id) by {
            lemma_sanitize_all_ids(ms, c, r, id);
        }
        assert forall|id: Seq<char>| result_ids(out).contains(id) implies call_ids(out).contains(id) by {
            lemma_sanitize_all_ids(ms, c, r, id);
        }
    }
}

/// The user and extension messages of a history, in order.
pub open spec fn plain_messages(ms: Seq<AgentMessageV>) -> Seq<AgentMessageV>
    decreases ms.len(),
{
    if ms.len() == 0 {
        Seq::empty()
    } else {
        plain_messages(ms.drop_last()) + match ms.last() {
            AgentMessageV::Llm(MessageV::User { .. }) => seq![ms.last()],
            AgentMessageV::Extension { .. } => seq![ms.last()],
            _ => Seq::empty(),
        }
    }
}

proof fn lemma_plain_concat(a: Seq<AgentMessageV>, b: Seq<AgentMessageV>)
    ensures
        plain_messages(a + b) == plain_messages(a) + plain_messages(b),
    decreases b.len(),
{
    if b.len() == 0 {
        assert(a + b =~= a);
        assert(plain_messages(a) + plain_messages(b) =~= plain_messages(a));
    } else {
        lemma_plain_concat(a, b.drop_last());
        assert((a + b).drop_last() =~= a + b.drop_last());
        assert(plain_messages(a + b) =~= plain_messages(a) + plain_messages(b));
    }
}

proof fn lemma_plain_sanitize_all(ms: Seq<AgentMessageV>, calls: Seq<Seq<char>>, results: Seq<Seq<char>>)
    ensures
        plain_messages(sanitize_all(ms, calls, results)) == plain_messages(ms),
    decreases ms.len(),
{
    if ms.len() > 0 {
        let pre = ms.drop_last();
        let m = ms.last();
        lemma_plain_sanitize_all(pre, calls, results);
        let one = sanitize_one(m, calls, results);
        lemma_plain_concat(sanitize_all(pre, calls, results), one);
        if one.len() == 1 {
            assert(one.drop_last() =~= Seq::<AgentMessageV>::empty());
            assert(plain_messages(one.drop_last()) == Seq::<AgentMessageV>::empty());
        } else {
            assert(one =~= Seq::<AgentMessageV>::empty());
        }
        assert(plain_messages(one) =~= match m {
            AgentMessageV::Llm(MessageV::User { .. }) => seq![m],
            AgentMessageV::Extension { .. } => seq![m],
            _ => Seq::<AgentMessageV>::empty(),
        });
    }
}

/// Sanitizing keeps exactly the ids that are both called and answered, on
/// both sides; returns a paired history as it was; keeps every user and
/// extension message, in order; and a sanitized history sanitizes to itself.
pub proof fn lemma_sanitize_laws(ms: Seq<AgentMessageV>)
    ensures
        forall|id: Seq<char>| #[trigger] call_ids(sanitized(ms)).contains(id) <==> (call_ids(ms).contains(id) && result_ids(ms).contains(id)),
        forall|id: Seq<char>| #[trigger] result_ids(sanitized(ms)).contains(id) <==> (call_ids(ms).contains(id) && result_ids(ms).contains(id)),
        paired(ms) ==> sanitized(ms) == ms,
        plain_messages(sanitized(ms)) == plain_messages(ms),
        sanitized(sanitized(ms)) == sanitized(ms),
{
    let c = call_ids(ms);
    let r = result_ids(ms);
    assert forall|id: Seq<char>| #[trigger] call_ids(sanitized(ms)).contains(id) <==> (c.contains(id) && r.contains(id)) by {
        lemma_sanitize_all_ids(ms, c, r, id);
    }
    assert forall|id: Seq<char>| #[trigger] result_ids(sanitized(ms)).contains(id) <==> (c.contains(id) && r.contains(id)) by {
        lemma_sanitize_all_ids(ms, c, r, id);
    }
    if !paired(ms) {
        lemma_plain_sanitize_all(ms, c, r);
    }
    lemma_sanitized_is_paired(ms);
}

/// The blocks of a content list other than tool calls, in order.
pub open spec fn non_call_blocks(c: Seq<ContentV>) -> Seq<ContentV>
    decreases c.len(),
{
    if c.len() == 0 {
        Seq::empty()
    } else {
        non_call_blocks(c.drop_last()) + if c.last() is ToolCall {
            Seq::<ContentV>::empty()
        } else {
            seq![c.last()]
        }
    }
}

/// For each assistant message that holds something besides tool calls, in
/// order: those other blocks.
pub open spec fn assistant_prose(ms: Seq<AgentMessageV>) -> Seq<Seq<ContentV>>
    decreases ms.len(),
{
    if ms.len() == 0 {
        Seq::empty()
    } else {
        assistant_prose(ms.drop_last()) + match ms.last() {
            AgentMessageV::Llm(MessageV::Assistant { content, .. }) => if non_call_blocks(content).len() > 0 {
                seq![non_call_blocks(content)]
            } else {
                Seq::empty()
            },
            _ => Seq::empty(),
        }
    }
}

proof fn lemma_prose_concat(a: Seq<AgentMessageV>, b: Seq<AgentMessageV>)
    ensures
        assistant_prose(a + b) == assistant_prose(a) + assistant_prose(b),
    decreases b.len(),
{
    if b.len() == 0 {
        assert(a + b =~= a);
        assert(assistant_prose(a) + assistant_prose(b) =~= assistant_prose(a));
    } else {
        lemma_prose_concat(a, b.drop_last());
        assert((a + b).drop_last() =~= a + b.drop_last());
        assert(assistant_prose(a + b) =~= assistant_prose(a) + assistant_prose(b));
    }
}

proof fn lemma_keep_answered_prose(c: Seq<ContentV>, results: Seq<Seq<char>>)
    ensures
        non_call_blocks(keep_answered(c, results)) == non_call_blocks(c),
    decreases c.len(),
{
    if c.len() > 0 {
        lemma_keep_answered_prose(c.drop_last(), results);
        let pre = keep_answered(c.drop_last(), results);
        let x = c.last();
        let tail: Seq<ContentV> = match x {
            ContentV::ToolCall { id, .. } => if results.contains(id) {
                seq![x]
            } else {
                Seq::empty()
            },
            _ => seq![x],
        };
        assert(keep_answered(c, results) == pre + tail);
        lemma_non_call_concat(pre, tail);
        let own: Seq<ContentV> = if x is ToolCall {
            Seq::empty()
        } else {
            seq![x]
        };
        assert(non_call_blocks(c) == non_call_blocks(c.drop_last()) + own);
        if tail.len() == 1 {
            assert(tail.drop_last() =~= Seq::<ContentV>::empty());
            assert(tail.last() == x);
            assert(non_call_blocks(tail) == non_call_blocks(tail.drop_last()) + own);
            assert(non_call_blocks(tail) =~= own);
        } else {
            assert(tail =~= Seq::<ContentV>::empty());
            assert(x is ToolCall);
            assert(non_call_blocks(tail) =~= own);
        }
        assert(non_call_blocks(keep_answered(c, results)) =~= non_call_blocks(c));
    }
}

proof fn lemma_non_call_concat(a: Seq<ContentV>, b: Seq<ContentV>)
    ensures
        non_call_blocks(a + b) == non_call_blocks(a) + non_call_blocks(b),
    decreases b.len(),
{
    if b.len() == 0 {
        assert(a + b =~= a);
        assert(non_call_blocks(a) + non_call_blocks(b) =~= non_call_blocks(a));
    } else {
        lemma_non_call_concat(a, b.drop_last());
        assert((a + b).drop_last() =~= a + b.drop_last());
        assert(non_call_blocks(a + b) =~= non_call_blocks(a) + non_call_blocks(b));
    }
}

proof fn lemma_prose_sanitize_all(ms: Seq<AgentMessageV>, calls: Seq<Seq<char>>, results: Seq<Seq<char>>)
    ensures
        assistant_prose(sanitize_all(ms, calls, results)) == assistant_prose(ms),
    decreases ms.len(),
{
    if ms.len() > 0 {
        let pre = ms.drop_last();
        let m = ms.last();
        lemma_prose_sanitize_all(pre, calls, results);
        let one = sanitize_one(m, calls, results);
        lemma_prose_concat(sanitize_all(pre, calls, results), one);
        if one.len() == 1 {
            assert(one.drop_last() =~= Seq::<AgentMessageV>::empty());
            assert(assistant_prose(one.drop_last()) == Seq::<Seq<ContentV>>::empty());
        } else {
            assert(one =~= Seq::<AgentMessageV>::empty());
        }
        match m {
            AgentMessageV::Llm(MessageV::Assistant { content, .. }) => {
                lemma_keep_answered_prose(content, results);
                let kept = keep_answered(content, results);
                if kept.len() == 0 {
                    assert(non_call_blocks(kept) =~= Seq::<ContentV>::empty());
                }
            },
            _ => {},
        }
        assert(assistant_prose(one) =~= match m {
            AgentMessageV::Llm(MessageV::Assistant { content, .. }) => if non_call_blocks(content).len() > 0 {
                seq![non_call_blocks(content)]
            } else {
                Seq::<Seq<ContentV>>::empty()
            },
            _ => Seq::<Seq<ContentV>>::empty(),
        });
    }
}

/// Sanitizing removes tool calls and tool results only: every assistant
/// message holding something besides tool calls is kept, in order, with
/// exactly those other blocks (a reply without calls is never removed).
pub proof fn lemma_sanitize_keeps_replies(ms: Seq<AgentMessageV>)
    ensures
        assistant_prose(sanitized(ms)) == assistant_prose(ms),
{
    if !paired(ms) {
        lemma_prose_sanitize_all(ms, call_ids(ms), result_ids(ms));
    }
}

/// Whether `list` holds a string equal to `s`.
pub fn contains_string(list: &[String], s: &String) -> (r: bool)
    ensures
        r == strs(list@).contains(s@),
{
    let mut i: usize = 0;
    while i < list.len()
        invariant
            i <= list@.len(),
            forall|k: int| 0 <= k < i ==> list@[k]@ != s@,
        decreases list@.len() - i,
    {
        if list[i] == *s {
            proof {
                assert(strs(list@)[i as int] == s@);
            }
            return true;
        }
        i = i + 1;
    }
    proof {
        if strs(list@).contains(s@) {
            let k = choose|k: int| 0 <= k < strs(list@).len() && strs(list@)[k] == s@;
            assert(list@[k]@ == s@);
        }
    }
    false
}

fn push_block_call_ids(ids: &mut Vec<String>, content: &[Content])
    ensures
        strs(final(ids)@) == strs(old(ids)@) + block_call_ids(cv(content@)),
{
    let mut i: usize = 0;
    while i < content.len()
        invariant
            i <= content@.len(),
            strs(ids@) == strs(old(ids)@) + block_call_ids(cv(content@.take(i as int))),
        decreases content@.len() - i,
    {
        proof {
            assert(cv(content@.take(i + 1)).drop_last() =~= cv(content@.take(i as int)));
            assert(cv(content@.take(i + 1)).last() == content@[i as int]@);
        }
        match &content[i] {
            Content::ToolCall { id, .. } => {
                let ghost prev = ids@;
                ids.push(id.clone());
                proof {
                    assert(strs(ids@) =~= strs(prev).push(id@));
                    assert(strs(ids@) =~= strs(old(ids)@) + block_call_ids(cv(content@.take(i + 1))));
                }
            },
            _ => {
                proof {
                    assert(strs(ids@) =~= strs(old(ids)@) + block_call_ids(cv(content@.take(i + 1))));
                }
            },
        }
        i = i + 1;
    }
    proof {
        assert(content@.take(content@.len() as int) =~= content@);
    }
}

/// Ids of every tool call in the history, in order.
pub fn collect_call_ids(messages: &[AgentMessage]) -> (r: Vec<String>)
    ensures
        strs(r@) == call_ids(mv(messages@)),
{
    let mut ids: Vec<String> = Vec::new();
    let mut i: usize = 0;
    while i < messages.len()
        invariant
            i <= messages@.len(),
            strs(ids@) == call_ids(mv(messages@.take(i as int))),
        decreases messages@.len() - i,
    {
        proof {
            assert(mv(messages@.take(i + 1)).drop_last() =~= mv(messages@.take(i as int)));
        }
        match &messages[i] {
            AgentMessage::Llm(Message::Assistant { content, .. }) => {
                push_block_call_ids(&mut ids, content);
            },
            _ => {
                proof {
                    assert(strs(ids@) =~= strs(ids@) + Seq::<Seq<char>>::empty());
                }
            },
        }
        i = i + 1;
    }
    proof {
        assert(messages@.take(messages@.len() as int) =~= messages@);
    }
    ids
}

/// Ids answered by the tool results of the history, in order.
pub fn collect_result_ids(messages: &[AgentMessage]) -> (r: Vec<String>)
    ensures
        strs(r@) == result_ids(mv(messages@)),
{
    let mut ids: Vec<String> = Vec::new();
    let mut i: usize = 0;
    while i < messages.len()
        invariant
            i <= messages@.len(),
            strs(ids@) == result_ids(mv(messages@.take(i as int))),
        decreases messages@.len() - i,
    {
        proof {
            assert(mv(messages@.take(i + 1)).drop_last() =~= mv(messages@.take(i as int)));
        }
        match &messages[i] {
            AgentMessage::Llm(Message::ToolResult { tool_call_id, .. }) => {
                let ghost prev = ids@;
                ids.push(tool_call_id.clone());
                proof {
                    assert(strs(ids@) =~= strs(prev).push(tool_call_id@));
                    assert(strs(ids@) =~= result_ids(mv(messages@.take(i + 1))));
                }
            },
            _ => {
                proof {
                    assert(strs(ids@) =~= result_ids(mv(messages@.take(i + 1))));
                }
            },
        }
        i = i + 1;
    }
    proof {
        assert(messages@.take(messages@.len() as int) =~= messages@);
    }
    ids
}

/// Whether every id of `a` also occurs in `b`.
fn all_in(a: &[String], b: &[String]) -> (r: bool)
    ensures
        r == (forall|id: Seq<char>| strs(a@).contains(id) ==> strs(b@).contains(id)),
{
    let mut i: usize = 0;
    while i < a.len()
        invariant
            i <= a@.len(),
            forall|k: int| 0 <= k < i ==> strs(b@).contains(#[trigger] a@[k]@),
        decreases a@.len() - i,
    {
        if !contains_string(b, &a[i]) {
            proof {
                assert(strs(a@)[i as int] == a@[i as int]@);
            }
            return false;
        }
        i = i + 1;
    }
    proof {
        assert forall|id: Seq<char>| strs(a@).contains(id) implies strs(b@).contains(id) by {
            let k = choose|k: int| 0 <= k < strs(a@).len() && strs(a@)[k] == id;
            assert(a@[k]@ == id);
        }
    }
    true
}

fn keep_answered_exec(content: Vec<Content>, results: &[String]) -> (r: Vec<Content>)
    ensures
        cv(r@) == keep_answered(cv(content@), strs(results@)),
{
    let mut out: Vec<Content> = Vec::new();
    let ghost orig = content@;
    for c in it: content
        invariant
            it.seq() == orig,
            cv(out@) == keep_answered(cv(orig.take(it.index() as int)), strs(results@)),
    {
        let ghost k = it.index();
        proof {
            assert(cv(orig.take(k + 1)).drop_last() =~= cv(orig.take(k)));
            assert(cv(orig.take(k + 1)).last() == c@);
        }
        match &c {
            Content::ToolCall { id, .. } => {
                if contains_string(results, id) {
                    out.push(c);
                    proof {
                        assert(cv(out@) =~= keep_answered(cv(orig.take(k + 1)), strs(results@)));
                    }
                } else {
                    proof {
                        assert(cv(out@) =~= keep_answered(cv(orig.take(k + 1)), strs(results@)));
                    }
                }
            },
            _ => {
                out.push(c);
                proof {
                    assert(cv(out@) =~= keep_answered(cv(orig.take(k + 1)), strs(results@)));
                }
            },
        }
    }
    proof {
        assert(orig.take(orig.len() as int) =~= orig);
    }
    out
}

/// Ensures every assistant tool call has a matching tool result and vice
/// versa; orphans are removed. When nothing is orphaned the history is
/// returned as it was.
pub fn sanitize_tool_pairs(messages: Vec<AgentMessage>) -> (r: Vec<AgentMessage>)
    ensures
        mv(r@) == sanitized(mv(messages@)),
{
    let calls = collect_call_ids(&messages);
    let results = collect_result_ids(&messages);
    if all_in(&calls, &results) && all_in(&results, &calls) {
        return messages;
    }
    let ghost orig = mv(messages@);
    let ghost raw = messages@;
    let mut out: Vec<AgentMessage> = Vec::new();
    for m in it: messages
        invariant
            it.seq() == raw,
            orig == mv(raw),
            mv(out@) == sanitize_all(orig.take(it.index() as int), strs(calls@), strs(results@)),
            strs(calls@) == call_ids(orig),
            strs(results@) == result_ids(orig),
    {
        let ghost k = it.index();
        proof {
            assert(orig.take(k + 1).drop_last() =~= orig.take(k));
            assert(orig.take(k + 1).last() == m@);
        }
        match m {
            AgentMessage::Llm(Message::ToolResult { tool_call_id, tool_name, content, is_error, timestamp, retention }) => {
                if contains_string(&calls, &tool_call_id) {
                    let kept = AgentMessage::Llm(Message::ToolResult { tool_call_id, tool_name, content, is_error, timestamp, retention });
                    out.push(kept);
                    proof {
                        assert(mv(out@) =~= sanitize_all(orig.take(k + 1), strs(calls@), strs(results@)));
                    }
                } else {
                    proof {
                        assert(mv(out@) =~= sanitize_all(orig.take(k + 1), strs(calls@), strs(results@)));
                    }
                }
            },
            AgentMessage::Llm(Message::Assistant { content, stop_reason, model, provider, usage, timestamp, error_message, response_id }) => {
                let filtered = keep_answered_exec(content, &results);
                if filtered.len() > 0 {
                    out.push(AgentMessage::Llm(Message::Assistant { content: filtered, stop_reason, model, provider, usage, timestamp, error_message, response_id }));
                }
                proof {
                    assert(mv(out@) =~= sanitize_all(orig.take(k + 1), strs(calls@), strs(results@)));
                }
            },
            other => {
                out.push(other);
                proof {
                    assert(mv(out@) =~= sanitize_all(orig.take(k + 1), strs(calls@), strs(results@)));
                }
            },
        }
    }
    proof {
        assert(orig.take(orig.len() as int) =~= orig);
    }
    out
}

} // verus!
