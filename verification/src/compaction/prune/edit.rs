//! Applying verdicts to a message list: remove call/result pairs, truncate
//! results to a head. The only place prune changes history.

use vstd::prelude::*;
use crate::compaction::metadata::text_parts;
use crate::sanitize::{block_call_ids, call_ids, contains_string, lemma_block_call_ids_concat, lemma_call_ids_concat, lemma_contains_concat, lemma_result_ids_concat, msg_call_ids, msg_result_ids, result_ids};
use crate::text::{chars_of, dec, join, push_str, push_usize, string_of, strs, take_vec};
use crate::types::{AgentMessage, AgentMessageV, Content, ContentV, Message, MessageV, cv, mv};
use super::state::text_of;

verus! {

/// A result cut to its first `head` characters of text, with a note of how
/// much was pruned; results within `head` are kept.
pub open spec fn truncated_result(c: Seq<ContentV>, head: int) -> Seq<ContentV> {
    let full = join(text_parts(c), "\n"@);
    if full.len() <= head {
        c
    } else {
        seq![
            ContentV::Text {
                text: full.take(head) + "\n[… "@ + dec((full.len() - head) as nat)
                    + " more chars pruned: no longer needed for the current task …]"@,
            },
        ]
    }
}

pub fn truncate_result(content: Vec<Content>, head_chars: usize) -> (r: Vec<Content>)
    ensures
        cv(r@) == truncated_result(cv(content@), head_chars as int),
{
    let full = text_of(content.as_slice());
    let v = chars_of(full.as_str());
    if v.len() <= head_chars {
        return content;
    }
    let head = take_vec(&v, head_chars);
    let mut s = string_of(&head);
    push_str(&mut s, "\n[… ");
    push_usize(&mut s, v.len() - head_chars);
    push_str(&mut s, " more chars pruned: no longer needed for the current task …]");
    let mut out: Vec<Content> = Vec::new();
    out.push(Content::Text { text: s });
    proof {
        assert(cv(out@) =~= truncated_result(cv(content@), head_chars as int));
    }
    out
}

/// The blocks of `c` other than calls in `remove`.
pub open spec fn kept_blocks(c: Seq<ContentV>, remove: Seq<Seq<char>>) -> Seq<ContentV>
    decreases c.len(),
{
    if c.len() == 0 {
        Seq::empty()
    } else {
        kept_blocks(c.drop_last(), remove) + match c.last() {
            ContentV::ToolCall { id, .. } => if remove.contains(id) {
                Seq::empty()
            } else {
                seq![c.last()]
            },
            _ => seq![c.last()],
        }
    }
}

/// What a message becomes: assistant messages lose the removed calls (and
/// vanish when nothing is left); results of removed calls vanish and those
/// to truncate are cut; everything else stays.
pub open spec fn edit_msg(m: AgentMessageV, remove: Seq<Seq<char>>, truncate: Seq<Seq<char>>, head: int) -> Option<AgentMessageV> {
    match m {
        AgentMessageV::Llm(
            MessageV::Assistant { content, stop_reason, model, provider, usage, timestamp, error_message, response_id },
        ) => {
            let k = kept_blocks(content, remove);
            if k.len() == 0 {
                None
            } else {
                Some(
                    AgentMessageV::Llm(
                        MessageV::Assistant {
                            content: k,
                            stop_reason,
                            model,
                            provider,
                            usage,
                            timestamp,
                            error_message,
                            response_id,
                        },
                    ),
                )
            }
        },
        AgentMessageV::Llm(MessageV::ToolResult { tool_call_id, tool_name, content, is_error, timestamp, retention }) => {
            if remove.contains(tool_call_id) {
                None
            } else {
                Some(
                    AgentMessageV::Llm(
                        MessageV::ToolResult {
                            tool_call_id,
                            tool_name,
                            content: if truncate.contains(tool_call_id) {
                                truncated_result(content, head)
                            } else {
                                content
                            },
                            is_error,
                            timestamp,
                            retention,
                        },
                    ),
                )
            }
        },
        _ => Some(m),
    }
}

pub open spec fn edited(ms: Seq<AgentMessageV>, remove: Seq<Seq<char>>, truncate: Seq<Seq<char>>, head: int) -> Seq<AgentMessageV>
    decreases ms.len(),
{
    if ms.len() == 0 {
        Seq::empty()
    } else {
        edited(ms.drop_last(), remove, truncate, head) + match edit_msg(ms.last(), remove, truncate, head) {
            Some(x) => seq![x],
            None => Seq::empty(),
        }
    }
}

/// The history with the verdicts applied; unchanged when there is nothing
/// to remove or truncate.
pub open spec fn edit_spec(ms: Seq<AgentMessageV>, remove: Seq<Seq<char>>, truncate: Seq<Seq<char>>, head: int) -> Seq<AgentMessageV> {
    if remove.len() == 0 && truncate.len() == 0 {
        ms
    } else {
        edited(ms, remove, truncate, head)
    }
}

fn keep_blocks(content: Vec<Content>, remove: &Vec<String>) -> (r: Vec<Content>)
    ensures
        cv(r@) == kept_blocks(cv(content@), strs(remove@)),
{
    let ghost raw = content@;
    let mut out: Vec<Content> = Vec::new();
    for b in it: content
        invariant
            it.seq() == raw,
            cv(out@) == kept_blocks(cv(raw.take(it.index() as int)), strs(remove@)),
    {
        let ghost k = it.index();
        let ghost po = out@;
        proof {
            assert(cv(raw.take(k + 1)).drop_last() =~= cv(raw.take(k)));
            assert(cv(raw.take(k + 1)).last() == raw[k]@);
            assert(raw[k] == b);
        }
        let drop = match &b {
            Content::ToolCall { id, .. } => contains_string(remove.as_slice(), id),
            _ => false,
        };
        if !drop {
            out.push(b);
            proof {
                assert(cv(out@) =~= cv(po) + seq![raw[k]@]);
            }
        } else {
            proof {
                assert(cv(out@) =~= cv(po) + Seq::<ContentV>::empty());
            }
        }
    }
    proof {
        assert(raw.take(raw.len() as int) =~= raw);
    }
    out
}

/// Applies removals and truncations by call id.
pub fn apply(messages: Vec<AgentMessage>, remove: &Vec<String>, truncate: &Vec<String>, head_chars: usize) -> (r: Vec<AgentMessage>)
    ensures
        mv(r@) == edit_spec(mv(messages@), strs(remove@), strs(truncate@), head_chars as int),
{
    if remove.len() == 0 && truncate.len() == 0 {
        return messages;
    }
    let ghost raw = messages@;
    let ghost rm = strs(remove@);
    let ghost tr = strs(truncate@);
    let mut out: Vec<AgentMessage> = Vec::new();
    for m in it: messages
        invariant
            it.seq() == raw,
            rm == strs(remove@),
            tr == strs(truncate@),
            mv(out@) == edited(mv(raw.take(it.index() as int)), rm, tr, head_chars as int),
    {
        let ghost k = it.index();
        let ghost po = out@;
        proof {
            assert(mv(raw.take(k + 1)).drop_last() =~= mv(raw.take(k)));
            assert(mv(raw.take(k + 1)).last() == raw[k]@);
            assert(raw[k] == m);
        }
        let ghost mvw = m@;
        let next: Option<AgentMessage> = match m {
            AgentMessage::Llm(Message::Assistant { content, stop_reason, model, provider, usage, timestamp, error_message, response_id }) => {
                let kept = keep_blocks(content, remove);
                if kept.len() == 0 {
                    None
                } else {
                    Some(AgentMessage::Llm(Message::Assistant { content: kept, stop_reason, model, provider, usage, timestamp, error_message, response_id }))
                }
            },
            AgentMessage::Llm(Message::ToolResult { tool_call_id, tool_name, content, is_error, timestamp, retention }) => {
                if contains_string(remove.as_slice(), &tool_call_id) {
                    None
                } else {
                    let content = if contains_string(truncate.as_slice(), &tool_call_id) {
                        truncate_result(content, head_chars)
                    } else {
                        content
                    };
                    Some(AgentMessage::Llm(Message::ToolResult { tool_call_id, tool_name, content, is_error, timestamp, retention }))
                }
            },
            other => Some(other),
        };
        proof {
            assert(edit_msg(mvw, rm, tr, head_chars as int) == match next {
                Some(x) => Some(x@),
                None => None::<AgentMessageV>,
            });
        }
        match next {
            Some(x) => {
                out.push(x);
                proof {
                    assert(mv(out@) =~= mv(po) + seq![out@[out@.len() - 1]@]);
                }
            },
            None => {
                proof {
                    assert(mv(out@) =~= mv(po) + Seq::<AgentMessageV>::empty());
                }
            },
        }
    }
    proof {
        assert(raw.take(raw.len() as int) =~= raw);
    }
    out
}

proof fn lemma_kept_blocks_ids(c: Seq<ContentV>, remove: Seq<Seq<char>>, id: Seq<char>)
    requires
        remove.contains(id),
    ensures
        !block_call_ids(kept_blocks(c, remove)).contains(id),
    decreases c.len(),
{
    if c.len() > 0 {
        lemma_kept_blocks_ids(c.drop_last(), remove, id);
        let prev = kept_blocks(c.drop_last(), remove);
        let b = c.last();
        let tail = match b {
            ContentV::ToolCall { id: x, .. } => if remove.contains(x) {
                Seq::empty()
            } else {
                seq![b]
            },
            _ => seq![b],
        };
        assert(kept_blocks(c, remove) == prev + tail);
        lemma_block_call_ids_concat(prev, tail);
        if tail.len() == 1 {
            assert(tail.drop_last() =~= Seq::<ContentV>::empty());
            assert(tail.last() == b);
            assert(block_call_ids(tail) == block_call_ids(tail.drop_last()) + match b {
                ContentV::ToolCall { id, .. } => seq![id],
                _ => Seq::<Seq<char>>::empty(),
            });
            match b {
                ContentV::ToolCall { id: x, .. } => {
                    assert(block_call_ids(tail) =~= seq![x]);
                    assert(x != id);
                },
                _ => {
                    assert(block_call_ids(tail) =~= Seq::<Seq<char>>::empty());
                },
            }
        } else {
            assert(tail =~= Seq::<ContentV>::empty());
            assert(block_call_ids(tail) =~= Seq::<Seq<char>>::empty());
        }
        lemma_contains_concat(block_call_ids(prev), block_call_ids(tail), id);
    }
}

/// After the edit, no call and no result with a removed id remains.
pub proof fn lemma_edit_removes(ms: Seq<AgentMessageV>, remove: Seq<Seq<char>>, truncate: Seq<Seq<char>>, head: int, id: Seq<char>)
    requires
        remove.contains(id),
    ensures
        !call_ids(edit_spec(ms, remove, truncate, head)).contains(id),
        !result_ids(edit_spec(ms, remove, truncate, head)).contains(id),
    decreases ms.len(),
{
    assert(remove.len() > 0);
    if ms.len() == 0 {
        assert(call_ids(edited(ms, remove, truncate, head)) =~= Seq::<Seq<char>>::empty());
        assert(result_ids(edited(ms, remove, truncate, head)) =~= Seq::<Seq<char>>::empty());
    } else {
        lemma_edit_removes(ms.drop_last(), remove, truncate, head, id);
        let prev = edited(ms.drop_last(), remove, truncate, head);
        let e = edit_msg(ms.last(), remove, truncate, head);
        let tail = match e {
            Some(x) => seq![x],
            None => Seq::<AgentMessageV>::empty(),
        };
        assert(edited(ms, remove, truncate, head) == prev + tail);
        lemma_call_ids_concat(prev, tail);
        lemma_result_ids_concat(prev, tail);
        match e {
            Some(x) => {
                assert(tail.drop_last() =~= Seq::<AgentMessageV>::empty());
                assert(tail.last() == x);
                assert(call_ids(tail.drop_last()) =~= Seq::<Seq<char>>::empty());
                assert(result_ids(tail.drop_last()) =~= Seq::<Seq<char>>::empty());
                assert(call_ids(tail) == call_ids(tail.drop_last()) + msg_call_ids(x));
                assert(result_ids(tail) == result_ids(tail.drop_last()) + msg_result_ids(x));
                assert(call_ids(tail) =~= msg_call_ids(x));
                assert(result_ids(tail) =~= msg_result_ids(x));
                match ms.last() {
                    AgentMessageV::Llm(MessageV::Assistant { content, .. }) => {
                        lemma_kept_blocks_ids(content, remove, id);
                        assert(msg_result_ids(x) =~= Seq::<Seq<char>>::empty());
                    },
                    AgentMessageV::Llm(MessageV::ToolResult { tool_call_id, .. }) => {
                        assert(msg_call_ids(x) =~= Seq::<Seq<char>>::empty());
                        assert(msg_result_ids(x) =~= seq![tool_call_id]);
                        assert(tool_call_id != id);
                    },
                    _ => {
                        assert(msg_call_ids(x) =~= Seq::<Seq<char>>::empty());
                        assert(msg_result_ids(x) =~= Seq::<Seq<char>>::empty());
                    },
                }
            },
            None => {
                assert(call_ids(tail) =~= Seq::<Seq<char>>::empty());
                assert(result_ids(tail) =~= Seq::<Seq<char>>::empty());
            },
        }
        lemma_contains_concat(call_ids(prev), call_ids(tail), id);
        lemma_contains_concat(result_ids(prev), result_ids(tail), id);
    }
}

/// The user messages of a history, in order.
pub open spec fn user_msgs(ms: Seq<AgentMessageV>) -> Seq<AgentMessageV>
    decreases ms.len(),
{
    if ms.len() == 0 {
        Seq::empty()
    } else {
        user_msgs(ms.drop_last()) + if crate::types::is_user(ms.last()) { seq![ms.last()] } else { Seq::empty() }
    }
}

/// Pruning never rewrites what the user said: the user messages of the
/// edited history are those of the history, unchanged and in order.
pub proof fn lemma_edit_keeps_user_messages(ms: Seq<AgentMessageV>, remove: Seq<Seq<char>>, truncate: Seq<Seq<char>>, head: int)
    ensures
        user_msgs(edit_spec(ms, remove, truncate, head)) == user_msgs(ms),
    decreases ms.len(),
{
    if !(remove.len() == 0 && truncate.len() == 0) {
        lemma_edited_keeps_user_messages(ms, remove, truncate, head);
    }
}

proof fn lemma_user_msgs_concat(a: Seq<AgentMessageV>, b: Seq<AgentMessageV>)
    ensures
        user_msgs(a + b) == user_msgs(a) + user_msgs(b),
    decreases b.len(),
{
    if b.len() == 0 {
        assert(a + b =~= a);
        assert(user_msgs(a) + user_msgs(b) =~= user_msgs(a));
    } else {
        lemma_user_msgs_concat(a, b.drop_last());
        assert((a + b).drop_last() =~= a + b.drop_last());
        assert(user_msgs(a + b) =~= user_msgs(a) + user_msgs(b));
    }
}

proof fn lemma_edited_keeps_user_messages(ms: Seq<AgentMessageV>, remove: Seq<Seq<char>>, truncate: Seq<Seq<char>>, head: int)
    ensures
        user_msgs(edited(ms, remove, truncate, head)) == user_msgs(ms),
    decreases ms.len(),
{
    if ms.len() == 0 {
        assert(user_msgs(edited(ms, remove, truncate, head)) =~= Seq::<AgentMessageV>::empty());
    } else {
        lemma_edited_keeps_user_messages(ms.drop_last(), remove, truncate, head);
        let prev = edited(ms.drop_last(), remove, truncate, head);
        let tail = match edit_msg(ms.last(), remove, truncate, head) {
            Some(x) => seq![x],
            None => Seq::<AgentMessageV>::empty(),
        };
        lemma_user_msgs_concat(prev, tail);
        let one = seq![ms.last()];
        assert(user_msgs(tail) =~= user_msgs(one)) by {
            assert(one.drop_last() =~= Seq::<AgentMessageV>::empty());
            if tail.len() == 1 {
                assert(tail.drop_last() =~= Seq::<AgentMessageV>::empty());
            }
        }
        assert(user_msgs(ms) =~= user_msgs(ms.drop_last()) + user_msgs(one)) by {
            assert(one.drop_last() =~= Seq::<AgentMessageV>::empty());
            assert(one.last() == ms.last());
            assert(user_msgs(one.drop_last()) =~= Seq::<AgentMessageV>::empty());
            let u: Seq<AgentMessageV> = if crate::types::is_user(ms.last()) { seq![ms.last()] } else { Seq::empty() };
            assert(user_msgs(one) == user_msgs(one.drop_last()) + u);
            assert(user_msgs(one) =~= u);
        }
    }
}

} // verus!
