//! Which tool calls may be judged: every call with its result, minus the
//! first message and the pinned tail.

use vstd::prelude::*;
use crate::compaction::passes::shrink::pass::sat_sub;
use crate::text::{dec, owned, push_str, push_usize};
use crate::tokens::{byte_len, content_tokens, ctoks, sat};
use crate::types::{AgentMessage, AgentMessageV, Content, ContentV, Message, MessageV, cv, mv};

verus! {

/// A tool call that may be judged.
pub struct Candidate {
    pub call_id: String,
    pub tool_name: String,
    /// Compact JSON of the call arguments.
    pub arguments: String,
    /// "ok, 1200 chars (omitted)": names the result without quoting it.
    pub result_note: String,
    /// Index of the assistant message holding the call, and of its result.
    pub call_index: usize,
    pub result_index: Option<usize>,
    /// Tokens freed by removing the pair (call block + result message).
    pub pair_tokens: usize,
    /// Tokens freed by truncating the result to its head.
    pub truncation_tokens: usize,
}

/// Mathematical view of a candidate.
pub ghost struct CandidateV {
    pub call_id: Seq<char>,
    pub tool_name: Seq<char>,
    pub arguments: Seq<char>,
    pub result_note: Seq<char>,
    pub call_index: int,
    pub result_index: Option<usize>,
    pub pair_tokens: int,
    pub truncation_tokens: int,
}

impl View for Candidate {
    type V = CandidateV;

    open spec fn view(&self) -> CandidateV {
        CandidateV {
            call_id: self.call_id@,
            tool_name: self.tool_name@,
            arguments: self.arguments@,
            result_note: self.result_note@,
            call_index: self.call_index as int,
            result_index: self.result_index,
            pair_tokens: self.pair_tokens as int,
            truncation_tokens: self.truncation_tokens as int,
        }
    }
}

pub open spec fn cands_view(s: Seq<Candidate>) -> Seq<CandidateV> {
    s.map_values(|c: Candidate| c@)
}

impl Candidate {
    pub fn copy(&self) -> (r: Candidate)
        ensures
            r@ == self@,
    {
        Candidate {
            call_id: self.call_id.clone(),
            tool_name: self.tool_name.clone(),
            arguments: self.arguments.clone(),
            result_note: self.result_note.clone(),
            call_index: self.call_index,
            result_index: self.result_index,
            pair_tokens: self.pair_tokens,
            truncation_tokens: self.truncation_tokens,
        }
    }
}

/// The last tool result below `k` answering `id`.
pub open spec fn last_result(ms: Seq<AgentMessageV>, k: int, id: Seq<char>) -> Option<int>
    decreases k,
{
    if k <= 0 {
        None
    } else {
        match ms[k - 1] {
            AgentMessageV::Llm(MessageV::ToolResult { tool_call_id, .. }) => if tool_call_id == id {
                Some(k - 1)
            } else {
                last_result(ms, k - 1, id)
            },
            _ => last_result(ms, k - 1, id),
        }
    }
}

/// Characters a block shows: text and thinking by character, a call by the
/// bytes of its JSON arguments, an image none.
pub open spec fn block_chars(b: ContentV) -> int {
    match b {
        ContentV::Text { text } => text.len() as int,
        ContentV::Thinking { thinking, .. } => thinking.len() as int,
        ContentV::ToolCall { arguments, .. } => byte_len(arguments) as int,
        ContentV::Image { .. } => 0,
    }
}

pub open spec fn chars_sum(c: Seq<ContentV>) -> int
    decreases c.len(),
{
    if c.len() == 0 {
        0
    } else {
        sat(chars_sum(c.drop_last()) + block_chars(c.last()))
    }
}

/// The note naming a result without quoting it.
pub open spec fn note_of(m: AgentMessageV) -> Seq<char> {
    match m {
        AgentMessageV::Llm(MessageV::ToolResult { content, is_error, .. }) => (if is_error { "error"@ } else { "ok"@ })
            + ", "@ + dec(chars_sum(content) as nat) + " chars (omitted)"@,
        _ => Seq::empty(),
    }
}

pub open spec fn result_content(m: AgentMessageV) -> Seq<ContentV> {
    match m {
        AgentMessageV::Llm(MessageV::ToolResult { content, .. }) => content,
        _ => Seq::empty(),
    }
}

/// The candidate for call block `b` of message `i`, unless its result is
/// pinned.
pub open spec fn cand_of(ms: Seq<AgentMessageV>, i: int, b: ContentV, pinned: int) -> Option<CandidateV> {
    match b {
        ContentV::ToolCall { id, name, arguments } => {
            let r = last_result(ms, ms.len() as int, id);
            if r matches Some(at) && at >= pinned {
                None
            } else {
                let rt = match r {
                    Some(at) => ctoks(result_content(ms[at])),
                    None => 0,
                };
                Some(CandidateV {
                    call_id: id,
                    tool_name: name,
                    arguments,
                    result_note: match r {
                        Some(at) => note_of(ms[at]),
                        None => "no result"@,
                    },
                    call_index: i,
                    result_index: match r {
                        Some(at) => Some(at as usize),
                        None => None,
                    },
                    pair_tokens: sat(ctoks(seq![b]) + rt),
                    truncation_tokens: rt - (if rt < 100 { rt } else { 100 }),
                })
            }
        },
        _ => None,
    }
}

pub open spec fn opt_cand(o: Option<CandidateV>) -> Seq<CandidateV> {
    match o {
        Some(c) => seq![c],
        None => Seq::empty(),
    }
}

/// The candidates of the blocks of message `i`, in order.
pub open spec fn cands_in(ms: Seq<AgentMessageV>, i: int, c: Seq<ContentV>, pinned: int) -> Seq<CandidateV>
    decreases c.len(),
{
    if c.len() == 0 {
        Seq::empty()
    } else {
        cands_in(ms, i, c.drop_last(), pinned) + opt_cand(cand_of(ms, i, c.last(), pinned))
    }
}

/// The candidates of the messages below `k`: calls of assistant messages
/// after the first and before the pinned tail.
pub open spec fn cands_upto(ms: Seq<AgentMessageV>, k: int, pinned: int) -> Seq<CandidateV>
    decreases k,
{
    if k <= 0 {
        Seq::empty()
    } else {
        cands_upto(ms, k - 1, pinned) + if k - 1 == 0 || k - 1 >= pinned {
            Seq::empty()
        } else {
            match ms[k - 1] {
                AgentMessageV::Llm(MessageV::Assistant { content, .. }) => cands_in(ms, k - 1, content, pinned),
                _ => Seq::empty(),
            }
        }
    }
}

/// Every candidate of a history whose newest `preserve_recent` messages are
/// pinned.
pub open spec fn candidates_spec(ms: Seq<AgentMessageV>, preserve_recent: int) -> Seq<CandidateV> {
    cands_upto(ms, ms.len() as int, sat_sub(ms.len() as int, preserve_recent))
}

fn last_result_of(messages: &[AgentMessage], id: &str) -> (r: Option<usize>)
    ensures
        r matches Some(i) ==> i < messages@.len(),
        match r {
            Some(i) => last_result(mv(messages@), messages@.len() as int, id@) == Some(i as int),
            None => last_result(mv(messages@), messages@.len() as int, id@) is None,
        },
{
    let ghost ms = mv(messages@);
    let mut k = messages.len();
    while k > 0
        invariant
            k <= messages@.len(),
            ms == mv(messages@),
            last_result(ms, messages@.len() as int, id@) == last_result(ms, k as int, id@),
        decreases k,
    {
        proof {
            assert(ms[k - 1] == messages@[k - 1]@);
        }
        if let AgentMessage::Llm(Message::ToolResult { tool_call_id, .. }) = &messages[k - 1] {
            if crate::text::str_eq(tool_call_id.as_str(), id) {
                return Some(k - 1);
            }
        }
        k = k - 1;
    }
    None
}

fn chars_of_content(content: &[Content]) -> (r: usize)
    ensures
        r == chars_sum(cv(content@)),
{
    let mut acc: usize = 0;
    let mut i: usize = 0;
    while i < content.len()
        invariant
            i <= content@.len(),
            acc == chars_sum(cv(content@.take(i as int))),
        decreases content@.len() - i,
    {
        proof {
            assert(cv(content@.take(i + 1)).drop_last() =~= cv(content@.take(i as int)));
            assert(cv(content@.take(i + 1)).last() == content@[i as int]@);
        }
        let n = match &content[i] {
            Content::Text { text } => text.as_str().unicode_len(),
            Content::Thinking { thinking, .. } => thinking.as_str().unicode_len(),
            Content::ToolCall { arguments, .. } => arguments.as_str().as_bytes().len(),
            Content::Image { .. } => 0,
        };
        acc = acc.saturating_add(n);
        i = i + 1;
    }
    proof {
        assert(content@.take(content@.len() as int) =~= content@);
    }
    acc
}

/// "ok, N chars (omitted)" or "error, N chars (omitted)" for a tool result.
pub fn result_note(message: &AgentMessage) -> (r: String)
    ensures
        r@ == note_of(message@),
{
    match message {
        AgentMessage::Llm(Message::ToolResult { content, is_error, .. }) => {
            let mut s = owned(if *is_error { "error" } else { "ok" });
            push_str(&mut s, ", ");
            push_usize(&mut s, chars_of_content(content.as_slice()));
            push_str(&mut s, " chars (omitted)");
            s
        },
        _ => String::new(),
    }
}

/// The compact JSON text of tool arguments; they are carried in that form.
pub fn compact_json(arguments: &String) -> (r: String)
    ensures
        r@ == arguments@,
{
    arguments.clone()
}

fn push_block_candidates(
    out: &mut Vec<Candidate>,
    messages: &[AgentMessage],
    i: usize,
    content: &[Content],
    pinned: usize,
)
    ensures
        cands_view(final(out)@) == cands_view(old(out)@) + cands_in(mv(messages@), i as int, cv(content@), pinned as int),
{
    let ghost ms = mv(messages@);
    let mut k: usize = 0;
    while k < content.len()
        invariant
            k <= content@.len(),
            ms == mv(messages@),
            cands_view(out@) == cands_view(old(out)@) + cands_in(ms, i as int, cv(content@.take(k as int)), pinned as int),
        decreases content@.len() - k,
    {
        proof {
            assert(cv(content@.take(k + 1)).drop_last() =~= cv(content@.take(k as int)));
            assert(cv(content@.take(k + 1)).last() == content@[k as int]@);
        }
        let ghost po = out@;
        let mut pushed = false;
        if let Content::ToolCall { id, name, arguments } = &content[k] {
            let r = last_result_of(messages, id.as_str());
            let pinned_result = match r {
                Some(at) => at >= pinned,
                None => false,
            };
            if !pinned_result {
                let rt: usize = match r {
                    Some(at) => match &messages[at] {
                        AgentMessage::Llm(Message::ToolResult { content: rc, .. }) => content_tokens(rc.as_slice()),
                        _ => 0,
                    },
                    None => 0,
                };
                proof {
                    if let Some(at) = r {
                        assert(ms[at as int] == messages@[at as int]@);
                    }
                }
                let mut one: Vec<Content> = Vec::new();
                one.push(content[k].clone());
                proof {
                    assert(cv(one@) =~= seq![content@[k as int]@]);
                }
                let call_tokens = content_tokens(one.as_slice());
                let note = match r {
                    Some(at) => result_note(&messages[at]),
                    None => owned("no result"),
                };
                let c = Candidate {
                    call_id: id.clone(),
                    tool_name: name.clone(),
                    arguments: compact_json(arguments),
                    result_note: note,
                    call_index: i,
                    result_index: r,
                    pair_tokens: call_tokens.saturating_add(rt),
                    truncation_tokens: rt - (if rt < 100 { rt } else { 100 }),
                };
                out.push(c);
                pushed = true;
                proof {
                    assert(cands_view(out@) =~= cands_view(po) + opt_cand(cand_of(ms, i as int, content@[k as int]@, pinned as int)));
                }
            }
        }
        proof {
            if !pushed {
                assert(cands_view(out@) =~= cands_view(po) + opt_cand(cand_of(ms, i as int, content@[k as int]@, pinned as int)));
            }
        }
        k = k + 1;
    }
    proof {
        assert(content@.take(content@.len() as int) =~= content@);
    }
}

/// Every call with its result, minus the first message and the newest
/// `preserve_recent` messages.
pub fn collect(messages: &[AgentMessage], preserve_recent: usize) -> (r: Vec<Candidate>)
    ensures
        cands_view(r@) == candidates_spec(mv(messages@), preserve_recent as int),
        forall|k: int| 0 <= k < r@.len() ==> (#[trigger] r@[k]).call_index < messages@.len() && (r@[k].result_index matches Some(x) ==> x < messages@.len()),
{
    let ghost ms = mv(messages@);
    let pinned = messages.len().saturating_sub(preserve_recent);
    let mut out: Vec<Candidate> = Vec::new();
    let mut i: usize = 0;
    while i < messages.len()
        invariant
            i <= messages@.len(),
            ms == mv(messages@),
            pinned == sat_sub(messages@.len() as int, preserve_recent as int),
            cands_view(out@) == cands_upto(ms, i as int, pinned as int),
            forall|k: int| 0 <= k < out@.len() ==> (#[trigger] out@[k]).call_index < messages@.len() && (out@[k].result_index matches Some(x) ==> x < messages@.len()),
        decreases messages@.len() - i,
    {
        proof {
            assert(ms[i as int] == messages@[i as int]@);
        }
        let ghost po = out@;
        if i != 0 && i < pinned {
            if let AgentMessage::Llm(Message::Assistant { content, .. }) = &messages[i] {
                push_block_candidates(&mut out, messages, i, content.as_slice(), pinned);
                proof {
                    lemma_cands_in_indices(ms, i as int, cv(content@), pinned as int);
                    let ci = cands_in(ms, i as int, cv(content@), pinned as int);
                    assert(cands_view(out@).len() == out@.len());
                    assert(cands_view(po).len() == po.len());
                    assert forall|k: int| 0 <= k < out@.len() implies (#[trigger] out@[k]).call_index < messages@.len() && (out@[k].result_index matches Some(x) ==> x < messages@.len()) by {
                        assert(cands_view(out@)[k] == out@[k]@);
                        if k >= po.len() {
                            assert((cands_view(po) + ci)[k] == ci[k - po.len()]);
                            assert(ci[k - po.len()].call_index == i);
                        } else {
                            assert((cands_view(po) + ci)[k] == cands_view(po)[k]);
                            assert(cands_view(po)[k] == po[k]@);
                        }
                    }
                }
            } else {
                proof {
                    assert(cands_view(out@) =~= cands_view(po) + Seq::<CandidateV>::empty());
                }
            }
        } else {
            proof {
                assert(cands_view(out@) =~= cands_view(po) + Seq::<CandidateV>::empty());
            }
        }
        i = i + 1;
    }
    out
}

proof fn lemma_last_result_range(ms: Seq<AgentMessageV>, k: int, id: Seq<char>)
    requires
        k <= ms.len(),
    ensures
        last_result(ms, k, id) matches Some(x) ==> 0 <= x < k,
    decreases k,
{
    if k > 0 {
        lemma_last_result_range(ms, k - 1, id);
    }
}

proof fn lemma_cands_in_indices(ms: Seq<AgentMessageV>, i: int, c: Seq<ContentV>, pinned: int)
    requires
        0 <= i < ms.len(),
    ensures
        forall|k: int| 0 <= k < cands_in(ms, i, c, pinned).len() ==> (#[trigger] cands_in(ms, i, c, pinned)[k]).call_index == i
            && (cands_in(ms, i, c, pinned)[k].result_index matches Some(x) ==> x < ms.len()),
    decreases c.len(),
{
    if c.len() > 0 {
        lemma_cands_in_indices(ms, i, c.drop_last(), pinned);
        let prev = cands_in(ms, i, c.drop_last(), pinned);
        match c.last() {
            ContentV::ToolCall { id, .. } => lemma_last_result_range(ms, ms.len() as int, id),
            _ => {},
        }
        assert forall|k: int| 0 <= k < cands_in(ms, i, c, pinned).len() implies (#[trigger] cands_in(ms, i, c, pinned)[k]).call_index == i
            && (cands_in(ms, i, c, pinned)[k].result_index matches Some(x) ==> x < ms.len()) by {
            if k < prev.len() {
                assert(cands_in(ms, i, c, pinned)[k] == prev[k]);
            }
        }
    }
}

/// Whether a candidate stays clear of the pinned messages: its call is not
/// the first message, and neither its call nor its result lies in the
/// pinned tail starting at `pinned`.
pub open spec fn unpinned(c: CandidateV, pinned: int) -> bool {
    &&& 0 < c.call_index < pinned
    &&& c.result_index matches Some(x) ==> x < pinned
}

proof fn lemma_cands_in_unpinned(ms: Seq<AgentMessageV>, i: int, c: Seq<ContentV>, pinned: int)
    requires
        0 < i < pinned,
        pinned <= ms.len() <= usize::MAX,
    ensures
        forall|k: int| 0 <= k < cands_in(ms, i, c, pinned).len() ==> unpinned(#[trigger] cands_in(ms, i, c, pinned)[k], pinned),
    decreases c.len(),
{
    if c.len() > 0 {
        lemma_cands_in_unpinned(ms, i, c.drop_last(), pinned);
        let a = cands_in(ms, i, c.drop_last(), pinned);
        let b = opt_cand(cand_of(ms, i, c.last(), pinned));
        match c.last() {
            ContentV::ToolCall { id, .. } => lemma_last_result_range(ms, ms.len() as int, id),
            _ => {},
        }
        assert(cands_in(ms, i, c, pinned) == a + b);
        assert forall|k: int| 0 <= k < (a + b).len() implies unpinned(#[trigger] (a + b)[k], pinned) by {
            if k >= a.len() {
                assert((a + b)[k] == b[k - a.len()]);
            }
        }
    }
}

proof fn lemma_cands_upto_unpinned(ms: Seq<AgentMessageV>, k: int, pinned: int)
    requires
        k <= ms.len() <= usize::MAX,
        pinned <= ms.len(),
    ensures
        forall|j: int| 0 <= j < cands_upto(ms, k, pinned).len() ==> unpinned(#[trigger] cands_upto(ms, k, pinned)[j], pinned),
    decreases k,
{
    if k > 0 {
        lemma_cands_upto_unpinned(ms, k - 1, pinned);
        let a = cands_upto(ms, k - 1, pinned);
        let b: Seq<CandidateV> = if k - 1 == 0 || k - 1 >= pinned {
            Seq::empty()
        } else {
            match ms[k - 1] {
                AgentMessageV::Llm(MessageV::Assistant { content, .. }) => cands_in(ms, k - 1, content, pinned),
                _ => Seq::empty(),
            }
        };
        if !(k - 1 == 0 || k - 1 >= pinned) {
            if let AgentMessageV::Llm(MessageV::Assistant { content, .. }) = ms[k - 1] {
                lemma_cands_in_unpinned(ms, k - 1, content, pinned);
            }
        }
        assert(cands_upto(ms, k, pinned) == a + b);
        assert forall|j: int| 0 <= j < (a + b).len() implies unpinned(#[trigger] (a + b)[j], pinned) by {
            if j >= a.len() {
                assert((a + b)[j] == b[j - a.len()]);
            }
        }
    }
}

/// The first message and the newest `preserve_recent` messages are pinned:
/// no candidate's call is the first message, and no candidate's call or
/// result lies among the newest `preserve_recent`.
pub proof fn lemma_candidates_unpinned(ms: Seq<AgentMessageV>, preserve_recent: int)
    requires
        ms.len() <= usize::MAX,
        preserve_recent >= 0,
    ensures
        forall|k: int| 0 <= k < candidates_spec(ms, preserve_recent).len() ==> unpinned(
            #[trigger] candidates_spec(ms, preserve_recent)[k],
            sat_sub(ms.len() as int, preserve_recent),
        ),
{
    lemma_cands_upto_unpinned(ms, ms.len() as int, sat_sub(ms.len() as int, preserve_recent));
}

} // verus!
