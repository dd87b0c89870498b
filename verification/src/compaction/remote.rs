//! Provider-native compaction items: what the library decides around them.
//!
//! Models served over a Responses API can compact server-side: the
//! conversation to evict is sent with a trailing trigger item, and the
//! endpoint returns an opaque `compaction` item that replays with far higher
//! recall than a text summary. The request itself is made by the caller;
//! this module prepares its input, reads its event stream, and recognizes
//! and downgrades replayed items.

use vstd::prelude::*;
use crate::clock::now_or_zero;
use crate::json::{json_member, json_str_value, member, str_member, str_member_of, str_value};
use crate::text::{chars_of, dec, is_prefix, lines, lines_of, owned, push_str, push_usize, slice_vec, starts_with, str_eq, string_of, trim, trim_chars, vecs};
use crate::tokens::byte_len;
use crate::types::{AgentMessage, AgentMessageV, Content, ContentV, Message, MessageV, StopReason, ThinkingMetadata, ThinkingMetadataV, Usage, cv, mv};

verus! {

/// A successful remote compaction: the opaque item to replay in later
/// requests, as compact JSON text.
pub struct RemoteCompaction {
    pub item: String,
    /// Size of the encrypted payload, in bytes (for observability only).
    pub encrypted_bytes: usize,
}

pub enum RemoteError {
    /// Request or protocol failure: the caller falls back to local
    /// summarization.
    Failed(String),
    /// Cancelled by the user: the caller aborts compaction entirely.
    Cancelled,
}

/// The note that carries a local summary into a remote compaction request.
pub open spec fn summary_note(summary: Seq<char>) -> Seq<char> {
    "The conversation history before this point was compacted into the following summary:\n\n"@ + summary
}

/// The remote compaction input: the evicted messages, after the removed
/// local summary when there is one that is not blank. A prior remote
/// compaction already sits in `evicted` as an opaque item and is not
/// duplicated.
pub open spec fn with_summary_spec(evicted: Seq<AgentMessageV>, summary: Option<Seq<char>>, now: u64) -> Seq<AgentMessageV> {
    match summary {
        Some(s) => if trim(s).len() > 0 {
            seq![AgentMessageV::Llm(MessageV::User { content: seq![ContentV::Text { text: summary_note(s) }], timestamp: now })]
                + evicted
        } else {
            evicted
        },
        None => evicted,
    }
}

pub open spec fn str_opt(o: Option<&str>) -> Option<Seq<char>> {
    match o {
        Some(s) => Some(s@),
        None => None,
    }
}

/// [`with_previous_local_summary`] with the note stamped `now`.
pub fn with_previous_local_summary_at(evicted: &[AgentMessage], previous_summary: Option<&str>, now: u64) -> (r: Vec<
    AgentMessage,
>)
    ensures
        mv(r@) == with_summary_spec(mv(evicted@), str_opt(previous_summary), now),
{
    let mut input: Vec<AgentMessage> = Vec::new();
    if let Some(summary) = previous_summary {
        let t = trim_chars(summary);
        if t.len() > 0 {
            let mut text = owned("The conversation history before this point was compacted into the following summary:\n\n");
            push_str(&mut text, summary);
            let mut content: Vec<Content> = Vec::new();
            content.push(Content::Text { text });
            proof {
                assert(cv(content@) =~= seq![ContentV::Text { text: summary_note(summary@) }]);
            }
            input.push(AgentMessage::Llm(Message::User { content, timestamp: now }));
        }
    }
    let ghost prefix = input@;
    let mut i: usize = 0;
    while i < evicted.len()
        invariant
            i <= evicted@.len(),
            mv(input@) == mv(prefix) + mv(evicted@).take(i as int),
        decreases evicted@.len() - i,
    {
        let ghost before = input@;
        input.push(evicted[i].clone());
        proof {
            assert(mv(input@) =~= mv(before).push(evicted@[i as int]@));
            assert(mv(evicted@).take(i + 1) =~= mv(evicted@).take(i as int).push(evicted@[i as int]@));
        }
        i = i + 1;
    }
    proof {
        assert(mv(evicted@).take(i as int) =~= mv(evicted@));
        if mv(prefix).len() == 0 {
            assert(mv(prefix) + mv(evicted@) =~= mv(evicted@));
        }
    }
    input
}

/// Prefixes a removed local summary when moving from local compaction to
/// provider-native state; the note is stamped with the clock's time.
pub fn with_previous_local_summary(evicted: &[AgentMessage], previous_summary: Option<&str>) -> (r: Vec<AgentMessage>)
    ensures
        exists|now: u64| #![trigger with_summary_spec(mv(evicted@), str_opt(previous_summary), now)]
            mv(r@) == with_summary_spec(mv(evicted@), str_opt(previous_summary), now),
{
    with_previous_local_summary_at(evicted, previous_summary, now_or_zero())
}

/// The message that replays a native compaction item: an assistant message
/// whose single thinking block holds `fallback_summary` (the text providers
/// without the Responses API see) and the item as its metadata.
pub open spec fn replacement_spec(
    model: Seq<char>,
    provider: Seq<char>,
    item: Seq<char>,
    fallback_summary: Seq<char>,
    now: u64,
) -> AgentMessageV {
    AgentMessageV::Llm(
        MessageV::Assistant {
            content: seq![
                ContentV::Thinking {
                    thinking: fallback_summary,
                    metadata: Some(ThinkingMetadataV::OpenAiResponses { item }),
                },
            ],
            stop_reason: StopReason::Stop,
            model,
            provider,
            usage: Usage { input: 0, output: 0, cache_read: 0, cache_write: 0 },
            timestamp: now,
            error_message: None,
            response_id: None,
        },
    )
}

/// Builds the message that replays a native compaction item, stamped `now`.
/// `model` is the model the compaction ran on and `provider` its provider's
/// name (empty when unknown).
pub fn replacement_message_at(
    model: String,
    provider: String,
    compaction: RemoteCompaction,
    fallback_summary: String,
    now: u64,
) -> (r: AgentMessage)
    ensures
        r@ == replacement_spec(model@, provider@, compaction.item@, fallback_summary@, now),
{
    let ghost item = compaction.item@;
    let ghost summary = fallback_summary@;
    let mut content: Vec<Content> = Vec::new();
    content.push(
        Content::Thinking {
            thinking: fallback_summary,
            metadata: Some(ThinkingMetadata::OpenAiResponses { item: compaction.item }),
        },
    );
    proof {
        assert(cv(content@) =~= seq![
            ContentV::Thinking {
                thinking: summary,
                metadata: Some(ThinkingMetadataV::OpenAiResponses { item }),
            },
        ]);
    }
    AgentMessage::Llm(
        Message::Assistant {
            content,
            stop_reason: StopReason::Stop,
            model,
            provider,
            usage: Usage { input: 0, output: 0, cache_read: 0, cache_write: 0 },
            timestamp: now,
            error_message: None,
            response_id: None,
        },
    )
}

/// Builds the message that replays a native compaction item, stamped with
/// the clock's time.
pub fn replacement_message(model: String, provider: String, compaction: RemoteCompaction, fallback_summary: String) -> (r: AgentMessage)
    ensures
        exists|now: u64| #![trigger replacement_spec(model@, provider@, compaction.item@, fallback_summary@, now)]
            r@ == replacement_spec(model@, provider@, compaction.item@, fallback_summary@, now),
{
    replacement_message_at(model, provider, compaction, fallback_summary, now_or_zero())
}

/// Whether a JSON item is a provider-native compaction item.
pub open spec fn is_compaction_item(item: Seq<char>) -> bool {
    str_member(item, "type"@) == Some("compaction"@) || str_member(item, "type"@) == Some("compaction_summary"@)
}

fn compaction_item(item: &str) -> (r: bool)
    ensures
        r == is_compaction_item(item@),
{
    match str_member_of(item, "type") {
        Some(t) => str_eq(t.as_str(), "compaction") || str_eq(t.as_str(), "compaction_summary"),
        None => false,
    }
}

/// A block that carries a provider-native compaction item.
pub open spec fn is_compaction_block(b: ContentV) -> bool {
    b matches ContentV::Thinking { metadata: Some(ThinkingMetadataV::OpenAiResponses { item }), .. } && is_compaction_item(item)
}

/// True when a message exists only to carry provider-native compaction
/// state: an assistant message whose single block is such an item.
pub open spec fn is_replacement_spec(m: AgentMessageV) -> bool {
    m matches AgentMessageV::Llm(MessageV::Assistant { content, .. }) && content.len() == 1 && is_compaction_block(content[0])
}

/// A replay message is recognised as one exactly when its item is a
/// compaction item.
pub proof fn lemma_replacement_recognised(model: Seq<char>, provider: Seq<char>, item: Seq<char>, summary: Seq<char>, now: u64)
    ensures
        is_replacement_spec(replacement_spec(model, provider, item, summary, now)) <==> is_compaction_item(item),
{
}

fn compaction_block(b: &Content) -> (r: bool)
    ensures
        r == is_compaction_block(b@),
{
    match b {
        Content::Thinking { metadata: Some(ThinkingMetadata::OpenAiResponses { item }), .. } => compaction_item(item.as_str()),
        _ => false,
    }
}

pub fn is_replacement_message(message: &AgentMessage) -> (r: bool)
    ensures
        r == is_replacement_spec(message@),
{
    match message {
        AgentMessage::Llm(Message::Assistant { content, .. }) => content.len() == 1 && compaction_block(&content[0]),
        _ => false,
    }
}

/// A compaction item replaced by its readable fallback text; any other
/// block unchanged.
pub open spec fn downgrade_block(b: ContentV) -> ContentV {
    match b {
        ContentV::Thinking { thinking, .. } => if is_compaction_block(b) {
            ContentV::Text { text: thinking }
        } else {
            b
        },
        _ => b,
    }
}

pub open spec fn downgrade_msg(m: MessageV) -> MessageV {
    match m {
        MessageV::Assistant { content, stop_reason, model, provider, usage, timestamp, error_message, response_id } => {
            MessageV::Assistant {
                content: content.map_values(|b: ContentV| downgrade_block(b)),
                stop_reason,
                model,
                provider,
                usage,
                timestamp,
                error_message,
                response_id,
            }
        },
        _ => m,
    }
}

/// Whether an assistant message holds a compaction item.
pub open spec fn msg_has_item(m: MessageV) -> bool {
    match m {
        MessageV::Assistant { content, .. } => exists|j: int| 0 <= j < content.len() && is_compaction_block(#[trigger] content[j]),
        _ => false,
    }
}

/// Whether some assistant message holds a compaction item.
pub open spec fn has_compaction_item(ms: Seq<MessageV>) -> bool {
    exists|i: int| 0 <= i < ms.len() && msg_has_item(#[trigger] ms[i])
}

/// Downgrading replay messages keeps their number, leaves no compaction item
/// behind, and so changes nothing when applied again (and reports nothing).
pub proof fn lemma_downgrade_idempotent(ms: Seq<MessageV>)
    ensures
        ms.map_values(|m: MessageV| downgrade_msg(m)).len() == ms.len(),
        !has_compaction_item(ms.map_values(|m: MessageV| downgrade_msg(m))),
        ms.map_values(|m: MessageV| downgrade_msg(m)).map_values(|m: MessageV| downgrade_msg(m)) == ms.map_values(
            |m: MessageV| downgrade_msg(m),
        ),
{
    let d = ms.map_values(|m: MessageV| downgrade_msg(m));
    assert forall|i: int| 0 <= i < d.len() implies !msg_has_item(#[trigger] d[i]) && downgrade_msg(d[i]) == d[i] by {
        match ms[i] {
            MessageV::Assistant { content, .. } => {
                let c2 = content.map_values(|b: ContentV| downgrade_block(b));
                assert forall|j: int| 0 <= j < c2.len() implies !is_compaction_block(#[trigger] c2[j]) by {}
                assert(c2.map_values(|b: ContentV| downgrade_block(b)) =~= c2);
            },
            _ => {},
        }
    }
    assert(d.map_values(|m: MessageV| downgrade_msg(m)) =~= d);
}

fn downgrade_content(content: &[Content]) -> (r: (Vec<Content>, bool))
    ensures
        cv(r.0@) == cv(content@).map_values(|b: ContentV| downgrade_block(b)),
        r.1 == exists|j: int| 0 <= j < content@.len() && is_compaction_block(#[trigger] cv(content@)[j]),
{
    let ghost c = cv(content@);
    let mut out: Vec<Content> = Vec::new();
    let mut found = false;
    let mut i: usize = 0;
    while i < content.len()
        invariant
            i <= content@.len(),
            c == cv(content@),
            cv(out@) == c.take(i as int).map_values(|b: ContentV| downgrade_block(b)),
            found == exists|j: int| 0 <= j < i && is_compaction_block(#[trigger] c[j]),
        decreases content@.len() - i,
    {
        let ghost before = out@;
        let is_item = compaction_block(&content[i]);
        match &content[i] {
            Content::Thinking { thinking, .. } => {
                if is_item {
                    out.push(Content::Text { text: thinking.clone() });
                } else {
                    out.push(content[i].clone());
                }
            },
            other => {
                out.push(other.clone());
            },
        }
        proof {
            assert(c[i as int] == content@[i as int]@);
            assert(cv(out@) =~= cv(before).push(downgrade_block(c[i as int])));
            assert(c.take(i + 1).map_values(|b: ContentV| downgrade_block(b)) =~= c.take(i as int).map_values(
                |b: ContentV| downgrade_block(b),
            ).push(downgrade_block(c[i as int])));
        }
        if is_item {
            found = true;
        }
        i = i + 1;
    }
    proof {
        assert(c.take(i as int) =~= c);
    }
    (out, found)
}

/// Replaces provider-native compaction items with their readable fallback
/// text, for one retry when an upstream rejects replay; ordinary reasoning
/// items are kept. Also says whether any item was replaced.
pub fn downgrade_replay_messages(messages: &[Message]) -> (r: (Vec<Message>, bool))
    ensures
        r.0@.map_values(|m: Message| m@) == messages@.map_values(|m: Message| m@).map_values(|m: MessageV| downgrade_msg(m)),
        r.1 == has_compaction_item(messages@.map_values(|m: Message| m@)),
{
    let ghost ms = messages@.map_values(|m: Message| m@);
    let mut out: Vec<Message> = Vec::new();
    let mut found = false;
    let mut i: usize = 0;
    while i < messages.len()
        invariant
            i <= messages@.len(),
            ms == messages@.map_values(|m: Message| m@),
            out@.map_values(|m: Message| m@) == ms.take(i as int).map_values(|m: MessageV| downgrade_msg(m)),
            found == has_compaction_item(ms.take(i as int)),
        decreases messages@.len() - i,
    {
        let ghost before = out@;
        let mut here = false;
        match &messages[i] {
            Message::Assistant { content, stop_reason, model, provider, usage, timestamp, error_message, response_id } => {
                let (c, f) = downgrade_content(content.as_slice());
                here = f;
                out.push(
                    Message::Assistant {
                        content: c,
                        stop_reason: *stop_reason,
                        model: model.clone(),
                        provider: provider.clone(),
                        usage: *usage,
                        timestamp: *timestamp,
                        error_message: crate::types::clone_opt_string(error_message),
                        response_id: crate::types::clone_opt_string(response_id),
                    },
                );
            },
            other => {
                out.push(other.clone());
            },
        }
        proof {
            assert(ms[i as int] == messages@[i as int]@);
            assert(out@.map_values(|m: Message| m@) =~= before.map_values(|m: Message| m@).push(downgrade_msg(ms[i as int])));
            assert(ms.take(i + 1).map_values(|m: MessageV| downgrade_msg(m)) =~= ms.take(i as int).map_values(
                |m: MessageV| downgrade_msg(m),
            ).push(downgrade_msg(ms[i as int])));
            let t = ms.take(i + 1);
            let p = ms.take(i as int);
            assert(here == msg_has_item(ms[i as int]));
            if has_compaction_item(p) {
                let a = choose|a: int| 0 <= a < p.len() && msg_has_item(#[trigger] p[a]);
                assert(t[a] == p[a]);
            }
            if here {
                assert(t[i as int] == ms[i as int]);
            }
            if has_compaction_item(t) {
                let a = choose|a: int| 0 <= a < t.len() && msg_has_item(#[trigger] t[a]);
                if a < i {
                    assert(p[a] == t[a]);
                }
            }
        }
        found = found || here;
        i = i + 1;
    }
    proof {
        assert(ms.take(i as int) =~= ms);
    }
    (out, found)
}

/// The payload of an event-stream line: what follows `data:`, trimmed.
pub open spec fn sse_payload(line: Seq<char>) -> Option<Seq<char>> {
    if is_prefix("data:"@, line) {
        Some(trim(line.skip(5)))
    } else {
        None
    }
}

/// The message of a failure event: `response.error.message`, else
/// `message`, when it is a string; a generic message otherwise.
pub open spec fn sse_error_message(event: Seq<char>) -> Seq<char> {
    let nested = match json_member(event, "response"@) {
        Some(r) => match json_member(r, "error"@) {
            Some(e) => json_member(e, "message"@),
            None => None,
        },
        None => None,
    };
    let m = match nested {
        Some(v) => Some(v),
        None => json_member(event, "message"@),
    };
    match m {
        Some(v) => match json_str_value(v) {
            Some(t) => t,
            None => "Responses API error"@,
        },
        None => "Responses API error"@,
    }
}

/// The scan after one more line: the compaction items seen and whether the
/// response completed, or the failure the stream reported.
pub open spec fn sse_step(st: (Seq<Seq<char>>, bool), line: Seq<char>) -> Result<(Seq<Seq<char>>, bool), Seq<char>> {
    match sse_payload(line) {
        None => Ok(st),
        Some(d) => if d.len() == 0 || d == "[DONE]"@ {
            Ok(st)
        } else {
            match str_member(d, "type"@) {
                Some(t) => if t == "response.output_item.done"@ {
                    match json_member(d, "item"@) {
                        Some(it) => if str_member(it, "type"@) == Some("compaction"@) {
                            Ok((st.0.push(it), st.1))
                        } else {
                            Ok(st)
                        },
                        None => Ok(st),
                    }
                } else if t == "response.completed"@ {
                    Ok((st.0, true))
                } else if t == "response.failed"@ || t == "error"@ {
                    Err(sse_error_message(d))
                } else {
                    Ok(st)
                },
                None => Ok(st),
            }
        },
    }
}

pub open spec fn sse_scan(ls: Seq<Seq<char>>) -> Result<(Seq<Seq<char>>, bool), Seq<char>>
    decreases ls.len(),
{
    if ls.len() == 0 {
        Ok((Seq::empty(), false))
    } else {
        match sse_scan(ls.drop_last()) {
            Err(e) => Err(e),
            Ok(st) => sse_step(st, ls.last()),
        }
    }
}

/// The single compaction item of a Responses event stream, with the size of
/// its encrypted payload; or why there is none.
pub open spec fn parse_sse_spec(text: Seq<char>) -> Result<(Seq<char>, int), Seq<char>> {
    match sse_scan(lines(text)) {
        Err(e) => Err(e),
        Ok((items, completed)) => if !completed {
            Err("stream ended before response.completed"@)
        } else if items.len() != 1 {
            Err("expected exactly one compaction item, got "@ + dec(items.len()))
        } else {
            Ok(
                (
                    items[0],
                    match str_member(items[0], "encrypted_content"@) {
                        Some(c) => byte_len(c) as int,
                        None => 0,
                    },
                ),
            )
        },
    }
}

proof fn lemma_sse_error_sticks(l: Seq<Seq<char>>, k: int)
    requires
        0 <= k <= l.len(),
        sse_scan(l.take(k)) is Err,
    ensures
        sse_scan(l) == sse_scan(l.take(k)),
    decreases l.len() - k,
{
    if k == l.len() {
        assert(l.take(k) =~= l);
    } else {
        assert(l.take(k + 1).drop_last() =~= l.take(k));
        lemma_sse_error_sticks(l, k + 1);
    }
}

fn error_message_of(event: &str) -> (r: String)
    ensures
        r@ == sse_error_message(event@),
{
    let nested = match member(event, "response") {
        Some(resp) => match member(resp.as_str(), "error") {
            Some(e) => member(e.as_str(), "message"),
            None => None,
        },
        None => None,
    };
    let m = match nested {
        Some(v) => Some(v),
        None => member(event, "message"),
    };
    match m {
        Some(v) => match str_value(v.as_str()) {
            Some(t) => t,
            None => owned("Responses API error"),
        },
        None => owned("Responses API error"),
    }
}

fn payload_of(line: &Vec<char>) -> (r: Option<String>)
    ensures
        match r {
            Some(p) => sse_payload(line@) == Some(p@),
            None => sse_payload(line@) is None,
        },
{
    let text = string_of(line.as_slice());
    if !starts_with(text.as_str(), "data:") {
        return None;
    }
    proof {
        reveal_strlit("data:");
    }
    let rest = string_of(slice_vec(line.as_slice(), 5, line.len()).as_slice());
    proof {
        assert(rest@ =~= line@.skip(5));
    }
    let t = trim_chars(rest.as_str());
    Some(string_of(t.as_slice()))
}

/// Extracts the single `compaction` item from a Responses event stream.
pub fn parse_compaction_sse(text: &str) -> (r: Result<RemoteCompaction, RemoteError>)
    ensures
        match parse_sse_spec(text@) {
            Ok((item, bytes)) => r matches Ok(c) && c.item@ == item && c.encrypted_bytes == bytes,
            Err(e) => r matches Err(RemoteError::Failed(m)) && m@ == e,
        },
{
    let ls = lines_of(text);
    let ghost l = lines(text@);
    proof {
        assert(vecs(ls@) =~= l);
    }
    let mut items: Vec<String> = Vec::new();
    let mut completed = false;
    let mut i: usize = 0;
    proof {
        assert(items@.map_values(|s: String| s@) =~= Seq::<Seq<char>>::empty());
        assert(l.take(0) =~= Seq::<Seq<char>>::empty());
    }
    while i < ls.len()
        invariant
            i <= ls@.len(),
            vecs(ls@) == l,
            l == lines(text@),
            sse_scan(l.take(i as int)) == Ok::<(Seq<Seq<char>>, bool), Seq<char>>((items@.map_values(|s: String| s@), completed)),
        decreases ls@.len() - i,
    {
        proof {
            assert(l.take(i + 1).drop_last() =~= l.take(i as int));
            assert(l.take(i + 1).last() == ls@[i as int]@);
        }
        let ghost st = (items@.map_values(|s: String| s@), completed);
        match payload_of(&ls[i]) {
            None => {},
            Some(d) => {
                let empty = chars_of(d.as_str()).len() == 0;
                if empty || str_eq(d.as_str(), "[DONE]") {
                } else {
                    match str_member_of(d.as_str(), "type") {
                        None => {},
                        Some(t) => {
                            if str_eq(t.as_str(), "response.output_item.done") {
                                match member(d.as_str(), "item") {
                                    None => {},
                                    Some(it) => {
                                        let is_item = match str_member_of(it.as_str(), "type") {
                                            Some(k) => str_eq(k.as_str(), "compaction"),
                                            None => false,
                                        };
                                        if is_item {
                                            let ghost before = items@;
                                            items.push(it);
                                            proof {
                                                assert(items@.map_values(|s: String| s@) =~= before.map_values(|s: String| s@).push(items@.last()@));
                                            }
                                        }
                                    },
                                }
                            } else if str_eq(t.as_str(), "response.completed") {
                                completed = true;
                            } else if str_eq(t.as_str(), "response.failed") || str_eq(t.as_str(), "error") {
                                let m = error_message_of(d.as_str());
                                proof {
                                    assert(sse_payload(l[i as int]) == Some(d@));
                                    assert(sse_step(st, l[i as int]) == Err::<(Seq<Seq<char>>, bool), Seq<char>>(m@));
                                    assert(sse_scan(l.take(i + 1)) == Err::<(Seq<Seq<char>>, bool), Seq<char>>(m@));
                                    lemma_sse_error_sticks(l, i + 1);
                                }
                                return Err(RemoteError::Failed(m));
                            }
                        },
                    }
                }
            },
        }
        i = i + 1;
    }
    proof {
        assert(l.take(i as int) =~= l);
    }
    if !completed {
        return Err(RemoteError::Failed(owned("stream ended before response.completed")));
    }
    if items.len() != 1 {
        let mut m = owned("expected exactly one compaction item, got ");
        push_usize(&mut m, items.len());
        return Err(RemoteError::Failed(m));
    }
    let item = items.remove(0);
    let encrypted_bytes = match str_member_of(item.as_str(), "encrypted_content") {
        Some(c) => c.as_str().as_bytes().len(),
        None => 0,
    };
    Ok(RemoteCompaction { item, encrypted_bytes })
}

} // verus!
