//! Reclaim pass — always-on, lossless cleanup: clears current-run tool
//! results once the user has moved on, and downgrades old base64 images that
//! still have a file behind them to path references.

use vstd::prelude::*;
use crate::types::{AgentMessage, AgentMessageV, Content, ContentV, ImageSource, ImageSourceV, Message, MessageV, Retention, cv, mv, is_user};
use crate::tokens::{ctoks, content_tokens};
use crate::text::{owned, push_str};
use crate::compaction::pass::{Pass, PassContext, PassLevel, PassResult};
use crate::compaction::types::{ActionV, CompactionAction, CompactionMethod, av, single_action};

verus! {

/// Some message after index `i` is a user message.
pub open spec fn user_after(ms: Seq<AgentMessageV>, i: int) -> bool {
    exists|j: int| i < j < ms.len() && is_user(#[trigger] ms[j])
}

/// The note left in place of a reclaimed result.
pub open spec fn cleared_note(name: Seq<char>) -> Seq<char> {
    "["@ + name + " result cleared after use]"@
}

/// What message `i` becomes when stale current-run results are cleared, and
/// the action recorded for it. With `always` the note replaces the result
/// whatever its size; otherwise only when the note is smaller, and the
/// result is emptied when it is not.
pub open spec fn clear_msg(ms: Seq<AgentMessageV>, i: int, always: bool) -> (AgentMessageV, Option<ActionV>) {
    match ms[i] {
        AgentMessageV::Llm(MessageV::ToolResult { tool_call_id, tool_name, content, is_error, timestamp, retention }) => {
            if retention == Retention::CurrentRun && user_after(ms, i) {
                let note = seq![ContentV::Text { text: cleared_note(tool_name) }];
                let before = ctoks(content);
                let repl = if always || ctoks(note) < before { note } else { Seq::empty() };
                (
                    AgentMessageV::Llm(MessageV::ToolResult { tool_call_id, tool_name, content: repl, is_error, timestamp, retention }),
                    Some(ActionV {
                        index: i,
                        tool_name,
                        method: if always { CompactionMethod::LifecycleCleared } else { CompactionMethod::LifecycleReclaimed },
                        before_tokens: before,
                        after_tokens: ctoks(repl),
                        end_index: None,
                        related_count: None,
                    }),
                )
            } else {
                (ms[i], None)
            }
        },
        _ => (ms[i], None),
    }
}

/// The actions of the first `n` messages of a per-message rewrite.
pub open spec fn opt_actions(f: spec_fn(int) -> Option<ActionV>, n: int) -> Seq<ActionV>
    decreases n,
{
    if n <= 0 {
        Seq::empty()
    } else {
        opt_actions(f, n - 1) + match f(n - 1) {
            Some(a) => seq![a],
            None => Seq::empty(),
        }
    }
}

/// Stale current-run results cleared: the rewritten list and its actions.
pub open spec fn clear_stale_spec(ms: Seq<AgentMessageV>, always: bool) -> (Seq<AgentMessageV>, Seq<ActionV>) {
    (
        Seq::new(ms.len(), |i: int| clear_msg(ms, i, always).0),
        opt_actions(|i: int| clear_msg(ms, i, always).1, ms.len() as int),
    )
}

/// Current-run results reclaimed: the rewritten list and its actions.
pub open spec fn clear_current_run_spec(ms: Seq<AgentMessageV>) -> (Seq<AgentMessageV>, Seq<ActionV>) {
    clear_stale_spec(ms, false)
}

/// Whether the content holds an image that has a file behind it.
pub open spec fn has_path_image(c: Seq<ContentV>) -> bool {
    exists|k: int| 0 <= k < c.len() && match #[trigger] c[k] {
        ContentV::Image { source: ImageSourceV::Path { .. } } => true,
        ContentV::Image { source: ImageSourceV::Base64 { path: Some(_), .. } } => true,
        _ => false,
    }
}

/// The content of a user, assistant or tool-result message.
pub open spec fn content_of(m: AgentMessageV) -> Option<Seq<ContentV>> {
    match m {
        AgentMessageV::Llm(MessageV::User { content, .. }) => Some(content),
        AgentMessageV::Llm(MessageV::Assistant { content, .. }) => Some(content),
        AgentMessageV::Llm(MessageV::ToolResult { content, .. }) => Some(content),
        _ => None,
    }
}

/// Last index below `n` whose message holds an image with a file behind it.
pub open spec fn last_path_image(ms: Seq<AgentMessageV>, n: int) -> Option<int>
    decreases n,
{
    if n <= 0 {
        None
    } else if content_of(ms[n - 1]) matches Some(c) && has_path_image(c) {
        Some(n - 1)
    } else {
        last_path_image(ms, n - 1)
    }
}

/// A base64 image with a known file becomes a path reference.
pub open spec fn downgrade_block(c: ContentV) -> ContentV {
    match c {
        ContentV::Image { source: ImageSourceV::Base64 { path: Some(p), .. } } => ContentV::Image {
            source: ImageSourceV::Path { path: p },
        },
        _ => c,
    }
}

/// Whether a block is a base64 image with a known file.
pub open spec fn downgradable(c: ContentV) -> bool {
    c matches ContentV::Image { source: ImageSourceV::Base64 { path: Some(_), .. } }
}

pub open spec fn downgrade_content_spec(c: Seq<ContentV>) -> Seq<ContentV> {
    c.map_values(|b: ContentV| downgrade_block(b))
}

pub open spec fn any_downgradable(c: Seq<ContentV>) -> bool {
    exists|k: int| 0 <= k < c.len() && downgradable(#[trigger] c[k])
}

/// What message `i` becomes when images are downgraded (the newest image
/// with a file is left alone), and the action recorded for it.
/// Message `i` with its downgradable images turned into path references
/// (assistant messages too when `assistants`), and the action that records it.
pub open spec fn downgrade_msg(ms: Seq<AgentMessageV>, i: int, assistants: bool) -> (AgentMessageV, Option<ActionV>) {
    if last_path_image(ms, ms.len() as int) == Some(i) {
        (ms[i], None)
    } else {
        match ms[i] {
            AgentMessageV::Llm(MessageV::User { content, timestamp }) => {
                let nc = downgrade_content_spec(content);
                (
                    AgentMessageV::Llm(MessageV::User { content: nc, timestamp }),
                    if any_downgradable(content) {
                        Some(ActionV {
                            index: i,
                            tool_name: "user"@,
                            method: CompactionMethod::ImageStripped,
                            before_tokens: ctoks(content),
                            after_tokens: ctoks(nc),
                            end_index: None,
                            related_count: None,
                        })
                    } else {
                        None
                    },
                )
            },
            AgentMessageV::Llm(MessageV::ToolResult { tool_call_id, tool_name, content, is_error, timestamp, retention }) => {
                let nc = downgrade_content_spec(content);
                (
                    AgentMessageV::Llm(MessageV::ToolResult { tool_call_id, tool_name, content: nc, is_error, timestamp, retention }),
                    if any_downgradable(content) {
                        Some(ActionV {
                            index: i,
                            tool_name,
                            method: CompactionMethod::ImageStripped,
                            before_tokens: ctoks(content),
                            after_tokens: ctoks(nc),
                            end_index: None,
                            related_count: None,
                        })
                    } else {
                        None
                    },
                )
            },
            AgentMessageV::Llm(
                MessageV::Assistant { content, stop_reason, model, provider, usage, timestamp, error_message, response_id },
            ) => if assistants {
                let nc = downgrade_content_spec(content);
                (
                    AgentMessageV::Llm(
                        MessageV::Assistant {
                            content: nc,
                            stop_reason,
                            model,
                            provider,
                            usage,
                            timestamp,
                            error_message,
                            response_id,
                        },
                    ),
                    if any_downgradable(content) {
                        Some(ActionV {
                            index: i,
                            tool_name: "assistant"@,
                            method: CompactionMethod::ImageStripped,
                            before_tokens: ctoks(content),
                            after_tokens: ctoks(nc),
                            end_index: None,
                            related_count: None,
                        })
                    } else {
                        None
                    },
                )
            } else {
                (ms[i], None)
            },
            _ => (ms[i], None),
        }
    }
}

/// Images downgraded (in assistant messages too when `assistants`): the
/// rewritten list and its actions.
pub open spec fn downgrade_with_spec(ms: Seq<AgentMessageV>, assistants: bool) -> (Seq<AgentMessageV>, Seq<ActionV>) {
    (
        Seq::new(ms.len(), |i: int| downgrade_msg(ms, i, assistants).0),
        opt_actions(|i: int| downgrade_msg(ms, i, assistants).1, ms.len() as int),
    )
}

/// Images of user messages and tool results downgraded.
pub open spec fn downgrade_images_spec(ms: Seq<AgentMessageV>) -> (Seq<AgentMessageV>, Seq<ActionV>) {
    downgrade_with_spec(ms, false)
}

/// The whole reclaim pass: clearing, then downgrading the result.
pub open spec fn reclaim_spec(ms: Seq<AgentMessageV>) -> (Seq<AgentMessageV>, Seq<ActionV>) {
    let (a, x) = clear_current_run_spec(ms);
    let (b, y) = downgrade_images_spec(a);
    (b, x + y)
}

fn is_user_message(m: &AgentMessage) -> (r: bool)
    ensures
        r == is_user(m@),
{
    match m {
        AgentMessage::Llm(Message::User { .. }) => true,
        _ => false,
    }
}

fn note_text(tool_name: &String) -> (r: String)
    ensures
        r@ == cleared_note(tool_name@),
{
    let mut s = owned("[");
    push_str(&mut s, tool_name.as_str());
    push_str(&mut s, " result cleared after use]");
    s
}

/// Clears `Retention::CurrentRun` results that a later user message has
/// made stale.
pub fn clear_current_run(messages: Vec<AgentMessage>) -> (r: (Vec<AgentMessage>, Vec<CompactionAction>))
    ensures
        (mv(r.0@), av(r.1@)) == clear_current_run_spec(mv(messages@)),
{
    clear_stale(messages, false)
}

/// Clears `Retention::CurrentRun` results that a later user message has
/// made stale, as [`clear_msg`] says.
pub fn clear_stale(messages: Vec<AgentMessage>, always: bool) -> (r: (Vec<AgentMessage>, Vec<CompactionAction>))
    ensures
        (mv(r.0@), av(r.1@)) == clear_stale_spec(mv(messages@), always),
{
    let ghost ms = mv(messages@);
    let n = messages.len();
    let mut user_after_v: Vec<bool> = Vec::new();
    let mut seen = false;
    let mut k: usize = n;
    while k > 0
        invariant
            k <= n == messages@.len(),
            ms == mv(messages@),
            user_after_v@.len() == n - k,
            seen == (exists|j: int| k <= j < n && is_user(#[trigger] ms[j])),
            forall|t: int| 0 <= t < n - k ==> user_after_v@[t] == user_after(ms, n - 1 - t),
        decreases k,
    {
        proof {
            assert(seen == user_after(ms, k - 1));
        }
        user_after_v.push(seen);
        let u = is_user_message(&messages[k - 1]);
        proof {
            assert(ms[k - 1] == messages@[k - 1]@);
            if u {
                assert(is_user(ms[k - 1]));
            }
            if exists|j: int| k - 1 <= j < n && is_user(#[trigger] ms[j]) {
                let j = choose|j: int| k - 1 <= j < n && is_user(#[trigger] ms[j]);
                if j >= k {
                    assert(exists|j: int| k <= j < n && is_user(#[trigger] ms[j]));
                }
            }
        }
        if u {
            seen = true;
        }
        k = k - 1;
    }
    let ghost raw = messages@;
    let mut out: Vec<AgentMessage> = Vec::new();
    let mut actions: Vec<CompactionAction> = Vec::new();
    let mut idx: usize = 0;
    for m in it: messages
        invariant
            it.seq() == raw,
            idx == it.index(),
            ms == mv(raw),
            n == raw.len(),
            user_after_v@.len() == n,
            forall|t: int| 0 <= t < n ==> user_after_v@[t] == user_after(ms, n - 1 - t),
            mv(out@) == Seq::new(it.index() as nat, |i: int| clear_msg(ms, i, always).0),
            av(actions@) == opt_actions(|i: int| clear_msg(ms, i, always).1, it.index() as int),
    {
        let ghost f = |i: int| clear_msg(ms, i, always).1;
        proof {
            assert(m@ == ms[idx as int]);
            assert(user_after_v@[n - 1 - idx] == user_after(ms, idx as int));
        }
        let stale = user_after_v[n - 1 - idx];
        match m {
            AgentMessage::Llm(Message::ToolResult { tool_call_id, tool_name, content, is_error, timestamp, retention }) => {
                if retention == Retention::CurrentRun && stale {
                    let before = content_tokens(&content);
                    let mut note: Vec<Content> = Vec::new();
                    note.push(Content::Text { text: note_text(&tool_name) });
                    let note_tokens = content_tokens(&note);
                    let repl = if always || note_tokens < before { note } else { Vec::new() };
                    let after = content_tokens(&repl);
                    let ghost pa = actions@;
                    let method = if always { CompactionMethod::LifecycleCleared } else { CompactionMethod::LifecycleReclaimed };
                    actions.push(single_action(idx, tool_name.clone(), method, before, after));
                    let ghost po = out@;
                    out.push(AgentMessage::Llm(Message::ToolResult { tool_call_id, tool_name, content: repl, is_error, timestamp, retention }));
                    proof {
                        assert(cv(note@) =~= seq![ContentV::Text { text: cleared_note(tool_name@) }]);
                        assert(mv(out@) =~= mv(po).push(out@[idx as int]@));
                        if !always && note_tokens >= before {
                            assert(cv(repl@) =~= Seq::<ContentV>::empty());
                        }
                        assert(mv(out@) =~= Seq::new((idx + 1) as nat, |i: int| clear_msg(ms, i, always).0));
                        assert(av(actions@) =~= av(pa).push(clear_msg(ms, idx as int, always).1->0));
                        assert(opt_actions(f, idx + 1) =~= opt_actions(f, idx as int) + seq![clear_msg(ms, idx as int, always).1->0]);
                    }
                } else {
                    let ghost po = out@;
                    out.push(AgentMessage::Llm(Message::ToolResult { tool_call_id, tool_name, content, is_error, timestamp, retention }));
                    proof {
                        assert(mv(out@) =~= mv(po).push(out@[idx as int]@));
                        assert(mv(out@) =~= Seq::new((idx + 1) as nat, |i: int| clear_msg(ms, i, always).0));
                        assert(opt_actions(f, idx + 1) =~= opt_actions(f, idx as int));
                    }
                }
            },
            other => {
                let ghost po = out@;
                out.push(other);
                proof {
                    assert(mv(out@) =~= mv(po).push(out@[idx as int]@));
                    assert(mv(out@) =~= Seq::new((idx + 1) as nat, |i: int| clear_msg(ms, i, always).0));
                    assert(opt_actions(f, idx + 1) =~= opt_actions(f, idx as int));
                }
            },
        }
        idx = idx + 1;
    }
    (out, actions)
}

fn has_path_image_exec(content: &[Content]) -> (r: bool)
    ensures
        r == has_path_image(cv(content@)),
{
    let mut i: usize = 0;
    while i < content.len()
        invariant
            i <= content@.len(),
            forall|k: int| 0 <= k < i ==> !(match #[trigger] cv(content@)[k] {
                ContentV::Image { source: ImageSourceV::Path { .. } } => true,
                ContentV::Image { source: ImageSourceV::Base64 { path: Some(_), .. } } => true,
                _ => false,
            }),
        decreases content@.len() - i,
    {
        proof {
            assert(cv(content@)[i as int] == content@[i as int]@);
        }
        match &content[i] {
            Content::Image { source: ImageSource::Path { .. } } => return true,
            Content::Image { source: ImageSource::Base64 { path: Some(_), .. } } => return true,
            _ => {},
        }
        i = i + 1;
    }
    false
}

fn content_has_path_image(m: &AgentMessage) -> (r: bool)
    ensures
        r == (content_of(m@) matches Some(c) && has_path_image(c)),
{
    match m {
        AgentMessage::Llm(Message::User { content, .. }) => has_path_image_exec(content),
        AgentMessage::Llm(Message::Assistant { content, .. }) => has_path_image_exec(content),
        AgentMessage::Llm(Message::ToolResult { content, .. }) => has_path_image_exec(content),
        _ => false,
    }
}

/// Index of the newest message holding an image with a file behind it.
fn find_keep_index(messages: &[AgentMessage]) -> (r: Option<usize>)
    ensures
        match r {
            Some(i) => last_path_image(mv(messages@), messages@.len() as int) == Some(i as int),
            None => last_path_image(mv(messages@), messages@.len() as int) is None,
        },
{
    let ghost ms = mv(messages@);
    let mut n = messages.len();
    while n > 0
        invariant
            n <= messages@.len(),
            ms == mv(messages@),
            last_path_image(ms, messages@.len() as int) == last_path_image(ms, n as int),
        decreases n,
    {
        proof {
            assert(ms[n - 1] == messages@[n - 1]@);
        }
        if content_has_path_image(&messages[n - 1]) {
            return Some(n - 1);
        }
        n = n - 1;
    }
    None
}

/// Base64 images with a known file become path references; reports whether
/// anything changed.
fn downgrade_content(content: Vec<Content>) -> (r: (Vec<Content>, bool))
    ensures
        cv(r.0@) == downgrade_content_spec(cv(content@)),
        r.1 == any_downgradable(cv(content@)),
{
    let ghost orig = cv(content@);
    let ghost raw = content@;
    let mut out: Vec<Content> = Vec::new();
    let mut changed = false;
    for c in it: content
        invariant
            it.seq() == raw,
            orig == cv(raw),
            cv(out@) == downgrade_content_spec(orig.take(it.index() as int)),
            changed == any_downgradable(orig.take(it.index() as int)),
    {
        let ghost k = it.index();
        let ghost po = out@;
        proof {
            assert(orig[k] == c@);
        }
        match c {
            Content::Image { source: ImageSource::Base64 { data, media_type, path: Some(p) } } => {
                out.push(Content::Image { source: ImageSource::Path { path: p } });
                changed = true;
            },
            other => {
                out.push(other);
            },
        }
        proof {
            assert(cv(out@) =~= cv(po).push(out@[k]@));
            assert(downgrade_content_spec(orig.take(k + 1)) =~= downgrade_content_spec(orig.take(k)).push(downgrade_block(orig[k])));
            if downgradable(orig[k]) {
                assert(downgradable(orig.take(k + 1)[k]));
            }
            if any_downgradable(orig.take(k + 1)) {
                let j = choose|j: int| 0 <= j < orig.take(k + 1).len() && downgradable(#[trigger] orig.take(k + 1)[j]);
                if j < k {
                    assert(orig.take(k)[j] == orig[j]);
                }
            }
            if any_downgradable(orig.take(k)) {
                let j = choose|j: int| 0 <= j < orig.take(k).len() && downgradable(#[trigger] orig.take(k)[j]);
                assert(orig.take(k + 1)[j] == orig[j]);
            }
        }
    }
    proof {
        assert(orig.take(orig.len() as int) =~= orig);
    }
    (out, changed)
}

/// Downgrades old base64 images that still have a file to path references;
/// the newest such image is kept as it is.
pub fn downgrade_images(messages: Vec<AgentMessage>) -> (r: (Vec<AgentMessage>, Vec<CompactionAction>))
    ensures
        (mv(r.0@), av(r.1@)) == downgrade_images_spec(mv(messages@)),
{
    downgrade_images_with(messages, false)
}

/// As `downgrade_images`, assistant messages included when `assistants`.
pub fn downgrade_images_with(messages: Vec<AgentMessage>, assistants: bool) -> (r: (Vec<AgentMessage>, Vec<CompactionAction>))
    ensures
        (mv(r.0@), av(r.1@)) == downgrade_with_spec(mv(messages@), assistants),
{
    let ghost ms = mv(messages@);
    let ghost raw = messages@;
    let keep = find_keep_index(&messages);
    let n = messages.len();
    let mut out: Vec<AgentMessage> = Vec::new();
    let mut actions: Vec<CompactionAction> = Vec::new();
    let mut idx: usize = 0;
    for m in it: messages
        invariant
            it.seq() == raw,
            idx == it.index(),
            ms == mv(raw),
            n == raw.len(),
            match keep {
                Some(i) => last_path_image(ms, ms.len() as int) == Some(i as int),
                None => last_path_image(ms, ms.len() as int) is None,
            },
            mv(out@) == Seq::new(it.index() as nat, |i: int| downgrade_msg(ms, i, assistants).0),
            av(actions@) == opt_actions(|i: int| downgrade_msg(ms, i, assistants).1, it.index() as int),
    {
        let ghost f = |i: int| downgrade_msg(ms, i, assistants).1;
        let ghost po = out@;
        let ghost pa = actions@;
        proof {
            assert(m@ == ms[idx as int]);
            assert(idx < n);
        }
        let is_keep = match keep {
            Some(k) => k == idx,
            None => false,
        };
        if is_keep {
            out.push(m);
        } else {
            match m {
                AgentMessage::Llm(Message::User { content, timestamp }) => {
                    let before = content_tokens(&content);
                    let (nc, changed) = downgrade_content(content);
                    if changed {
                        let after = content_tokens(&nc);
                        actions.push(single_action(idx, owned("user"), CompactionMethod::ImageStripped, before, after));
                    }
                    out.push(AgentMessage::Llm(Message::User { content: nc, timestamp }));
                },
                AgentMessage::Llm(Message::ToolResult { tool_call_id, tool_name, content, is_error, timestamp, retention }) => {
                    let before = content_tokens(&content);
                    let (nc, changed) = downgrade_content(content);
                    if changed {
                        let after = content_tokens(&nc);
                        actions.push(single_action(idx, tool_name.clone(), CompactionMethod::ImageStripped, before, after));
                    }
                    out.push(AgentMessage::Llm(Message::ToolResult { tool_call_id, tool_name, content: nc, is_error, timestamp, retention }));
                },
                AgentMessage::Llm(
                    Message::Assistant { content, stop_reason, model, provider, usage, timestamp, error_message, response_id },
                ) => {
                    if assistants {
                        let before = content_tokens(&content);
                        let (nc, changed) = downgrade_content(content);
                        if changed {
                            let after = content_tokens(&nc);
                            actions.push(single_action(idx, owned("assistant"), CompactionMethod::ImageStripped, before, after));
                        }
                        out.push(AgentMessage::Llm(Message::Assistant { content: nc, stop_reason, model, provider, usage, timestamp, error_message, response_id }));
                    } else {
                        out.push(AgentMessage::Llm(Message::Assistant { content, stop_reason, model, provider, usage, timestamp, error_message, response_id }));
                    }
                },
                other => {
                    out.push(other);
                },
            }
        }
        proof {
            assert(mv(out@) =~= mv(po).push(out@[idx as int]@));
            assert(mv(out@) =~= Seq::new((idx + 1) as nat, |i: int| downgrade_msg(ms, i, assistants).0));
            match f(idx as int) {
                Some(a) => {
                    assert(av(actions@) =~= av(pa).push(a));
                    assert(opt_actions(f, idx + 1) =~= opt_actions(f, idx as int) + seq![a]);
                },
                None => {
                    assert(av(actions@) =~= av(pa));
                    assert(opt_actions(f, idx + 1) =~= opt_actions(f, idx as int));
                },
            }
        }
        idx = idx + 1;
    }
    (out, actions)
}

/// The always-on reclaim pass.
pub struct Reclaim;

impl Pass for Reclaim {
    fn level(&self) -> (r: PassLevel)
        ensures
            r == PassLevel::Reclaim,
    {
        PassLevel::Reclaim
    }

    /// Always on.
    fn should_run(&self, ctx: &PassContext) -> (r: bool)
        ensures
            r,
    {
        true
    }

    /// Clears stale current-run results, then downgrades old images.
    fn run(&self, messages: Vec<AgentMessage>, ctx: &PassContext) -> (r: PassResult)
        ensures
            (mv(r.messages@), av(r.actions@)) == reclaim_spec(mv(messages@)),
    {
        let (messages, mut actions) = clear_current_run(messages);
        let (messages, image_actions) = downgrade_images(messages);
        let ghost a = actions@;
        let ghost b = image_actions@;
        let mut image_actions = image_actions;
        actions.append(&mut image_actions);
        proof {
            assert(actions@ =~= a + b);
            assert(av(actions@) =~= av(a) + av(b));
        }
        PassResult { messages, actions }
    }
}

} // verus!
